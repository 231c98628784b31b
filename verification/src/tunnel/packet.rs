//! UDP datagrams inside IPv4 packets and Ethernet frames.
use crate::bytes;
use crate::net::{self, Ipv4Addr};
use vstd::prelude::*;

verus! {

broadcast use vstd::seq_lib::group_seq_properties;

pub const ETHERNET_HEADER_LEN: usize = 14;

pub const ETHERTYPE_IPV4: u16 = 0x0800;

pub const IPPROTO_UDP: u8 = 17;

/// A datagram: where it comes from, which port it is for, and what it holds.
pub struct Datagram {
    pub source: Seq<u8>,
    pub port: nat,
    pub payload: Seq<u8>,
}

/// The datagram in an IPv4 packet, if the packet holds one.
pub open spec fn ipv4_udp(ip: Seq<u8>) -> Option<Datagram> {
    let header = (ip[0] % 16) * 4;
    let udp = ip.skip(header as int);
    let len = bytes::be_value(udp.subrange(4, 6)) as int;
    if ip.len() >= 20 && ip[0] / 16 == 4 && header >= 20 && ip.len() >= header + 8 && ip[9]
        == IPPROTO_UDP && 8 <= len <= udp.len() {
        Some(
            Datagram {
                source: ip.subrange(12, 16),
                port: bytes::be_value(udp.subrange(2, 4)),
                payload: udp.subrange(8, len),
            },
        )
    } else {
        None
    }
}

/// The datagram in an Ethernet frame, if the frame holds one.
pub open spec fn ethernet_udp(frame: Seq<u8>) -> Option<Datagram> {
    if frame.len() >= ETHERNET_HEADER_LEN && bytes::be_value(frame.subrange(12, 14))
        == ETHERTYPE_IPV4 {
        ipv4_udp(frame.skip(14))
    } else {
        None
    }
}

/// What a parser gave, as a datagram.
pub open spec fn parsed(r: Option<(Ipv4Addr, u16, &[u8])>) -> Option<Datagram> {
    match r {
        Some((source, port, payload)) => Some(
            Datagram { source: net::octets_of(source), port: port as nat, payload: payload@ },
        ),
        None => None,
    }
}

/// The source, destination port and payload of a UDP datagram in an IPv4 packet.
pub fn parse_ipv4_udp(ip: &[u8]) -> (r: Option<(Ipv4Addr, u16, &[u8])>)
    ensures
        parsed(r) == ipv4_udp(ip@),
        match r {
            Some((source, port, payload)) => ipv4_udp(ip@) == Some(
                Datagram { source: net::octets_of(source), port: port as nat, payload: payload@ },
            ),
            None => ipv4_udp(ip@) is None,
        },
{
    if ip.len() < 20 || ip[0] / 16 != 4 {
        return None;
    }
    let header: usize = ((ip[0] % 16) as usize) * 4;
    if header < 20 || ip.len() < header || ip[9] != IPPROTO_UDP {
        return None;
    }
    let source = Ipv4Addr::new(ip[12], ip[13], ip[14], ip[15]);
    assert(ip@.subrange(12, 16) =~= seq![ip@[12], ip@[13], ip@[14], ip@[15]]);
    let udp = vstd::slice::slice_subrange(ip, header, ip.len());
    assert(udp@ =~= ip@.skip(header as int));
    if udp.len() < 8 {
        return None;
    }
    let port: u16 = bytes::u16_from_be(udp[2], udp[3]);
    assert(udp@.subrange(2, 4) =~= seq![udp@[2], udp@[3]]);
    let len: u16 = bytes::u16_from_be(udp[4], udp[5]);
    assert(udp@.subrange(4, 6) =~= seq![udp@[4], udp@[5]]);
    if len < 8 || len as usize > udp.len() {
        return None;
    }
    Some((source, port, vstd::slice::slice_subrange(udp, 8, len as usize)))
}

/// The source, destination port and payload of a UDP datagram in an Ethernet frame.
pub fn parse_ethernet_ipv4_udp(frame: &[u8]) -> (r: Option<(Ipv4Addr, u16, &[u8])>)
    ensures
        parsed(r) == ethernet_udp(frame@),
        match r {
            Some((source, port, payload)) => ethernet_udp(frame@) == Some(
                Datagram { source: net::octets_of(source), port: port as nat, payload: payload@ },
            ),
            None => ethernet_udp(frame@) is None,
        },
{
    if frame.len() < ETHERNET_HEADER_LEN {
        return None;
    }
    let ethertype: u16 = bytes::u16_from_be(frame[12], frame[13]);
    assert(frame@.subrange(12, 14) =~= seq![frame@[12], frame@[13]]);
    if ethertype != ETHERTYPE_IPV4 {
        return None;
    }
    let ip = vstd::slice::slice_subrange(frame, ETHERNET_HEADER_LEN, frame.len());
    assert(ip@ =~= frame@.skip(14));
    parse_ipv4_udp(ip)
}

/// What follows a datagram in its packet makes no difference.
pub proof fn padding_is_ignored(ip: Seq<u8>, padding: Seq<u8>)
    requires
        ipv4_udp(ip) is Some,
    ensures
        ipv4_udp(ip + padding) == ipv4_udp(ip),
{
    let header = (ip[0] % 16) * 4;
    let udp = ip.skip(header as int);
    let longer = (ip + padding).skip(header as int);
    assert(longer =~= udp + padding);
    assert(longer.subrange(4, 6) =~= udp.subrange(4, 6));
    assert(longer.subrange(2, 4) =~= udp.subrange(2, 4));
    let len = bytes::be_value(udp.subrange(4, 6)) as int;
    assert(longer.subrange(8, len) =~= udp.subrange(8, len));
    assert((ip + padding).subrange(12, 16) =~= ip.subrange(12, 16));
}

/// A UDP datagram in an IPv4 packet is found whole: with any header of 20 to 60 bytes that says
/// version 4, its own length and UDP, and a UDP header that says the length, the packet gives the
/// source, the port and the payload. The other bytes of both headers, and what follows the datagram,
/// make no difference.
pub proof fn every_datagram_is_found(
    ip_header: Seq<u8>,
    udp_header: Seq<u8>,
    payload: Seq<u8>,
    padding: Seq<u8>,
)
    requires
        20 <= ip_header.len() <= 60,
        4 * (ip_header[0] - 0x40) == ip_header.len(),
        ip_header[9] == 17,
        udp_header.len() == 8,
        256 * udp_header[4] + udp_header[5] == 8 + payload.len(),
    ensures
        ipv4_udp(ip_header + udp_header + payload + padding) matches Some(d) && {
            &&& d.source == seq![ip_header[12], ip_header[13], ip_header[14], ip_header[15]]
            &&& d.port == 256 * udp_header[2] + udp_header[3]
            &&& d.payload == payload
        },
{
    let udp = udp_header + payload + padding;
    let ip = ip_header + udp;
    assert(ip_header + udp_header + payload + padding =~= ip);
    assert(ip[0] == ip_header[0] && ip[9] == ip_header[9]);
    assert(ip.skip(ip_header.len() as int) =~= udp);
    assert(ip.subrange(12, 16) =~= seq![
        ip_header[12],
        ip_header[13],
        ip_header[14],
        ip_header[15],
    ]);
    udp_parts(udp_header, payload, padding);
}

/// The ports, the length and the payload of a UDP datagram.
proof fn udp_parts(udp_header: Seq<u8>, payload: Seq<u8>, padding: Seq<u8>)
    requires
        udp_header.len() == 8,
    ensures
        ({
            let udp = udp_header + payload + padding;
            &&& udp.len() >= 8 + payload.len()
            &&& bytes::be_value(udp.subrange(2, 4)) == 256 * udp_header[2] + udp_header[3]
            &&& bytes::be_value(udp.subrange(4, 6)) == 256 * udp_header[4] + udp_header[5]
            &&& udp.subrange(8, 8 + payload.len() as int) == payload
        }),
{
    let udp = udp_header + payload + padding;
    bytes::two_bytes(udp_header[2], udp_header[3]);
    bytes::two_bytes(udp_header[4], udp_header[5]);
    assert(udp.subrange(2, 4) =~= seq![udp_header[2], udp_header[3]]);
    assert(udp.subrange(4, 6) =~= seq![udp_header[4], udp_header[5]]);
    assert(udp.subrange(8, 8 + payload.len() as int) =~= payload);
}

/// What is found in an IPv4 packet is a UDP datagram: the packet is a header of version 4 that says
/// its own length and UDP, a UDP header that says the length, the payload, and what may follow.
pub proof fn only_datagrams_are_found(ip: Seq<u8>)
    ensures
        ipv4_udp(ip) matches Some(d) ==> exists|
            ip_header: Seq<u8>,
            udp_header: Seq<u8>,
            padding: Seq<u8>,
        |
            {
                &&& ip == #[trigger] (ip_header + udp_header + d.payload + padding)
                &&& 20 <= ip_header.len() <= 60
                &&& 4 * (ip_header[0] - 0x40) == ip_header.len()
                &&& ip_header[9] == 17
                &&& udp_header.len() == 8
                &&& 256 * udp_header[4] + udp_header[5] == 8 + d.payload.len()
                &&& d.source == seq![ip_header[12], ip_header[13], ip_header[14], ip_header[15]]
                &&& d.port == 256 * udp_header[2] + udp_header[3]
            },
{
    if let Some(d) = ipv4_udp(ip) {
        let header = (ip[0] % 16) * 4;
        let udp = ip.skip(header);
        bytes::two_bytes(udp[2], udp[3]);
        bytes::two_bytes(udp[4], udp[5]);
        assert(udp.subrange(2, 4) =~= seq![udp[2], udp[3]]);
        assert(udp.subrange(4, 6) =~= seq![udp[4], udp[5]]);
        let ip_header = ip.take(header);
        let udp_header = udp.take(8);
        let padding = udp.skip(8 + d.payload.len() as int);
        assert(ip =~= ip_header + udp_header + d.payload + padding);
        assert(ip_header[0] == ip[0] && ip_header[9] == ip[9]);
        assert(d.source =~= seq![ip_header[12], ip_header[13], ip_header[14], ip_header[15]]);
    }
}

/// An Ethernet frame holds what the IPv4 packet in it holds, whatever its addresses are; a frame of
/// another type, or one that is cut short, holds nothing.
pub proof fn frames_hold_packets(addresses: Seq<u8>, hi: u8, lo: u8, rest: Seq<u8>, short: Seq<u8>)
    requires
        addresses.len() == 12,
        short.len() < 14,
    ensures
        ethernet_udp(addresses + seq![hi, lo] + rest) == (if hi == 8 && lo == 0 {
            ipv4_udp(rest)
        } else {
            None
        }),
        ethernet_udp(short) is None,
{
    let frame = addresses + seq![hi, lo] + rest;
    bytes::two_bytes(hi, lo);
    assert(frame.subrange(12, 14) =~= seq![hi, lo]);
    assert(frame.skip(14) =~= rest);
}

} // verus!
