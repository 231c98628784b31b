use hyperion_vpn::net::Ipv4Addr;
use hyperion_vpn::server::sniffer::{SniffAction, Sniffer};
use hyperion_vpn::tunnel::keys::Keypair;
use hyperion_vpn::tunnel::knock::{seal_at, seal_for_at};
use hyperion_vpn::tunnel::packet::{
    parse_ethernet_ipv4_udp, parse_ipv4_udp, ETHERNET_HEADER_LEN, ETHERTYPE_IPV4, IPPROTO_UDP,
};
use hyperion_vpn::tunnel::psk::Psk;

fn build_frame(src: [u8; 4], dst_port: u16, payload: &[u8]) -> Vec<u8> {
    let mut f = Vec::new();
    f.extend_from_slice(&[0xff; 6]);
    f.extend_from_slice(&[0xaa; 6]);
    f.extend_from_slice(&ETHERTYPE_IPV4.to_be_bytes());
    let mut ip = vec![0u8; 20];
    ip[0] = 0x45;
    ip[9] = IPPROTO_UDP;
    ip[12..16].copy_from_slice(&src);
    let udp_len = 8 + payload.len();
    let mut udp = vec![0u8; 8];
    udp[2..4].copy_from_slice(&dst_port.to_be_bytes());
    udp[4..6].copy_from_slice(&(udp_len as u16).to_be_bytes());
    udp.extend_from_slice(payload);
    f.extend_from_slice(&ip);
    f.extend_from_slice(&udp);
    f
}

#[test]
fn parses_knock_frame() {
    let frame = build_frame([203, 0, 113, 7], 8443, b"knock-bytes");
    let (src, port, payload) = parse_ethernet_ipv4_udp(&frame).unwrap();
    assert_eq!(src, Ipv4Addr::new(203, 0, 113, 7));
    assert_eq!(port, 8443);
    assert_eq!(payload, b"knock-bytes");
}

#[test]
fn trims_ethernet_padding() {
    let mut frame = build_frame([10, 0, 0, 1], 9000, b"abc");
    frame.extend_from_slice(&[0u8; 20]);
    let (_, _, payload) = parse_ethernet_ipv4_udp(&frame).unwrap();
    assert_eq!(payload, b"abc");
}

#[test]
fn rejects_non_ipv4_and_non_udp() {
    let mut tcp = build_frame([10, 0, 0, 1], 9000, b"x");
    tcp[ETHERNET_HEADER_LEN + 9] = 6;
    assert!(parse_ethernet_ipv4_udp(&tcp).is_none());
    assert!(parse_ethernet_ipv4_udp(&[0u8; 4]).is_none());
}

#[test]
fn never_panics_on_arbitrary_input() {
    let mut buf = [0u8; 128];
    for _ in 0..5000 {
        getrandom::fill(&mut buf).unwrap();
        let len = buf[0] as usize % buf.len();
        let _ = parse_ethernet_ipv4_udp(&buf[..len]);
        let _ = parse_ipv4_udp(&buf[..len]);
    }
}

#[test]
fn headers_and_lengths_are_checked() {
    let good = build_frame([1, 2, 3, 4], 53, b"abcd");
    let ip = &good[ETHERNET_HEADER_LEN..];
    assert_eq!(parse_ipv4_udp(ip).unwrap().2, b"abcd");
    let mut v6 = ip.to_vec();
    v6[0] = 0x65;
    assert!(parse_ipv4_udp(&v6).is_none());
    let mut short_header = ip.to_vec();
    short_header[0] = 0x44;
    assert!(parse_ipv4_udp(&short_header).is_none());
    let mut long_header = ip.to_vec();
    long_header[0] = 0x4f;
    assert!(parse_ipv4_udp(&long_header).is_none());
    let mut longer = ip.to_vec();
    longer[25] = 13;
    assert!(parse_ipv4_udp(&longer).is_none());
    let mut shorter = ip.to_vec();
    shorter[25] = 7;
    assert!(parse_ipv4_udp(&shorter).is_none());
    let mut options = vec![0u8; 4];
    options.splice(0..0, ip[..20].iter().copied());
    options[0] = 0x46;
    options.extend_from_slice(&ip[20..]);
    assert_eq!(parse_ipv4_udp(&options).unwrap().2, b"abcd");
    let mut other = good.clone();
    other[12] = 0x86;
    assert!(parse_ethernet_ipv4_udp(&other).is_none());
}

#[test]
fn sniffer_opens_for_the_source_of_a_knock() {
    let psk = Psk::from_bytes([8u8; 32]);
    let me = Keypair::generate().public;
    let other = Keypair::generate().public;
    let mut s = Sniffer::new(4000, 8443, psk.clone(), me, 30);
    let knock = seal_for_at(&psk, &me, 8443, 1000).unwrap();
    let frame = build_frame([203, 0, 113, 7], 4000, &knock);
    assert_eq!(
        s.on_frame(&frame, 1001),
        SniffAction::Allow(Ipv4Addr::new(203, 0, 113, 7))
    );
    assert_eq!(s.on_frame(&frame, 1001), SniffAction::Ignore);

    let elsewhere = seal_for_at(&psk, &me, 22, 1000).unwrap();
    assert_eq!(
        s.on_frame(&build_frame([203, 0, 113, 7], 4000, &elsewhere), 1001),
        SniffAction::OtherPort(22)
    );
    let not_mine = seal_for_at(&psk, &other, 8443, 1000).unwrap();
    assert_eq!(
        s.on_frame(&build_frame([203, 0, 113, 7], 4000, &not_mine), 1001),
        SniffAction::Ignore
    );
    let unbound = seal_at(&psk, 8443, 1000).unwrap();
    assert_eq!(
        s.on_frame(&build_frame([203, 0, 113, 7], 4000, &unbound), 1001),
        SniffAction::Ignore
    );
    let again = seal_for_at(&psk, &me, 8443, 1000).unwrap();
    assert_eq!(
        s.on_frame(&build_frame([203, 0, 113, 7], 4001, &again), 1001),
        SniffAction::Ignore
    );
    assert_eq!(s.on_frame(b"noise", 1001), SniffAction::Ignore);

    assert_eq!(s.on_received(None, 1001), SniffAction::Ignore);
    let next = seal_for_at(&psk, &me, 8443, 1000).unwrap();
    let frame = build_frame([198, 51, 100, 9], 4000, &next);
    assert_eq!(
        s.on_received(Some(&frame), 1002),
        SniffAction::Allow(Ipv4Addr::new(198, 51, 100, 9))
    );
    assert_eq!(s.on_received(Some(&frame), 1002), SniffAction::Ignore);
}
