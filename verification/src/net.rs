//! IPv4 addresses and their text.
use crate::bytes;
use crate::text;
use vstd::prelude::*;

verus! {

broadcast use vstd::seq_lib::group_seq_properties;

/// An IPv4 address, as a number.
#[derive(Clone, Copy, Debug, PartialEq, Eq, Structural)]
pub struct Ipv4Addr {
    pub bits: u32,
}

/// The four octets of an address.
pub open spec fn octets_of(ip: Ipv4Addr) -> Seq<u8> {
    bytes::be_bytes(ip.bits as nat, 4)
}

/// The octets of an address in decimal.
pub open spec fn octet_texts(ip: Ipv4Addr) -> Seq<Seq<char>> {
    let o = octets_of(ip);
    seq![
        text::decimal(o[0] as nat),
        text::decimal(o[1] as nat),
        text::decimal(o[2] as nat),
        text::decimal(o[3] as nat),
    ]
}

/// An address in dotted decimal.
pub open spec fn dotted(ip: Ipv4Addr) -> Seq<char> {
    text::joined(octet_texts(ip), seq!['.'])
}

/// The address that a text denotes in dotted decimal, if it denotes one.
pub open spec fn ipv4_of(s: Seq<char>) -> Option<Ipv4Addr> {
    if exists|ip: Ipv4Addr| dotted(ip) == s {
        Some(choose|ip: Ipv4Addr| dotted(ip) == s)
    } else {
        None
    }
}

/// What is said of a text that denotes no address.
pub open spec fn no_ipv4() -> Seq<char> {
    "invalid IPv4 address syntax"@
}

proof fn octet_texts_have_no_dot(ip: Ipv4Addr)
    ensures
        forall|i: int| 0 <= i < 4 ==> !(#[trigger] octet_texts(ip)[i]).contains('.'),
{
    let o = octets_of(ip);
    bytes::be_bytes_len(ip.bits as nat, 4);
    assert forall|i: int| 0 <= i < 4 implies !(#[trigger] octet_texts(ip)[i]).contains('.') by {
        let t = octet_texts(ip)[i];
        assert(t == text::decimal(o[i] as nat));
        text::decimal_is_canonical(o[i] as nat);
        if t.contains('.') {
            let j = choose|j: int| 0 <= j < t.len() && t[j] == '.';
            assert(text::is_digit(t[j]));
        }
    }
}

proof fn bits_of_octets(bits: u32)
    ensures
        octets_of(Ipv4Addr { bits }).len() == 4,
        bytes::be_value(octets_of(Ipv4Addr { bits })) == bits,
{
    reveal_with_fuel(bytes::pow256, 5);
    bytes::be_round_trip(bits as nat, 4);
}

/// The octets of an address are its number's four bytes, the highest first, and its text is these
/// four numbers in base 10 with dots between them.
pub proof fn octets_of_an_address(a: u8, b: u8, c: u8, d: u8)
    ensures
        ({
            let ip = Ipv4Addr { bits: (a * 0x100_0000 + b * 0x1_0000 + c * 0x100 + d) as u32 };
            &&& octets_of(ip) == seq![a, b, c, d]
            &&& dotted(ip) == text::decimal(a as nat) + seq!['.'] + text::decimal(b as nat)
                + seq!['.'] + text::decimal(c as nat) + seq!['.'] + text::decimal(d as nat)
        }),
{
    let bits = a * 0x100_0000 + b * 0x1_0000 + c * 0x100 + d;
    let ip = Ipv4Addr { bits: bits as u32 };
    let s = seq![a, b, c, d];
    bytes::be_value_round_trip(s);
    reveal_with_fuel(bytes::be_value, 5);
    assert(s.drop_last() =~= seq![a, b, c]);
    assert(seq![a, b, c].drop_last() =~= seq![a, b]);
    assert(seq![a, b].drop_last() =~= seq![a]);
    assert(seq![a].drop_last() =~= Seq::<u8>::empty());
    assert(bytes::be_value(s) == bits);
    reveal_with_fuel(text::joined, 5);
    let t = octet_texts(ip);
    assert(t.drop_last() =~= seq![t[0], t[1], t[2]]);
    assert(seq![t[0], t[1], t[2]].drop_last() =~= seq![t[0], t[1]]);
    assert(seq![t[0], t[1]].drop_last() =~= seq![t[0]]);
}

/// Every address is made of its four octets.
pub proof fn address_of_octets(ip: Ipv4Addr)
    ensures
        octets_of(ip).len() == 4,
        ip.bits == octets_of(ip)[0] * 0x100_0000 + octets_of(ip)[1] * 0x1_0000 + octets_of(ip)[2]
            * 0x100 + octets_of(ip)[3],
{
    let s = octets_of(ip);
    bits_of_octets(ip.bits);
    reveal_with_fuel(bytes::be_value, 5);
    assert(s.drop_last() =~= seq![s[0], s[1], s[2]]);
    assert(seq![s[0], s[1], s[2]].drop_last() =~= seq![s[0], s[1]]);
    assert(seq![s[0], s[1]].drop_last() =~= seq![s[0]]);
    assert(seq![s[0]].drop_last() =~= Seq::<u8>::empty());
}

/// Different addresses have different texts.
pub proof fn dotted_injective(a: Ipv4Addr, b: Ipv4Addr)
    requires
        dotted(a) == dotted(b),
    ensures
        a == b,
{
    octet_texts_have_no_dot(a);
    octet_texts_have_no_dot(b);
    text::split_of_join(octet_texts(a), '.');
    text::split_of_join(octet_texts(b), '.');
    assert(octet_texts(a) == octet_texts(b));
    let x = octets_of(a);
    let y = octets_of(b);
    bits_of_octets(a.bits);
    bits_of_octets(b.bits);
    assert forall|i: int| 0 <= i < 4 implies x[i] == y[i] by {
        assert(octet_texts(a)[i] == text::decimal(x[i] as nat));
        assert(octet_texts(b)[i] == text::decimal(y[i] as nat));
        text::decimal_injective(x[i] as nat, y[i] as nat);
    }
    assert(x =~= y);
}

/// The text of an address reads back as that address.
pub proof fn dotted_round_trip(ip: Ipv4Addr)
    ensures
        ipv4_of(dotted(ip)) == Some(ip),
{
    let found = choose|other: Ipv4Addr| dotted(other) == dotted(ip);
    dotted_injective(found, ip);
}

/// A text denotes an address exactly if it is the text of that address.
pub proof fn only_texts_of_addresses_are_read(s: Seq<char>, ip: Ipv4Addr)
    ensures
        ipv4_of(s) == Some(ip) <==> s == dotted(ip),
        ipv4_of(s) is None <==> forall|other: Ipv4Addr| #[trigger] dotted(other) != s,
{
    dotted_round_trip(ip);
}

/// The number, from 0 to 255, that a text is the decimal form of.
fn parse_octet(s: &str) -> (r: Option<u8>)
    ensures
        match r {
            Some(v) => text::decimal(v as nat) == s@,
            None => forall|v: u8| text::decimal(v as nat) != s@,
        },
{
    match text::parse_digits(s, 255) {
        Some(v) => {
            if s.unicode_len() > 1 && s.get_char(0) == '0' {
                proof {
                    assert forall|w: u8| text::decimal(w as nat) != s@ by {
                        text::decimal_is_canonical(w as nat);
                    }
                }
                None
            } else {
                proof {
                    text::canonical_is_decimal(s@);
                }
                Some(v as u8)
            }
        },
        None => {
            proof {
                assert forall|w: u8| text::decimal(w as nat) != s@ by {
                    text::decimal_is_canonical(w as nat);
                }
            }
            None
        },
    }
}

impl Ipv4Addr {
    pub fn new(a: u8, b: u8, c: u8, d: u8) -> (r: Self)
        ensures
            octets_of(r) == seq![a, b, c, d],
            r.bits == a * 0x100_0000 + b * 0x1_0000 + c * 0x100 + d,
    {
        let bits: u32 = a as u32 * 0x100_0000 + b as u32 * 0x1_0000 + c as u32 * 0x100 + d as u32;
        proof {
            let s = seq![a, b, c, d];
            bytes::be_value_round_trip(s);
            reveal_with_fuel(bytes::be_value, 5);
            assert(s.drop_last() =~= seq![a, b, c]);
            assert(seq![a, b, c].drop_last() =~= seq![a, b]);
            assert(seq![a, b].drop_last() =~= seq![a]);
            assert(seq![a].drop_last() =~= Seq::<u8>::empty());
            assert(bytes::be_value(s) == bits);
        }
        Ipv4Addr { bits }
    }

    pub fn octets(&self) -> (r: [u8; 4])
        ensures
            r@ == octets_of(*self),
    {
        let v1: u32 = self.bits / 256;
        let v2: u32 = v1 / 256;
        let v3: u32 = v2 / 256;
        let d: u8 = (self.bits % 256) as u8;
        let c: u8 = (v1 % 256) as u8;
        let b: u8 = (v2 % 256) as u8;
        let a: u8 = (v3 % 256) as u8;
        let r: [u8; 4] = [a, b, c, d];
        proof {
            assert(bytes::be_bytes((v3 / 256) as nat, 0) =~= Seq::<u8>::empty());
            assert(bytes::be_bytes(v3 as nat, 1) =~= seq![a]);
            assert(bytes::be_bytes(v2 as nat, 2) =~= seq![a, b]);
            assert(bytes::be_bytes(v1 as nat, 3) =~= seq![a, b, c]);
            assert(bytes::be_bytes(self.bits as nat, 4) =~= seq![a, b, c, d]);
            assert(r@ =~= octets_of(*self));
        }
        r
    }

    /// The address in dotted decimal.
    pub fn to_text(&self) -> (r: String)
        ensures
            r@ == dotted(*self),
    {
        let o = self.octets();
        let mut out = String::new();
        text::push_decimal(&mut out, o[0] as u64);
        out.push('.');
        text::push_decimal(&mut out, o[1] as u64);
        out.push('.');
        text::push_decimal(&mut out, o[2] as u64);
        out.push('.');
        text::push_decimal(&mut out, o[3] as u64);
        proof {
            reveal_with_fuel(text::joined, 5);
            let t = octet_texts(*self);
            assert(t.drop_last() =~= seq![t[0], t[1], t[2]]);
            assert(seq![t[0], t[1], t[2]].drop_last() =~= seq![t[0], t[1]]);
            assert(seq![t[0], t[1]].drop_last() =~= seq![t[0]]);
            assert(out@ =~= dotted(*self));
        }
        out
    }

    /// The address that a text denotes in dotted decimal.
    pub fn parse(s: &str) -> (r: Option<Self>)
        ensures
            r == ipv4_of(s@),
    {
        let parts = text::split(s, '.');
        proof {
            assert forall|ip: Ipv4Addr| dotted(ip) == s@ implies text::texts(parts@) == octet_texts(
                ip,
            ) by {
                octet_texts_have_no_dot(ip);
                text::split_of_join(octet_texts(ip), '.');
            }
        }
        if parts.len() != 4 {
            return None;
        }
        let a = parse_octet(parts[0].as_str());
        let b = parse_octet(parts[1].as_str());
        let c = parse_octet(parts[2].as_str());
        let d = parse_octet(parts[3].as_str());
        let ghost t = text::texts(parts@);
        assert(t[0] == parts@[0]@ && t[1] == parts@[1]@ && t[2] == parts@[2]@ && t[3]
            == parts@[3]@);
        match (a, b, c, d) {
            (Some(a), Some(b), Some(c), Some(d)) => {
                let ip = Ipv4Addr::new(a, b, c, d);
                proof {
                    assert(t =~= octet_texts(ip));
                    text::join_of_split(s@, '.');
                    assert(dotted(ip) == s@);
                    dotted_round_trip(ip);
                }
                Some(ip)
            },
            _ => {
                proof {
                    assert forall|ip: Ipv4Addr| dotted(ip) != s@ by {
                        if dotted(ip) == s@ {
                            assert(t == octet_texts(ip));
                            let o = octets_of(ip);
                            assert(t[0] == text::decimal(o[0] as nat));
                            assert(t[1] == text::decimal(o[1] as nat));
                            assert(t[2] == text::decimal(o[2] as nat));
                            assert(t[3] == text::decimal(o[3] as nat));
                        }
                    }
                }
                None
            },
        }
    }
}

/// An IP address of either family.
#[derive(Clone, Copy, Debug, PartialEq, Eq, Structural)]
pub enum IpAddr {
    V4(Ipv4Addr),
    V6(u128),
}

/// An IP address with a port, and for IPv6 with its flow label and scope.
#[derive(Clone, Copy, Debug, PartialEq, Eq, Structural)]
pub struct SocketAddr {
    pub ip: IpAddr,
    pub port: u16,
    pub flowinfo: u32,
    pub scope_id: u32,
}

/// An address and a port, without flow label and scope.
pub open spec fn endpoint(ip: IpAddr, port: u16) -> SocketAddr {
    SocketAddr { ip, port, flowinfo: 0, scope_id: 0 }
}

impl SocketAddr {
    pub fn new(ip: IpAddr, port: u16) -> (r: Self)
        ensures
            r == endpoint(ip, port),
    {
        SocketAddr { ip, port, flowinfo: 0, scope_id: 0 }
    }

    pub fn ip(&self) -> (r: IpAddr)
        ensures
            r == self.ip,
    {
        self.ip
    }

    pub fn port(&self) -> (r: u16)
        ensures
            r == self.port,
    {
        self.port
    }

    pub fn is_ipv4(&self) -> (r: bool)
        ensures
            r == (self.ip is V4),
    {
        match self.ip {
            IpAddr::V4(_) => true,
            IpAddr::V6(_) => false,
        }
    }
}

/// An endpoint is its address and its port, and nothing more.
pub proof fn what_an_endpoint_is(ip: IpAddr, port: u16)
    ensures
        endpoint(ip, port).ip == ip && endpoint(ip, port).port == port,
        endpoint(ip, port).flowinfo == 0 && endpoint(ip, port).scope_id == 0,
{
}

/// The address of this host that its own programs reach.
pub open spec fn loopback() -> Ipv4Addr {
    Ipv4Addr { bits: 0x7f00_0001 }
}

} // verus!
