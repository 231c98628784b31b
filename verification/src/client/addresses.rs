//! Virtual addresses: which address of the TUN device's subnet each server is reached at.
use crate::client::config::{ServerSection, TunSection};
use crate::failure::{self, Failure};
use crate::net::{self, Ipv4Addr};
use crate::text;
use std::collections::HashSet;
use vstd::arithmetic::power2;
use vstd::prelude::*;

verus! {

broadcast use {vstd::seq_lib::group_seq_properties, vstd::std_specs::hash::group_hash_axioms};

/// The first host number given out in the subnet of virtual addresses.
pub const VIRTUAL_HOST_START: u64 = 10;

/// The TUN device's address and subnet.
#[derive(Clone, Copy, Debug, PartialEq, Eq, Structural)]
pub struct TunConfig {
    pub addr: Ipv4Addr,
    pub prefix: u8,
    pub mtu: u16,
}

/// The outcome of reading the `[tun]` section.
pub open spec fn tun_of(t: TunSection) -> Result<TunConfig, Seq<Seq<char>>> {
    match net::ipv4_of(t.addr@) {
        None => Err(seq![net::no_ipv4(), "[tun] invalid addr "@ + t.addr@]),
        Some(addr) => if t.prefix == 0 || t.prefix > 30 {
            Err(seq!["[tun] prefix must be between 1 and 30"@])
        } else {
            Ok(TunConfig { addr, prefix: t.prefix, mtu: t.mtu })
        },
    }
}

/// Reads the `[tun]` section.
pub fn parse_tun(t: &TunSection) -> (r: Result<TunConfig, Failure>)
    ensures
        failure::outcome(r) == tun_of(*t),
{
    match Ipv4Addr::parse(t.addr.as_str()) {
        None => Err(
            Failure::because(
                "invalid IPv4 address syntax",
                text::concat2("[tun] invalid addr ", t.addr.as_str()),
            ),
        ),
        Some(addr) => {
            if t.prefix == 0 || t.prefix > 30 {
                return Err(Failure::of("[tun] prefix must be between 1 and 30"));
            }
            Ok(TunConfig { addr, prefix: t.prefix, mtu: t.mtu })
        },
    }
}

/// How many addresses a subnet with this prefix has.
pub open spec fn hosts(prefix: u8) -> nat {
    power2::pow2((32 - prefix) as nat)
}

/// The first address of the TUN device's subnet.
pub open spec fn subnet_base(tun: TunConfig) -> nat {
    (tun.addr.bits - tun.addr.bits as nat % hosts(tun.prefix)) as nat
}

/// Whether an address is in the TUN device's subnet.
pub open spec fn in_subnet(tun: TunConfig, ip: Ipv4Addr) -> bool {
    subnet_base(tun) <= ip.bits < subnet_base(tun) + hosts(tun.prefix)
}

/// Whether host number `h` can be given out: it is not the last of the subnet, not the device's own
/// address, and not in use.
pub open spec fn is_free(tun: TunConfig, used: Set<u32>, h: int) -> bool {
    let ip = subnet_base(tun) + h;
    &&& VIRTUAL_HOST_START <= h < hosts(tun.prefix) - 1
    &&& ip != tun.addr.bits
    &&& !used.contains(ip as u32)
}

/// The address with the lowest free host number from `h` on.
pub open spec fn free_from(tun: TunConfig, used: Set<u32>, h: int) -> Option<Ipv4Addr>
    decreases hosts(tun.prefix) - h,
{
    if h >= hosts(tun.prefix) - 1 {
        None
    } else if is_free(tun, used, h) {
        Some(Ipv4Addr { bits: (subnet_base(tun) + h) as u32 })
    } else {
        free_from(tun, used, h + 1)
    }
}

/// The address with the lowest free host number.
pub open spec fn first_free(tun: TunConfig, used: Set<u32>) -> Option<Ipv4Addr> {
    free_from(tun, used, VIRTUAL_HOST_START as int)
}

/// Subnets lie within the address space.
pub proof fn subnet_bounds(tun: TunConfig)
    requires
        1 <= tun.prefix <= 32,
    ensures
        1 <= hosts(tun.prefix) <= 0x8000_0000,
        subnet_base(tun) <= tun.addr.bits < subnet_base(tun) + hosts(tun.prefix),
        subnet_base(tun) + hosts(tun.prefix) <= 0x1_0000_0000,
{
    let n = (32 - tun.prefix) as nat;
    let h = hosts(tun.prefix) as int;
    power2::lemma_pow2_pos(n);
    power2::lemma2_to64();
    if n < 31 {
        power2::lemma_pow2_strictly_increases(n, 31);
    }
    power2::lemma_pow2_adds(n, tun.prefix as nat);
    let p = power2::pow2(tun.prefix as nat) as int;
    assert(h * p == 0x1_0000_0000);
    let a = tun.addr.bits as int;
    vstd::arithmetic::div_mod::lemma_fundamental_div_mod(a, h);
    let q = a / h;
    assert(subnet_base(tun) == h * q);
    assert(q < p) by (nonlinear_arith)
        requires
            h * q <= a,
            a < h * p,
            h > 0,
    ;
    assert(h * q + h <= h * p) by (nonlinear_arith)
        requires
            q < p,
            h > 0,
    ;
}

/// What is given out is free: in the subnet, not the device's own address, not in use, and no lower
/// host number is free; nothing is given out only if no host number is free.
pub proof fn first_free_is_lowest(tun: TunConfig, used: Set<u32>, from: int)
    requires
        1 <= tun.prefix <= 32,
        VIRTUAL_HOST_START <= from,
    ensures
        match free_from(tun, used, from) {
            Some(ip) => exists|h: int|
                from <= h && #[trigger] is_free(tun, used, h) && ip.bits == subnet_base(tun) + h
                    && forall|lower: int|
                    from <= lower < h ==> !#[trigger] is_free(tun, used, lower),
            None => forall|h: int| from <= h ==> !#[trigger] is_free(tun, used, h),
        },
        free_from(tun, used, from) matches Some(ip) ==> in_subnet(tun, ip) && ip != tun.addr
            && !used.contains(ip.bits),
    decreases hosts(tun.prefix) - from,
{
    subnet_bounds(tun);
    if from < hosts(tun.prefix) - 1 {
        if is_free(tun, used, from) {
        } else {
            first_free_is_lowest(tun, used, from + 1);
            if let Some(ip) = free_from(tun, used, from + 1) {
                let h = choose|h: int|
                    from + 1 <= h && #[trigger] is_free(tun, used, h) && ip.bits == subnet_base(tun)
                        + h && forall|lower: int|
                        from + 1 <= lower < h ==> !#[trigger] is_free(tun, used, lower);
                assert forall|lower: int| from <= lower < h implies !#[trigger] is_free(
                    tun,
                    used,
                    lower,
                ) by {
                    if lower == from {
                    }
                }
                assert(is_free(tun, used, h));
            }
        }
    }
}

/// How many addresses a subnet with this prefix has.
fn host_count(prefix: u8) -> (r: u64)
    requires
        1 <= prefix <= 32,
    ensures
        r == hosts(prefix),
        r <= 0x8000_0000,
{
    let mut r: u64 = 1;
    let mut i: u8 = prefix;
    proof {
        power2::lemma2_to64();
    }
    while i < 32
        invariant
            1 <= prefix <= i <= 32,
            r == power2::pow2((i - prefix) as nat),
            r <= 0x8000_0000,
        decreases 32 - i,
    {
        proof {
            power2::lemma_pow2_unfold((i + 1 - prefix) as nat);
            power2::lemma2_to64();
            if i + 1 - prefix < 31 {
                power2::lemma_pow2_strictly_increases((i + 1 - prefix) as nat, 31);
            }
        }
        r = r * 2;
        i = i + 1;
    }
    r
}

/// The address with the lowest free host number.
pub fn assign_virtual_ip(tun: &TunConfig, used: &HashSet<u32>) -> (r: Option<Ipv4Addr>)
    requires
        1 <= tun.prefix <= 32,
    ensures
        r == first_free(*tun, used@),
        r matches Some(ip) ==> in_subnet(*tun, ip) && ip != tun.addr && !used@.contains(ip.bits),
{
    proof {
        subnet_bounds(*tun);
        first_free_is_lowest(*tun, used@, VIRTUAL_HOST_START as int);
    }
    let count: u64 = host_count(tun.prefix);
    proof {
        vstd::arithmetic::div_mod::lemma_mod_decreases(tun.addr.bits as nat, count as nat);
    }
    let base: u64 = tun.addr.bits as u64 - tun.addr.bits as u64 % count;
    let mut h: u64 = VIRTUAL_HOST_START;
    while h < count - 1
        invariant
            1 <= count <= 0x8000_0000,
            count == hosts(tun.prefix),
            base == subnet_base(*tun),
            base + count <= 0x1_0000_0000,
            VIRTUAL_HOST_START <= h,
            first_free(*tun, used@) == free_from(*tun, used@, h as int),
        decreases count - h,
    {
        let cand: u32 = (base + h) as u32;
        if cand != tun.addr.bits && !used.contains(&cand) {
            assert(is_free(*tun, used@, h as int));
            return Some(Ipv4Addr { bits: cand });
        }
        assert(!is_free(*tun, used@, h as int));
        h = h + 1;
    }
    None
}

/// The addresses that the sections ask for, read in order: the first text that is no address, or
/// address that was asked for before, is a failure.
pub open spec fn asked_for(servers: Seq<ServerSection>) -> Result<Set<u32>, Seq<Seq<char>>>
    decreases servers.len(),
{
    if servers.len() == 0 {
        Ok(Set::empty())
    } else {
        match asked_for(servers.drop_last()) {
            Err(e) => Err(e),
            Ok(used) => match servers.last().virtual_ip {
                None => Ok(used),
                Some(vip) => match net::ipv4_of(vip@) {
                    None => Err(
                        seq![
                            net::no_ipv4(),
                            "server "@ + servers.last().name@ + ": invalid virtual_ip "@ + vip@,
                        ],
                    ),
                    Some(ip) => if used.contains(ip.bits) {
                        Err(seq!["duplicate virtual_ip "@ + net::dotted(ip)])
                    } else {
                        Ok(used.insert(ip.bits))
                    },
                },
            },
        }
    }
}

/// The addresses given out in order, with the addresses then in use: what was asked for, and the
/// lowest free one where nothing was.
pub open spec fn given_out(tun: TunConfig, servers: Seq<ServerSection>, asked: Set<u32>) -> Result<
    (Seq<Ipv4Addr>, Set<u32>),
    Seq<Seq<char>>,
>
    decreases servers.len(),
{
    if servers.len() == 0 {
        Ok((Seq::empty(), asked))
    } else {
        match given_out(tun, servers.drop_last(), asked) {
            Err(e) => Err(e),
            Ok((ips, used)) => match servers.last().virtual_ip {
                Some(vip) => Ok((ips.push(net::ipv4_of(vip@)->0), used)),
                None => match first_free(tun, used) {
                    None => Err(seq!["no free virtual IP left in the tun subnet"@]),
                    Some(ip) => Ok((ips.push(ip), used.insert(ip.bits))),
                },
            },
        }
    }
}

/// The virtual address of every server.
pub open spec fn virtual_ips(tun: TunConfig, servers: Seq<ServerSection>) -> Result<
    Seq<Ipv4Addr>,
    Seq<Seq<char>>,
> {
    match asked_for(servers) {
        Err(e) => Err(e),
        Ok(asked) => match given_out(tun, servers, asked) {
            Err(e) => Err(e),
            Ok((ips, used)) => Ok(ips),
        },
    }
}

proof fn asked_for_fails_early(servers: Seq<ServerSection>, i: int)
    requires
        0 <= i <= servers.len(),
        asked_for(servers.take(i)) is Err,
    ensures
        asked_for(servers) == asked_for(servers.take(i)),
    decreases servers.len() - i,
{
    if i < servers.len() {
        assert(servers.take(i + 1).drop_last() =~= servers.take(i));
        asked_for_fails_early(servers, i + 1);
    } else {
        assert(servers.take(i) =~= servers);
    }
}

proof fn given_out_fails_early(tun: TunConfig, servers: Seq<ServerSection>, asked: Set<u32>, i: int)
    requires
        0 <= i <= servers.len(),
        given_out(tun, servers.take(i), asked) is Err,
    ensures
        given_out(tun, servers, asked) == given_out(tun, servers.take(i), asked),
    decreases servers.len() - i,
{
    if i < servers.len() {
        assert(servers.take(i + 1).drop_last() =~= servers.take(i));
        given_out_fails_early(tun, servers, asked, i + 1);
    } else {
        assert(servers.take(i) =~= servers);
    }
}

/// What was asked for can be read, and is in the set, each address once.
proof fn asked_for_members(servers: Seq<ServerSection>)
    requires
        asked_for(servers) is Ok,
    ensures
        forall|i: int|
            0 <= i < servers.len() && (#[trigger] servers[i]).virtual_ip is Some ==> net::ipv4_of(
                servers[i].virtual_ip->0@,
            ) is Some && asked_for(servers)->Ok_0.contains(
                net::ipv4_of(servers[i].virtual_ip->0@)->0.bits,
            ),
        forall|i: int, j: int|
            0 <= i < j < servers.len() && (#[trigger] servers[i]).virtual_ip is Some && (
            #[trigger] servers[j]).virtual_ip is Some ==> net::ipv4_of(servers[i].virtual_ip->0@)
                != net::ipv4_of(servers[j].virtual_ip->0@),
    decreases servers.len(),
{
    if servers.len() > 0 {
        let rest = servers.drop_last();
        asked_for_members(rest);
        assert forall|i: int|
            0 <= i < servers.len() && (
            #[trigger] servers[i]).virtual_ip is Some implies net::ipv4_of(
            servers[i].virtual_ip->0@,
        ) is Some && asked_for(servers)->Ok_0.contains(
            net::ipv4_of(servers[i].virtual_ip->0@)->0.bits,
        ) by {
            if i < rest.len() {
                assert(rest[i] == servers[i]);
            }
        }
        assert forall|i: int, j: int|
            0 <= i < j < servers.len() && (#[trigger] servers[i]).virtual_ip is Some && (
            #[trigger] servers[j]).virtual_ip is Some implies net::ipv4_of(
            servers[i].virtual_ip->0@,
        ) != net::ipv4_of(servers[j].virtual_ip->0@) by {
            assert(rest[i] == servers[i]);
            if j < rest.len() {
                assert(rest[j] == servers[j]);
            }
        }
    }
}

/// What has been given out of `servers`, which begin `all`, with every address of `all` that was
/// asked for in use from the start.
proof fn given_out_members(
    tun: TunConfig,
    all: Seq<ServerSection>,
    servers: Seq<ServerSection>,
    asked: Set<u32>,
)
    requires
        1 <= tun.prefix <= 32,
        asked_for(all) == Ok::<Set<u32>, Seq<Seq<char>>>(asked),
        servers.len() <= all.len(),
        servers == all.take(servers.len() as int),
        given_out(tun, servers, asked) is Ok,
    ensures
        ({
            let (ips, used) = given_out(tun, servers, asked)->Ok_0;
            &&& ips.len() == servers.len()
            &&& forall|i: int|
                0 <= i < ips.len() && (#[trigger] servers[i]).virtual_ip is Some ==> net::ipv4_of(
                    servers[i].virtual_ip->0@,
                ) == Some(ips[i])
            &&& forall|i: int|
                0 <= i < ips.len() && (#[trigger] servers[i]).virtual_ip is None ==> in_subnet(
                    tun,
                    ips[i],
                ) && ips[i] != tun.addr && !asked.contains(ips[i].bits)
            &&& forall|i: int| 0 <= i < ips.len() ==> used.contains((#[trigger] ips[i]).bits)
            &&& forall|x: u32| asked.contains(x) ==> used.contains(x)
            &&& forall|i: int, j: int|
                0 <= i < j < ips.len() ==> #[trigger] ips[i] != #[trigger] ips[j]
        }),
    decreases servers.len(),
{
    asked_for_members(all);
    if servers.len() > 0 {
        let rest = servers.drop_last();
        assert(rest =~= all.take(rest.len() as int));
        given_out_members(tun, all, rest, asked);
        let (before, used_before) = given_out(tun, rest, asked)->Ok_0;
        let (ips, used) = given_out(tun, servers, asked)->Ok_0;
        let n = rest.len() as int;
        assert(servers[n] == all[n]);
        first_free_is_lowest(tun, used_before, VIRTUAL_HOST_START as int);
        assert forall|i: int|
            0 <= i < ips.len() && (
            #[trigger] servers[i]).virtual_ip is Some implies net::ipv4_of(
            servers[i].virtual_ip->0@,
        ) == Some(ips[i]) by {
            if i < n {
                assert(rest[i] == servers[i]);
            }
        }
        assert forall|i: int|
            0 <= i < ips.len() && (#[trigger] servers[i]).virtual_ip is None implies in_subnet(
            tun,
            ips[i],
        ) && ips[i] != tun.addr && !asked.contains(ips[i].bits) by {
            if i < n {
                assert(rest[i] == servers[i]);
            }
        }
        assert forall|i: int, j: int| 0 <= i < j < ips.len() implies #[trigger] ips[i]
            != #[trigger] ips[j] by {
            assert(ips[i] == before[i]);
            if j < n {
                assert(ips[j] == before[j]);
            } else if servers[n].virtual_ip is Some {
                assert(rest[i] == servers[i]);
                assert(all[i] == servers[i]);
                if servers[i].virtual_ip is Some {
                    assert(net::ipv4_of(all[i].virtual_ip->0@) != net::ipv4_of(
                        all[n].virtual_ip->0@,
                    ));
                }
            } else {
                assert(used_before.contains(before[i].bits));
            }
        }
        assert forall|i: int| 0 <= i < ips.len() implies used.contains(
            (#[trigger] ips[i]).bits,
        ) by {
            if i < n {
                assert(ips[i] == before[i]);
            }
        }
    }
}

/// No two servers share a virtual address. A server has the address that its section asks for; one
/// that asks for none has an address of the TUN device's subnet that is not the device's own and
/// that no section asks for.
pub proof fn virtual_ips_are_distinct(tun: TunConfig, servers: Seq<ServerSection>)
    requires
        1 <= tun.prefix <= 32,
        virtual_ips(tun, servers) is Ok,
    ensures
        ({
            let ips = virtual_ips(tun, servers)->Ok_0;
            &&& ips.len() == servers.len()
            &&& forall|i: int, j: int|
                0 <= i < j < ips.len() ==> #[trigger] ips[i] != #[trigger] ips[j]
            &&& forall|i: int|
                0 <= i < ips.len() && (#[trigger] servers[i]).virtual_ip is Some ==> net::ipv4_of(
                    servers[i].virtual_ip->0@,
                ) == Some(ips[i])
            &&& forall|i: int|
                0 <= i < ips.len() && (#[trigger] servers[i]).virtual_ip is None ==> in_subnet(
                    tun,
                    ips[i],
                ) && ips[i] != tun.addr
        }),
{
    assert(servers.take(servers.len() as int) =~= servers);
    given_out_members(tun, servers, servers, asked_for(servers)->Ok_0);
}

/// The virtual address of every server.
pub fn resolve_virtual_ips(tun: &TunConfig, servers: &[ServerSection]) -> (r: Result<
    Vec<Ipv4Addr>,
    Failure,
>)
    requires
        1 <= tun.prefix <= 32,
    ensures
        match r {
            Ok(ips) => virtual_ips(*tun, servers@) == Ok::<Seq<Ipv4Addr>, Seq<Seq<char>>>(ips@)
                && ips@.len() == servers@.len(),
            Err(e) => virtual_ips(*tun, servers@) == Err::<Seq<Ipv4Addr>, Seq<Seq<char>>>(e@),
        },
{
    let mut used: HashSet<u32> = HashSet::new();
    let mut i: usize = 0;
    assert(servers@.take(0) =~= Seq::<ServerSection>::empty());
    while i < servers.len()
        invariant
            i <= servers@.len(),
            asked_for(servers@.take(i as int)) == Ok::<Set<u32>, Seq<Seq<char>>>(used@),
        decreases servers@.len() - i,
    {
        let s = &servers[i];
        assert(servers@.take(i + 1).drop_last() =~= servers@.take(i as int));
        if let Some(vip) = &s.virtual_ip {
            match Ipv4Addr::parse(vip.as_str()) {
                None => {
                    proof {
                        asked_for_fails_early(servers@, i + 1);
                    }
                    return Err(
                        Failure::because(
                            "invalid IPv4 address syntax",
                            text::concat4(
                                "server ",
                                s.name.as_str(),
                                ": invalid virtual_ip ",
                                vip.as_str(),
                            ),
                        ),
                    );
                },
                Some(ip) => {
                    if used.contains(&ip.bits) {
                        proof {
                            asked_for_fails_early(servers@, i + 1);
                        }
                        let t = ip.to_text();
                        return Err(
                            Failure::new(text::concat2("duplicate virtual_ip ", t.as_str())),
                        );
                    }
                    used.insert(ip.bits);
                },
            }
        }
        i = i + 1;
    }
    assert(servers@.take(servers@.len() as int) =~= servers@);
    let ghost asked = used@;
    proof {
        asked_for_members(servers@);
    }
    let mut out: Vec<Ipv4Addr> = Vec::new();
    let mut j: usize = 0;
    while j < servers.len()
        invariant
            1 <= tun.prefix <= 32,
            j <= servers@.len(),
            out@.len() == j,
            asked_for(servers@) == Ok::<Set<u32>, Seq<Seq<char>>>(asked),
            given_out(*tun, servers@.take(j as int), asked) == Ok::<
                (Seq<Ipv4Addr>, Set<u32>),
                Seq<Seq<char>>,
            >((out@, used@)),
            forall|i: int|
                0 <= i < servers@.len() && (
                #[trigger] servers@[i]).virtual_ip is Some ==> net::ipv4_of(
                    servers@[i].virtual_ip->0@,
                ) is Some,
        decreases servers@.len() - j,
    {
        let s = &servers[j];
        assert(servers@.take(j + 1).drop_last() =~= servers@.take(j as int));
        match &s.virtual_ip {
            Some(vip) => {
                match Ipv4Addr::parse(vip.as_str()) {
                    Some(ip) => {
                        out.push(ip);
                    },
                    None => {
                        assert(net::ipv4_of(servers@[j as int].virtual_ip->0@) is Some);
                        assert(false);
                    },
                }
            },
            None => {
                match assign_virtual_ip(tun, &used) {
                    None => {
                        proof {
                            given_out_fails_early(*tun, servers@, asked, j + 1);
                        }
                        return Err(Failure::of("no free virtual IP left in the tun subnet"));
                    },
                    Some(ip) => {
                        used.insert(ip.bits);
                        out.push(ip);
                    },
                }
            },
        }
        j = j + 1;
    }
    assert(servers@.take(servers@.len() as int) =~= servers@);
    Ok(out)
}

/// The addresses that the sections ask for, texts that are no address left out.
pub open spec fn readable_ips(servers: Seq<ServerSection>) -> Set<u32>
    decreases servers.len(),
{
    if servers.len() == 0 {
        Set::empty()
    } else {
        let before = readable_ips(servers.drop_last());
        match servers.last().virtual_ip {
            Some(vip) => match net::ipv4_of(vip@) {
                Some(ip) => before.insert(ip.bits),
                None => before,
            },
            None => before,
        }
    }
}

/// What the sections ask for, where all of it can be read.
proof fn asked_for_is_readable(servers: Seq<ServerSection>)
    requires
        asked_for(servers) is Ok,
    ensures
        asked_for(servers) == Ok::<Set<u32>, Seq<Seq<char>>>(readable_ips(servers)),
    decreases servers.len(),
{
    if servers.len() > 0 {
        asked_for_is_readable(servers.drop_last());
    }
}

/// Where every section asks for an address, what is given out does not depend on what is in use.
proof fn given_out_as_asked(
    tun: TunConfig,
    servers: Seq<ServerSection>,
    asked: Set<u32>,
    other: Set<u32>,
)
    requires
        forall|i: int| 0 <= i < servers.len() ==> (#[trigger] servers[i]).virtual_ip is Some,
    ensures
        given_out(tun, servers, asked) matches Ok((ips, used)) && given_out(tun, servers, other)
            == Ok::<(Seq<Ipv4Addr>, Set<u32>), Seq<Seq<char>>>((ips, other)),
    decreases servers.len(),
{
    if servers.len() > 0 {
        let rest = servers.drop_last();
        assert forall|i: int| 0 <= i < rest.len() implies (
        #[trigger] rest[i]).virtual_ip is Some by {
            assert(rest[i] == servers[i]);
        }
        given_out_as_asked(tun, rest, asked, other);
        assert(servers[servers.len() - 1].virtual_ip is Some);
    }
}

/// The numbers of addresses.
pub open spec fn bits_of(ips: Seq<Ipv4Addr>) -> Set<u32> {
    ips.map_values(|ip: Ipv4Addr| ip.bits).to_set()
}

/// The addresses that a new server must not have: those of the servers, where they can be resolved,
/// and else those that the sections ask for.
pub open spec fn used_ips(tun: TunConfig, servers: Seq<ServerSection>) -> Set<u32> {
    match virtual_ips(tun, servers) {
        Ok(ips) => bits_of(ips),
        Err(_) => readable_ips(servers),
    }
}

/// What the sections ask for is what those sections are given.
proof fn readable_is_given(tun: TunConfig, servers: Seq<ServerSection>, ips: Seq<Ipv4Addr>, x: u32)
    requires
        1 <= tun.prefix <= 32,
        virtual_ips(tun, servers) == Ok::<Seq<Ipv4Addr>, Seq<Seq<char>>>(ips),
        readable_ips(servers).contains(x),
    ensures
        bits_of(ips).contains(x),
{
    virtual_ips_are_distinct(tun, servers);
    readable_is_asked(servers, x);
    let i = choose|i: int|
        0 <= i < servers.len() && (#[trigger] servers[i]).virtual_ip is Some && net::ipv4_of(
            servers[i].virtual_ip->0@,
        ) == Some(Ipv4Addr { bits: x });
    given_bits(ips, i);
}

proof fn readable_is_asked(servers: Seq<ServerSection>, x: u32)
    requires
        readable_ips(servers).contains(x),
    ensures
        exists|i: int|
            0 <= i < servers.len() && (#[trigger] servers[i]).virtual_ip is Some && net::ipv4_of(
                servers[i].virtual_ip->0@,
            ) == Some(Ipv4Addr { bits: x }),
    decreases servers.len(),
{
    let rest = servers.drop_last();
    if readable_ips(rest).contains(x) {
        readable_is_asked(rest, x);
        let i = choose|i: int|
            0 <= i < rest.len() && (#[trigger] rest[i]).virtual_ip is Some && net::ipv4_of(
                rest[i].virtual_ip->0@,
            ) == Some(Ipv4Addr { bits: x });
        assert(servers[i] == rest[i]);
    } else {
        assert(servers[servers.len() - 1].virtual_ip is Some);
    }
}

proof fn given_bits(ips: Seq<Ipv4Addr>, i: int)
    requires
        0 <= i < ips.len(),
    ensures
        bits_of(ips).contains(ips[i].bits),
{
    let b = ips.map_values(|ip: Ipv4Addr| ip.bits);
    assert(b[i] == ips[i].bits);
}

/// An address more in use makes no difference to the lowest free one, unless it was that one.
proof fn free_without(tun: TunConfig, used: Set<u32>, x: u32, h: int)
    ensures
        free_from(tun, used, h) matches Some(ip) && ip.bits != x ==> free_from(
            tun,
            used.insert(x),
            h,
        ) == free_from(tun, used, h),
        free_from(tun, used.insert(x), h) matches Some(ip) ==> (free_from(
            tun,
            used,
            h,
        ) matches Some(lower) && (lower == ip || lower.bits == x)),
    decreases hosts(tun.prefix) - h,
{
    if h < hosts(tun.prefix) - 1 {
        free_without(tun, used, x, h + 1);
    }
}

/// What is given out stays as it is when an address that was not given out is in use too.
proof fn given_out_without(tun: TunConfig, servers: Seq<ServerSection>, asked: Set<u32>, x: u32)
    requires
        given_out(tun, servers, asked) matches Ok((ips, used)) && !bits_of(ips).contains(x),
    ensures
        given_out(tun, servers, asked.insert(x)) == Ok::<
            (Seq<Ipv4Addr>, Set<u32>),
            Seq<Seq<char>>,
        >(
            (
                given_out(tun, servers, asked)->Ok_0.0,
                given_out(tun, servers, asked)->Ok_0.1.insert(x),
            ),
        ),
    decreases servers.len(),
{
    if servers.len() > 0 {
        let rest = servers.drop_last();
        let (ips, used) = given_out(tun, servers, asked)->Ok_0;
        let (before, used_before) = given_out(tun, rest, asked)->Ok_0;
        assert(ips.drop_last() =~= before);
        if bits_of(before).contains(x) {
            let b = before.map_values(|ip: Ipv4Addr| ip.bits);
            let i = choose|i: int| 0 <= i < b.len() && b[i] == x;
            given_bits(ips, i);
            assert(ips[i] == before[i]);
        }
        given_out_without(tun, rest, asked, x);
        given_bits(ips, ips.len() - 1);
        free_without(tun, used_before, x, VIRTUAL_HOST_START as int);
        if servers.last().virtual_ip is None {
            let ip = first_free(tun, used_before)->0;
            assert(used_before.insert(x).insert(ip.bits) =~= used_before.insert(ip.bits).insert(x));
        }
    }
}

/// If addresses can be given out with one more in use, they can be given out without.
proof fn given_out_with_less(tun: TunConfig, servers: Seq<ServerSection>, asked: Set<u32>, x: u32)
    requires
        given_out(tun, servers, asked.insert(x)) is Ok,
    ensures
        given_out(tun, servers, asked) is Ok,
        exists|y: u32| #[trigger]
            given_out(tun, servers, asked)->Ok_0.1.insert(y) == given_out(
                tun,
                servers,
                asked.insert(x),
            )->Ok_0.1,
    decreases servers.len(),
{
    if servers.len() == 0 {
        assert(given_out(tun, servers, asked)->Ok_0.1.insert(x) == given_out(
            tun,
            servers,
            asked.insert(x),
        )->Ok_0.1);
    } else {
        let rest = servers.drop_last();
        given_out_with_less(tun, rest, asked, x);
        let less = given_out(tun, rest, asked)->Ok_0.1;
        let more = given_out(tun, rest, asked.insert(x))->Ok_0.1;
        let y = choose|y: u32| #[trigger] less.insert(y) == more;
        let all_less = given_out(tun, servers, asked);
        let all_more = given_out(tun, servers, asked.insert(x));
        if servers.last().virtual_ip is None {
            free_without(tun, less, y, VIRTUAL_HOST_START as int);
            let z = first_free(tun, more)->0;
            let w = first_free(tun, less)->0;
            if w == z {
                assert(all_less->Ok_0.1.insert(y) =~= all_more->Ok_0.1);
            } else {
                assert(all_less->Ok_0.1.insert(z.bits) =~= all_more->Ok_0.1);
            }
        } else {
            assert(all_less->Ok_0.1.insert(y) == all_more->Ok_0.1);
        }
    }
}

/// Virtual addresses are stable: adding a server under an address that no other one has changes
/// none of the others, and the new one has the address that it was added under.
pub proof fn addresses_are_stable(
    tun: TunConfig,
    servers: Seq<ServerSection>,
    s: ServerSection,
    ip: Ipv4Addr,
)
    requires
        1 <= tun.prefix <= 32,
        virtual_ips(tun, servers) is Ok,
        s.virtual_ip matches Some(vip) && vip@ == net::dotted(ip),
        !used_ips(tun, servers).contains(ip.bits),
    ensures
        virtual_ips(tun, servers.push(s)) == Ok::<Seq<Ipv4Addr>, Seq<Seq<char>>>(
            virtual_ips(tun, servers)->Ok_0.push(ip),
        ),
{
    let all = servers.push(s);
    assert(all.drop_last() =~= servers);
    net::dotted_round_trip(ip);
    asked_for_is_readable(servers);
    let ips = virtual_ips(tun, servers)->Ok_0;
    if readable_ips(servers).contains(ip.bits) {
        readable_is_given(tun, servers, ips, ip.bits);
    }
    given_out_without(tun, servers, asked_for(servers)->Ok_0, ip.bits);
}

/// Where the addresses of servers cannot be resolved, another server with an address that no
/// section asks for does not change that.
pub proof fn failure_is_stable(
    tun: TunConfig,
    servers: Seq<ServerSection>,
    s: ServerSection,
    ip: Ipv4Addr,
)
    requires
        virtual_ips(tun, servers) is Err,
        s.virtual_ip matches Some(vip) && vip@ == net::dotted(ip),
        !readable_ips(servers).contains(ip.bits),
    ensures
        virtual_ips(tun, servers.push(s)) is Err,
{
    let all = servers.push(s);
    assert(all.drop_last() =~= servers);
    net::dotted_round_trip(ip);
    if asked_for(servers) is Ok {
        let asked = asked_for(servers)->Ok_0;
        asked_for_is_readable(servers);
        if given_out(tun, servers, asked.insert(ip.bits)) is Ok {
            given_out_with_less(tun, servers, asked, ip.bits);
        }
    }
}

/// Where every server has an address of its own written down, those are their addresses.
pub proof fn written_down_is_given(tun: TunConfig, servers: Seq<ServerSection>, ips: Seq<Ipv4Addr>)
    requires
        1 <= tun.prefix <= 32,
        ips.len() == servers.len(),
        forall|i: int|
            0 <= i < servers.len() ==> (#[trigger] servers[i]).virtual_ip is Some && net::ipv4_of(
                servers[i].virtual_ip->0@,
            ) == Some(ips[i]),
        forall|i: int, j: int| 0 <= i < j < ips.len() ==> #[trigger] ips[i] != #[trigger] ips[j],
    ensures
        virtual_ips(tun, servers) == Ok::<Seq<Ipv4Addr>, Seq<Seq<char>>>(ips),
{
    written_down_is_asked(servers, ips);
    let asked = asked_for(servers)->Ok_0;
    given_out_as_asked(tun, servers, asked, asked);
    virtual_ips_are_distinct(tun, servers);
    let given = virtual_ips(tun, servers)->Ok_0;
    assert forall|i: int| 0 <= i < ips.len() implies given[i] == ips[i] by {
        assert(servers[i].virtual_ip is Some);
    }
    assert(given =~= ips);
}

proof fn written_down_is_asked(servers: Seq<ServerSection>, ips: Seq<Ipv4Addr>)
    requires
        ips.len() == servers.len(),
        forall|i: int|
            0 <= i < servers.len() ==> (#[trigger] servers[i]).virtual_ip is Some && net::ipv4_of(
                servers[i].virtual_ip->0@,
            ) == Some(ips[i]),
        forall|i: int, j: int| 0 <= i < j < ips.len() ==> #[trigger] ips[i] != #[trigger] ips[j],
    ensures
        asked_for(servers) is Ok,
    decreases servers.len(),
{
    if servers.len() > 0 {
        let rest = servers.drop_last();
        let before = ips.drop_last();
        assert forall|i: int| 0 <= i < rest.len() implies (
        #[trigger] rest[i]).virtual_ip is Some && net::ipv4_of(rest[i].virtual_ip->0@) == Some(
            before[i],
        ) by {
            assert(rest[i] == servers[i]);
        }
        written_down_is_asked(rest, before);
        asked_for_is_readable(rest);
        let n = rest.len() as int;
        let x = ips[n].bits;
        assert(servers[n].virtual_ip is Some);
        if readable_ips(rest).contains(x) {
            readable_is_asked(rest, x);
            let i = choose|i: int|
                0 <= i < rest.len() && (#[trigger] rest[i]).virtual_ip is Some && net::ipv4_of(
                    rest[i].virtual_ip->0@,
                ) == Some(Ipv4Addr { bits: x });
            assert(ips[i] == before[i]);
            assert(ips[i] != ips[n]);
        }
    }
}

/// The `[tun]` section is read exactly if its address is one in dotted decimal and its prefix is from
/// 1 to 30, and it is read as what it says.
pub proof fn tun_section_is_read(t: TunSection, ip: Ipv4Addr)
    ensures
        t.addr@ == net::dotted(ip) && 1 <= t.prefix <= 30 ==> tun_of(t) == Ok::<
            TunConfig,
            Seq<Seq<char>>,
        >(TunConfig { addr: ip, prefix: t.prefix, mtu: t.mtu }),
        tun_of(t) matches Ok(c) ==> t.addr@ == net::dotted(c.addr) && c.prefix == t.prefix && c.mtu
            == t.mtu && 1 <= c.prefix <= 30,
{
    net::dotted_round_trip(ip);
    if let Some(addr) = net::ipv4_of(t.addr@) {
        net::only_texts_of_addresses_are_read(t.addr@, addr);
    }
}

/// The first address of the subnet.
proof fn subnet_starts_at(tun: TunConfig)
    requires
        1 <= tun.prefix <= 32,
    ensures
        subnet_base(tun) == tun.addr.bits - tun.addr.bits as int % power2::pow2(
            (32 - tun.prefix) as nat,
        ) as int,
{
    power2::lemma_pow2_pos((32 - tun.prefix) as nat);
    vstd::arithmetic::div_mod::lemma_mod_decreases(
        tun.addr.bits as nat,
        power2::pow2((32 - tun.prefix) as nat),
    );
}

/// The address that is given out is the lowest one that can be: from the tenth of the subnet on, not
/// the last of it, not the device's own, and not in use. None is given out only if there is none.
pub proof fn the_lowest_address_is_given_out(tun: TunConfig, used: Set<u32>, x: u32)
    requires
        1 <= tun.prefix <= 32,
    ensures
        ({
            let size = power2::pow2((32 - tun.prefix) as nat);
            let base = tun.addr.bits - tun.addr.bits as int % size as int;
            let can_be = |y: u32|
                base + 10 <= y < base + size - 1 && y != tun.addr.bits && !used.contains(y);
            match first_free(tun, used) {
                Some(ip) => can_be(ip.bits) && (can_be(x) ==> ip.bits <= x),
                None => !can_be(x),
            }
        }),
{
    subnet_bounds(tun);
    first_free_is_lowest(tun, used, VIRTUAL_HOST_START as int);
    subnet_starts_at(tun);
    let h = x - subnet_base(tun);
    if let Some(ip) = first_free(tun, used) {
        let k = choose|k: int|
            VIRTUAL_HOST_START <= k && #[trigger] is_free(tun, used, k) && ip.bits == subnet_base(
                tun,
            ) + k && forall|lower: int|
                VIRTUAL_HOST_START <= lower < k ==> !#[trigger] is_free(tun, used, lower);
        assert(is_free(tun, used, k));
    }
    if VIRTUAL_HOST_START <= h < hosts(tun.prefix) - 1 && x != tun.addr.bits && !used.contains(x) {
        assert(is_free(tun, used, h));
    }
}

/// What has been given out of the first `i` servers, as part of what is given out of all.
proof fn given_out_so_far(tun: TunConfig, servers: Seq<ServerSection>, asked: Set<u32>, i: int)
    requires
        given_out(tun, servers, asked) is Ok,
        0 <= i <= servers.len(),
    ensures
        ({
            let (ips, used) = given_out(tun, servers, asked)->Ok_0;
            &&& ips.len() == servers.len()
            &&& given_out(tun, servers.take(i), asked) matches Ok((before, in_use)) && before
                == ips.take(i) && (i < servers.len() && servers[i].virtual_ip is None
                ==> first_free(tun, in_use) == Some(ips[i]))
        }),
    decreases servers.len(),
{
    if i == servers.len() {
        assert(servers.take(i) =~= servers);
        if i > 0 {
            given_out_so_far(tun, servers.drop_last(), asked, i - 1);
        }
        let ips = given_out(tun, servers, asked)->Ok_0.0;
        assert(ips.take(i) =~= ips);
    } else {
        let rest = servers.drop_last();
        given_out_so_far(tun, rest, asked, i);
        assert(rest.take(i) =~= servers.take(i));
        let ips = given_out(tun, servers, asked)->Ok_0.0;
        let before = given_out(tun, rest, asked)->Ok_0.0;
        assert(ips.take(i) =~= before.take(i));
        if i == rest.len() {
            assert(servers.take(i) =~= rest);
        }
    }
}

/// What is in use is what was asked for and what has been given out.
proof fn in_use_for_a_reason(tun: TunConfig, servers: Seq<ServerSection>, asked: Set<u32>, x: u32)
    requires
        given_out(tun, servers, asked) matches Ok((ips, used)) && used.contains(x),
    ensures
        asked.contains(x) || exists|j: int|
            0 <= j < servers.len() && j < given_out(tun, servers, asked)->Ok_0.0.len() && (
            #[trigger] given_out(tun, servers, asked)->Ok_0.0[j]).bits == x,
    decreases servers.len(),
{
    if servers.len() > 0 {
        let rest = servers.drop_last();
        let (ips, used) = given_out(tun, servers, asked)->Ok_0;
        let (before, used_before) = given_out(tun, rest, asked)->Ok_0;
        given_out_so_far(tun, servers, asked, servers.len() as int);
        given_out_so_far(tun, rest, asked, rest.len() as int);
        if used_before.contains(x) {
            in_use_for_a_reason(tun, rest, asked, x);
            if !asked.contains(x) {
                let j = choose|j: int|
                    0 <= j < rest.len() && j < before.len() && (#[trigger] before[j]).bits == x;
                assert(ips[j] == before[j]);
            }
        } else {
            assert(ips[ips.len() - 1].bits == x);
        }
    }
}

/// A server that asks for no address has the lowest one that is left to it: every lower one, from the
/// tenth of the subnet on, is the device's own, or a section asks for it, or a server before it has
/// it.
pub proof fn lower_addresses_are_taken(
    tun: TunConfig,
    servers: Seq<ServerSection>,
    ips: Seq<Ipv4Addr>,
    i: int,
    x: u32,
)
    requires
        1 <= tun.prefix <= 32,
        virtual_ips(tun, servers) == Ok::<Seq<Ipv4Addr>, Seq<Seq<char>>>(ips),
        0 <= i < servers.len(),
        servers[i].virtual_ip is None,
        tun.addr.bits - tun.addr.bits as int % power2::pow2((32 - tun.prefix) as nat) as int + 10
            <= x < ips[i].bits,
    ensures
        x == tun.addr.bits || (exists|j: int|
            0 <= j < servers.len() && (#[trigger] servers[j]).virtual_ip is Some
                && servers[j].virtual_ip->0@ == net::dotted(Ipv4Addr { bits: x })) || (exists|
            j: int,
        |
            0 <= j < i && (#[trigger] ips[j]).bits == x),
{
    let asked = asked_for(servers)->Ok_0;
    asked_for_is_readable(servers);
    given_out_so_far(tun, servers, asked, i);
    let (before, in_use) = given_out(tun, servers.take(i), asked)->Ok_0;
    the_lowest_address_is_given_out(tun, in_use, x);
    if x != tun.addr.bits {
        in_use_for_a_reason(tun, servers.take(i), asked, x);
        if asked.contains(x) {
            readable_is_asked(servers, x);
            let j = choose|j: int|
                0 <= j < servers.len() && (#[trigger] servers[j]).virtual_ip is Some
                    && net::ipv4_of(servers[j].virtual_ip->0@) == Some(Ipv4Addr { bits: x });
            net::only_texts_of_addresses_are_read(
                servers[j].virtual_ip->0@,
                Ipv4Addr { bits: x },
            );
            assert(servers[j].virtual_ip is Some);
        } else {
            let j = choose|j: int|
                0 <= j < i && j < before.len() && (#[trigger] before[j]).bits == x;
            assert(ips[j] == before[j]);
        }
    }
}

/// How many sections ask for an address.
spec fn asking(servers: Seq<ServerSection>) -> nat
    decreases servers.len(),
{
    if servers.len() == 0 {
        0
    } else {
        asking(servers.drop_last()) + if servers.last().virtual_ip is Some {
            1nat
        } else {
            0nat
        }
    }
}

proof fn asking_is_bounded(servers: Seq<ServerSection>, i: int)
    requires
        0 <= i <= servers.len(),
    ensures
        asking(servers.take(i)) <= i,
        asking(servers) <= asking(servers.take(i)) + (servers.len() - i),
        i < servers.len() && servers[i].virtual_ip is None ==> asking(servers) <= asking(
            servers.take(i),
        ) + (servers.len() - i) - 1,
    decreases servers.len(),
{
    if i == servers.len() {
        assert(servers.take(i) =~= servers);
        if i > 0 {
            asking_is_bounded(servers.drop_last(), i - 1);
            let rest = servers.drop_last();
            assert(rest.take(i - 1) =~= rest);
        }
    } else {
        let rest = servers.drop_last();
        asking_is_bounded(rest, i);
        assert(rest.take(i) =~= servers.take(i));
        if i < rest.len() {
            assert(rest[i] == servers[i]);
        } else {
            assert(servers.take(i) =~= rest);
        }
    }
}

/// What was asked for is no more than the sections that ask.
proof fn asked_for_in_full(servers: Seq<ServerSection>)
    requires
        forall|i: int|
            0 <= i < servers.len() && (#[trigger] servers[i]).virtual_ip is Some ==> net::ipv4_of(
                servers[i].virtual_ip->0@,
            ) is Some,
        forall|i: int, j: int|
            0 <= i < j < servers.len() && (#[trigger] servers[i]).virtual_ip is Some && (
            #[trigger] servers[j]).virtual_ip is Some ==> net::ipv4_of(servers[i].virtual_ip->0@)
                != net::ipv4_of(servers[j].virtual_ip->0@),
    ensures
        asked_for(servers) matches Ok(asked) && asked.finite() && asked.len() <= asking(servers),
    decreases servers.len(),
{
    if servers.len() > 0 {
        let rest = servers.drop_last();
        let n = rest.len() as int;
        assert forall|i: int|
            0 <= i < rest.len() && (#[trigger] rest[i]).virtual_ip is Some implies net::ipv4_of(
            rest[i].virtual_ip->0@,
        ) is Some by {
            assert(rest[i] == servers[i]);
        }
        assert forall|i: int, j: int|
            0 <= i < j < rest.len() && (#[trigger] rest[i]).virtual_ip is Some && (
            #[trigger] rest[j]).virtual_ip is Some implies net::ipv4_of(rest[i].virtual_ip->0@)
            != net::ipv4_of(rest[j].virtual_ip->0@) by {
            assert(rest[i] == servers[i] && rest[j] == servers[j]);
        }
        asked_for_in_full(rest);
        asked_for_is_readable(rest);
        assert(servers[n] == servers.last());
        if servers.last().virtual_ip is Some {
            let ip = net::ipv4_of(servers[n].virtual_ip->0@)->0;
            if readable_ips(rest).contains(ip.bits) {
                readable_is_asked(rest, ip.bits);
                let i = choose|i: int|
                    0 <= i < rest.len() && (#[trigger] rest[i]).virtual_ip is Some && net::ipv4_of(
                        rest[i].virtual_ip->0@,
                    ) == Some(Ipv4Addr { bits: ip.bits });
                assert(servers[i] == rest[i]);
            }
        }
    }
}

proof fn a_range_needs_room(used: Set<u32>, lo: int, hi: int)
    requires
        used.finite(),
        0 <= lo <= hi <= 0x1_0000_0000,
        forall|x: int| lo <= x < hi ==> #[trigger] used.contains(x as u32),
    ensures
        hi - lo <= used.len(),
    decreases hi - lo,
{
    if lo < hi {
        let last = (hi - 1) as u32;
        let rest = used.remove(last);
        assert(used.contains((hi - 1) as u32));
        assert forall|x: int| lo <= x < hi - 1 implies #[trigger] rest.contains(x as u32) by {
            assert(used.contains(x as u32));
        }
        a_range_needs_room(rest, lo, hi - 1);
    }
}

proof fn given_out_in_full(
    tun: TunConfig,
    all: Seq<ServerSection>,
    asked: Set<u32>,
    n: int,
)
    requires
        1 <= tun.prefix <= 32,
        all.len() < power2::pow2((32 - tun.prefix) as nat) - 11,
        asked.finite(),
        asked.len() <= asking(all),
        0 <= n <= all.len(),
    ensures
        given_out(tun, all.take(n), asked) matches Ok((ips, used)) && used.finite() && used.len()
            <= asking(all) + n - asking(all.take(n)),
    decreases n,
{
    if n > 0 {
        given_out_in_full(tun, all, asked, n - 1);
        let servers = all.take(n);
        assert(servers.drop_last() =~= all.take(n - 1));
        assert(servers.last() == all[n - 1]);
        let used = given_out(tun, all.take(n - 1), asked)->Ok_0.1;
        asking_is_bounded(all, n - 1);
        if all[n - 1].virtual_ip is None && first_free(tun, used) is None {
            subnet_bounds(tun);
            subnet_starts_at(tun);
            let with_own = used.insert(tun.addr.bits);
            let lo = subnet_base(tun) as int + 10;
            let hi = subnet_base(tun) + hosts(tun.prefix) - 1;
            assert forall|x: int| lo <= x < hi implies #[trigger] with_own.contains(x as u32) by {
                the_lowest_address_is_given_out(tun, used, x as u32);
            }
            a_range_needs_room(with_own, lo, hi);
        }
    } else {
        assert(all.take(0) =~= Seq::<ServerSection>::empty());
    }
}

/// Every server is given an address, where each text that asks for one is one, no two ask for the
/// same, and there are fewer servers than the subnet has addresses to give.
pub proof fn addresses_are_given_while_there_is_room(tun: TunConfig, servers: Seq<ServerSection>)
    requires
        1 <= tun.prefix <= 32,
        servers.len() < power2::pow2((32 - tun.prefix) as nat) - 11,
        forall|i: int|
            0 <= i < servers.len() && (#[trigger] servers[i]).virtual_ip is Some ==> exists|
                ip: Ipv4Addr,
            |
                #[trigger] net::dotted(ip) == servers[i].virtual_ip->0@,
        forall|i: int, j: int|
            0 <= i < j < servers.len() && (#[trigger] servers[i]).virtual_ip is Some && (
            #[trigger] servers[j]).virtual_ip is Some ==> servers[i].virtual_ip->0@
                != servers[j].virtual_ip->0@,
    ensures
        virtual_ips(tun, servers) is Ok,
{
    assert forall|i: int|
        0 <= i < servers.len() && (#[trigger] servers[i]).virtual_ip is Some implies net::ipv4_of(
        servers[i].virtual_ip->0@,
    ) is Some by {
        let ip = choose|ip: Ipv4Addr| #[trigger] net::dotted(ip) == servers[i].virtual_ip->0@;
        net::dotted_round_trip(ip);
    }
    assert forall|i: int, j: int|
        0 <= i < j < servers.len() && (#[trigger] servers[i]).virtual_ip is Some && (
        #[trigger] servers[j]).virtual_ip is Some implies net::ipv4_of(servers[i].virtual_ip->0@)
        != net::ipv4_of(servers[j].virtual_ip->0@) by {
        let a = net::ipv4_of(servers[i].virtual_ip->0@)->0;
        let b = net::ipv4_of(servers[j].virtual_ip->0@)->0;
        net::only_texts_of_addresses_are_read(servers[i].virtual_ip->0@, a);
        net::only_texts_of_addresses_are_read(servers[j].virtual_ip->0@, b);
    }
    asked_for_in_full(servers);
    let asked = asked_for(servers)->Ok_0;
    given_out_in_full(tun, servers, asked, servers.len() as int);
    assert(servers.take(servers.len() as int) =~= servers);
}

/// A server whose section asks for an address has that one; no two servers have the same; and one
/// that asks for none has an address from the tenth of the subnet on, not the last of it and not the
/// device's own.
pub proof fn servers_have_what_they_ask_for(
    tun: TunConfig,
    servers: Seq<ServerSection>,
    ips: Seq<Ipv4Addr>,
    i: int,
)
    requires
        1 <= tun.prefix <= 32,
        virtual_ips(tun, servers) == Ok::<Seq<Ipv4Addr>, Seq<Seq<char>>>(ips),
        0 <= i < servers.len(),
    ensures
        ips.len() == servers.len(),
        forall|j: int| 0 <= j < ips.len() && j != i ==> #[trigger] ips[j] != ips[i],
        servers[i].virtual_ip matches Some(vip) ==> vip@ == net::dotted(ips[i]),
        servers[i].virtual_ip is None ==> ({
            let size = power2::pow2((32 - tun.prefix) as nat);
            let base = tun.addr.bits - tun.addr.bits as int % size as int;
            base + 10 <= ips[i].bits < base + size - 1 && ips[i] != tun.addr
        }),
{
    virtual_ips_are_distinct(tun, servers);
    if let Some(vip) = servers[i].virtual_ip {
        net::only_texts_of_addresses_are_read(vip@, ips[i]);
    } else {
        let asked = asked_for(servers)->Ok_0;
        given_out_so_far(tun, servers, asked, i);
        let in_use = given_out(tun, servers.take(i), asked)->Ok_0.1;
        the_lowest_address_is_given_out(tun, in_use, 0);
    }
}

/// What a new server must not have: the addresses of the others, where they can be resolved, and else
/// those that the sections ask for.
pub proof fn addresses_of_the_others(tun: TunConfig, servers: Seq<ServerSection>, x: u32)
    ensures
        match virtual_ips(tun, servers) {
            Ok(ips) => used_ips(tun, servers).contains(x) <==> exists|i: int|
                0 <= i < ips.len() && (#[trigger] ips[i]).bits == x,
            Err(_) => used_ips(tun, servers).contains(x) <==> exists|i: int|
                0 <= i < servers.len() && (#[trigger] servers[i]).virtual_ip is Some
                    && servers[i].virtual_ip->0@ == net::dotted(Ipv4Addr { bits: x }),
        },
{
    match virtual_ips(tun, servers) {
        Ok(ips) => {
            let b = ips.map_values(|ip: Ipv4Addr| ip.bits);
            if used_ips(tun, servers).contains(x) {
                let i = choose|i: int| 0 <= i < b.len() && b[i] == x;
                assert(ips[i].bits == x);
            }
            if exists|i: int| 0 <= i < ips.len() && (#[trigger] ips[i]).bits == x {
                let i = choose|i: int| 0 <= i < ips.len() && (#[trigger] ips[i]).bits == x;
                given_bits(ips, i);
            }
        },
        Err(_) => {
            readable_exactly(servers, x);
        },
    }
}

proof fn readable_exactly(servers: Seq<ServerSection>, x: u32)
    ensures
        readable_ips(servers).contains(x) <==> exists|i: int|
            0 <= i < servers.len() && (#[trigger] servers[i]).virtual_ip is Some
                && servers[i].virtual_ip->0@ == net::dotted(Ipv4Addr { bits: x }),
    decreases servers.len(),
{
    if servers.len() > 0 {
        let rest = servers.drop_last();
        let n = rest.len() as int;
        readable_exactly(rest, x);
        if servers.last().virtual_ip is Some {
            net::only_texts_of_addresses_are_read(
                servers.last().virtual_ip->0@,
                Ipv4Addr { bits: x },
            );
        }
        if readable_ips(rest).contains(x) {
            let i = choose|i: int|
                0 <= i < rest.len() && (#[trigger] rest[i]).virtual_ip is Some
                    && rest[i].virtual_ip->0@ == net::dotted(Ipv4Addr { bits: x });
            assert(servers[i] == rest[i]);
        }
        if exists|i: int|
            0 <= i < servers.len() && (#[trigger] servers[i]).virtual_ip is Some
                && servers[i].virtual_ip->0@ == net::dotted(Ipv4Addr { bits: x }) {
            let i = choose|i: int|
                0 <= i < servers.len() && (#[trigger] servers[i]).virtual_ip is Some
                    && servers[i].virtual_ip->0@ == net::dotted(Ipv4Addr { bits: x });
            if i < n {
                assert(rest[i] == servers[i]);
            }
        }
        if readable_ips(servers).contains(x) && !readable_ips(rest).contains(x) {
            assert(servers[n] == servers.last());
        }
    }
}

/// Why addresses are refused, read in order: the first section whose text is no address, or asks for
/// one that an earlier section asks for, is told; and where no address is left for a server, that.
pub proof fn why_addresses_are_refused(
    tun: TunConfig,
    servers: Seq<ServerSection>,
    s: ServerSection,
    asked: Set<u32>,
)
    ensures
        asked_for(servers) is Ok ==> (s.virtual_ip matches Some(vip) ==> ((forall|ip: Ipv4Addr|
            #[trigger] net::dotted(ip) != vip@) ==> asked_for(servers.push(s)) == Err::<
            Set<u32>,
            Seq<Seq<char>>,
        >(
            seq![
                "invalid IPv4 address syntax"@,
                "server "@ + s.name@ + ": invalid virtual_ip "@ + vip@,
            ],
        ))),
        asked_for(servers) is Ok ==> (s.virtual_ip matches Some(vip) ==> ((exists|i: int|
            0 <= i < servers.len() && (#[trigger] servers[i]).virtual_ip is Some
                && servers[i].virtual_ip->0@ == vip@) ==> asked_for(servers.push(s)) == Err::<
            Set<u32>,
            Seq<Seq<char>>,
        >(seq!["duplicate virtual_ip "@ + vip@]))),
        given_out(tun, servers, asked) matches Ok((ips, used)) ==> (s.virtual_ip is None
            && first_free(tun, used) is None ==> given_out(tun, servers.push(s), asked) == Err::<
            (Seq<Ipv4Addr>, Set<u32>),
            Seq<Seq<char>>,
        >(seq!["no free virtual IP left in the tun subnet"@])),
{
    assert(servers.push(s).drop_last() =~= servers);
    if let Some(vip) = s.virtual_ip {
        if asked_for(servers) is Ok {
            asked_for_members(servers);
            if exists|i: int|
                0 <= i < servers.len() && (#[trigger] servers[i]).virtual_ip is Some
                    && servers[i].virtual_ip->0@ == vip@ {
                let i = choose|i: int|
                    0 <= i < servers.len() && (#[trigger] servers[i]).virtual_ip is Some
                        && servers[i].virtual_ip->0@ == vip@;
                let ip = net::ipv4_of(servers[i].virtual_ip->0@)->0;
                net::only_texts_of_addresses_are_read(vip@, ip);
            }
        }
    }
}

/// There is an address for a new server while there are fewer servers than the subnet has addresses
/// to give.
pub proof fn a_new_server_finds_room(tun: TunConfig, servers: Seq<ServerSection>)
    requires
        1 <= tun.prefix <= 32,
        virtual_ips(tun, servers) is Ok,
        servers.len() < power2::pow2((32 - tun.prefix) as nat) - 12,
    ensures
        first_free(tun, used_ips(tun, servers)) is Some,
{
    let ips = virtual_ips(tun, servers)->Ok_0;
    virtual_ips_are_distinct(tun, servers);
    let bits = ips.map_values(|ip: Ipv4Addr| ip.bits);
    let used = used_ips(tun, servers);
    bits.lemma_cardinality_of_set();
    vstd::seq_lib::seq_to_set_is_finite(bits);
    if first_free(tun, used) is None {
        subnet_bounds(tun);
        subnet_starts_at(tun);
        let with_own = used.insert(tun.addr.bits);
        let lo = subnet_base(tun) as int + 10;
        let hi = subnet_base(tun) + hosts(tun.prefix) - 1;
        assert forall|x: int| lo <= x < hi implies #[trigger] with_own.contains(x as u32) by {
            the_lowest_address_is_given_out(tun, used, x as u32);
        }
        a_range_needs_room(with_own, lo, hi);
    }
}

/// The addresses that a new server must not have.
pub fn addresses_in_use(tun: &TunConfig, servers: &[ServerSection]) -> (r: HashSet<u32>)
    requires
        1 <= tun.prefix <= 32,
    ensures
        r@ == used_ips(*tun, servers@),
{
    let mut used: HashSet<u32> = HashSet::new();
    let mut i: usize = 0;
    match resolve_virtual_ips(tun, servers) {
        Ok(ips) => {
            let ghost bits = ips@.map_values(|ip: Ipv4Addr| ip.bits);
            assert(bits.take(0).to_set() =~= Set::<u32>::empty());
            while i < ips.len()
                invariant
                    i <= ips@.len(),
                    bits == ips@.map_values(|ip: Ipv4Addr| ip.bits),
                    used@ == bits.take(i as int).to_set(),
                decreases ips@.len() - i,
            {
                let ghost before = bits.take(i as int);
                used.insert(ips[i].bits);
                proof {
                    assert(bits.take(i + 1) =~= before.push(bits[i as int]));
                    assert(before.push(bits[i as int]).to_set() =~= before.to_set().insert(
                        bits[i as int],
                    ));
                }
                i = i + 1;
            }
            assert(bits.take(bits.len() as int) =~= bits);
        },
        Err(_) => {
            assert(servers@.take(0) =~= Seq::<ServerSection>::empty());
            while i < servers.len()
                invariant
                    i <= servers@.len(),
                    used@ == readable_ips(servers@.take(i as int)),
                decreases servers@.len() - i,
            {
                assert(servers@.take(i + 1).drop_last() =~= servers@.take(i as int));
                if let Some(vip) = &servers[i].virtual_ip {
                    if let Some(ip) = Ipv4Addr::parse(vip.as_str()) {
                        used.insert(ip.bits);
                    }
                }
                i = i + 1;
            }
            assert(servers@.take(servers@.len() as int) =~= servers@);
        },
    }
    used
}

} // verus!
