//! Single-packet authorization: one sealed datagram that asks for the tunnel port.
use crate::bytes;
use crate::tunnel::crypto;
use crate::tunnel::error::{self, Error};
use crate::tunnel::keys::PublicKey;
use crate::tunnel::psk::Psk;
use vstd::arithmetic::power;
use vstd::prelude::*;

verus! {

broadcast use vstd::seq_lib::group_seq_properties;

pub const NONCE_LEN: usize = 12;

/// The length of every knock: magic, nonce, payload and tag.
pub const PACKET_LEN: usize = 44;

pub const DEFAULT_WINDOW_SECS: u64 = 30;

/// How many nonces are remembered at most.
pub const REPLAY_CAP: usize = 4096;

/// A knock that was accepted.
#[derive(Clone, Copy, Debug, PartialEq, Eq, Structural)]
pub struct Knock {
    pub tunnel_port: u16,
}

/// The first four bytes of every knock: `HVPK`.
pub open spec fn magic() -> Seq<u8> {
    seq![72u8, 86, 80, 75]
}

/// What the knock key is derived under: `hyperion-vpn knock key v1`.
pub open spec fn kdf_label() -> Seq<u8> {
    seq![
        104u8, 121, 112, 101, 114, 105, 111, 110, 45, 118, 112, 110, 32, 107, 110, 111, 99, 107, 32,
        107, 101, 121, 32, 118, 49,
    ]
}

/// The key that knocks are sealed with.
pub open spec fn knock_key_of(psk: Seq<u8>) -> Seq<u8> {
    crypto::blake2s_hkdf(kdf_label(), psk)
}

/// What a knock is bound to besides its key: the magic, and the key of the server that it is meant
/// for, if it is meant for one.
pub open spec fn binding(server: Option<Seq<u8>>) -> Seq<u8> {
    match server {
        Some(k) => magic() + k,
        None => magic(),
    }
}

/// The contents of a knock.
pub open spec fn payload_bytes(version: u16, timestamp: u64, tunnel_port: u16) -> Seq<u8> {
    bytes::be_bytes(version as nat, 2) + bytes::be_bytes(timestamp as nat, 8) + bytes::be_bytes(
        tunnel_port as nat,
        2,
    )
}

/// The knock for a port at a time, sealed with the given nonce.
pub open spec fn packet_of(
    psk: Seq<u8>,
    server: Option<Seq<u8>>,
    tunnel_port: u16,
    timestamp: u64,
    nonce: Seq<u8>,
) -> Seq<u8> {
    magic() + nonce + crypto::aead_sealed(
        knock_key_of(psk),
        nonce,
        binding(server),
        payload_bytes(crate::PROTOCOL_VERSION, timestamp, tunnel_port),
    )
}

/// The nonce of a packet.
pub open spec fn nonce_of(packet: Seq<u8>) -> Seq<u8> {
    packet.subrange(4, 16)
}

/// The contents of a packet, if it has the right length and magic and its tag is right.
pub open spec fn contents(psk: Seq<u8>, server: Option<Seq<u8>>, packet: Seq<u8>) -> Option<Seq<u8>> {
    if packet.len() == PACKET_LEN && packet.take(4) == magic() {
        crypto::aead_opened(
            knock_key_of(psk),
            nonce_of(packet),
            binding(server),
            packet.subrange(16, 44),
        )
    } else {
        None
    }
}

pub open spec fn distance(a: u64, b: u64) -> int {
    if a < b {
        b - a
    } else {
        a - b
    }
}

/// What a replay guard remembers: nonces, each with the time from which its window runs.
pub struct GuardView {
    pub seen: Map<Seq<u8>, u64>,
    pub window: u64,
}

/// Whether a nonce whose window runs from `t` is still remembered at `now`.
pub open spec fn remembered(window: u64, t: u64, now: u64) -> bool {
    now - t <= window
}

/// What is still remembered at `now`.
pub open spec fn pruned(g: GuardView, now: u64) -> Map<Seq<u8>, u64> {
    g.seen.restrict(
        Set::new(|k: Seq<u8>| g.seen.contains_key(k) && remembered(g.window, g.seen[k], now)),
    )
}

/// What is remembered at `now` once `nonce` has been accepted, with a window that runs from `t`:
/// with a full memory it is not added.
pub open spec fn recorded(g: GuardView, nonce: Seq<u8>, now: u64, t: u64) -> Map<Seq<u8>, u64> {
    if pruned(g, now).len() < REPLAY_CAP {
        pruned(g, now).insert(nonce, t)
    } else {
        pruned(g, now)
    }
}

/// What becomes of a packet.
pub enum Verdict {
    BadLength,
    BadMagic,
    Forged,
    OtherVersion,
    Stale,
    Replay,
    Accepted(u16),
}

/// What becomes of a packet that is opened at `now`.
pub open spec fn verdict(
    psk: Seq<u8>,
    server: Option<Seq<u8>>,
    packet: Seq<u8>,
    now: u64,
    g: GuardView,
) -> Verdict {
    if packet.len() != PACKET_LEN {
        Verdict::BadLength
    } else if packet.take(4) != magic() {
        Verdict::BadMagic
    } else {
        match contents(psk, server, packet) {
            None => Verdict::Forged,
            Some(p) => if bytes::be_value(p.take(2)) != crate::PROTOCOL_VERSION {
                Verdict::OtherVersion
            } else if distance(now, timestamp_of(p)) > g.window {
                Verdict::Stale
            } else if pruned(g, now).contains_key(nonce_of(packet)) {
                Verdict::Replay
            } else {
                Verdict::Accepted(port_of(p))
            },
        }
    }
}

/// The time at which a knock with these contents was sealed.
pub open spec fn timestamp_of(payload: Seq<u8>) -> u64 {
    bytes::be_value(payload.subrange(2, 10)) as u64
}

/// The port that a knock with these contents asks for.
pub open spec fn port_of(payload: Seq<u8>) -> u16 {
    bytes::be_value(payload.subrange(10, 12)) as u16
}

/// What a caller is told.
pub open spec fn told(v: Verdict) -> Result<Knock, error::ErrorView> {
    match v {
        Verdict::BadLength => Err(error::violation("knock: bad length")),
        Verdict::BadMagic => Err(error::violation("knock: bad magic")),
        Verdict::Forged => Err(error::ErrorView::Unauthorized),
        Verdict::OtherVersion => Err(error::violation("knock: version mismatch")),
        Verdict::Stale => Err(error::violation("knock: stale timestamp")),
        Verdict::Replay => Err(error::violation("knock: replay")),
        Verdict::Accepted(tunnel_port) => Ok(Knock { tunnel_port }),
    }
}

/// The time from which the window of a knock runs that is accepted at `now`: a knock whose timestamp
/// is ahead of the clock stays fresh until the window after its timestamp is over, and its nonce is
/// remembered as long.
pub open spec fn kept_from(timestamp: u64, now: u64) -> u64 {
    if timestamp > now {
        timestamp
    } else {
        now
    }
}

/// What a guard remembers after a packet has been opened: nothing changes before the timestamp has
/// been found fresh.
pub open spec fn guard_after(
    psk: Seq<u8>,
    server: Option<Seq<u8>>,
    packet: Seq<u8>,
    now: u64,
    g: GuardView,
) -> GuardView {
    match verdict(psk, server, packet, now, g) {
        Verdict::Accepted(_) => GuardView {
            seen: recorded(
                g,
                nonce_of(packet),
                now,
                kept_from(timestamp_of(contents(psk, server, packet)->0), now),
            ),
            ..g
        },
        Verdict::Replay => GuardView { seen: pruned(g, now), ..g },
        _ => g,
    }
}

/// The entries as a map from nonce to time.
spec fn entry_map(entries: Seq<([u8; 12], u64)>) -> Map<Seq<u8>, u64>
    decreases entries.len(),
{
    if entries.len() == 0 {
        Map::empty()
    } else {
        entry_map(entries.drop_last()).insert(entries.last().0@, entries.last().1)
    }
}

spec fn distinct(entries: Seq<([u8; 12], u64)>) -> bool {
    forall|i: int, j: int|
        0 <= i < j < entries.len() ==> (#[trigger] entries[i]).0@ != (#[trigger] entries[j]).0@
}

/// The map holds the nonces of the entries, and no others, each with its time.
proof fn entry_map_keys(entries: Seq<([u8; 12], u64)>)
    requires
        distinct(entries),
    ensures
        entry_map(entries).dom().finite(),
        entry_map(entries).len() == entries.len(),
        forall|k: Seq<u8>| #[trigger]
            entry_map(entries).contains_key(k) ==> exists|i: int|
                0 <= i < entries.len() && (#[trigger] entries[i]).0@ == k && entry_map(entries)[k]
                    == entries[i].1,
        forall|i: int|
            0 <= i < entries.len() ==> entry_map(entries).contains_key((#[trigger] entries[i]).0@)
                && entry_map(entries)[entries[i].0@] == entries[i].1,
    decreases entries.len(),
{
    if entries.len() > 0 {
        let rest = entries.drop_last();
        let last = entries.last();
        assert forall|i: int, j: int| 0 <= i < j < rest.len() implies (#[trigger] rest[i]).0@ != (
        #[trigger] rest[j]).0@ by {
            assert(entries[i].0@ != entries[j].0@);
        }
        entry_map_keys(rest);
        if entry_map(rest).contains_key(last.0@) {
            let i = choose|i: int| 0 <= i < rest.len() && (#[trigger] rest[i]).0@ == last.0@;
            assert(entries[i].0@ != entries[entries.len() - 1].0@);
        }
        let m = entry_map(entries);
        assert forall|k: Seq<u8>| #[trigger] m.contains_key(k) implies exists|i: int|
            0 <= i < entries.len() && (#[trigger] entries[i]).0@ == k && m[k] == entries[i].1 by {
            if k == last.0@ {
                assert(entries[entries.len() - 1].0@ == k);
            } else {
                assert(entry_map(rest).contains_key(k));
                let i = choose|i: int|
                    0 <= i < rest.len() && (#[trigger] rest[i]).0@ == k && entry_map(rest)[k]
                        == rest[i].1;
                assert(entries[i].0@ == k);
            }
        }
        assert forall|i: int| 0 <= i < entries.len() implies m.contains_key(
            (#[trigger] entries[i]).0@,
        ) && m[entries[i].0@] == entries[i].1 by {
            if i < rest.len() {
                assert(rest[i].0@ == entries[i].0@);
                assert(entries[i].0@ != entries[entries.len() - 1].0@);
            }
        }
    }
}

/// The nonces of accepted knocks, remembered for a window of time.
pub struct ReplayGuard {
    seen: Vec<([u8; 12], u64)>,
    window: u64,
}

impl View for ReplayGuard {
    type V = GuardView;

    closed spec fn view(&self) -> GuardView {
        GuardView { seen: entry_map(self.seen@), window: self.window }
    }
}

impl ReplayGuard {
    /// No nonce is remembered twice, and no more of them than the memory holds.
    pub closed spec fn wf(&self) -> bool {
        distinct(self.seen@) && self.seen@.len() <= REPLAY_CAP
    }

    pub fn new(window_secs: u64) -> (r: Self)
        ensures
            r.wf(),
            r@ == (GuardView { seen: Map::empty(), window: window_secs }),
    {
        ReplayGuard { seen: Vec::new(), window: window_secs }
    }

    pub fn window(&self) -> (r: u64)
        ensures
            r == self@.window,
    {
        self.window
    }

    /// How many nonces are remembered.
    pub fn remembered(&self) -> (r: usize)
        requires
            self.wf(),
        ensures
            r == self@.seen.len(),
            r <= REPLAY_CAP,
    {
        proof {
            entry_map_keys(self.seen@);
        }
        self.seen.len()
    }

    /// Forgets what is out of the window.
    #[verifier::spinoff_prover]
    #[verifier::rlimit(40)]
    fn prune(&mut self, now: u64)
        requires
            old(self).wf(),
        ensures
            final(self).wf(),
            final(self)@ == (GuardView { seen: pruned(old(self)@, now), ..old(self)@ }),
    {
        let ghost all = self.seen@;
        let ghost before = self@;
        let mut kept: Vec<([u8; 12], u64)> = Vec::new();
        let mut i: usize = 0;
        while i < self.seen.len()
            invariant
                self.seen@ == all,
                i <= all.len(),
                all.len() <= REPLAY_CAP,
                kept@.len() <= i,
                distinct(all),
                distinct(kept@),
                forall|j: int|
                    0 <= j < kept@.len() ==> exists|m: int|
                        0 <= m < i && (#[trigger] kept@[j]) == #[trigger] all[m] && remembered(
                            self.window,
                            all[m].1,
                            now,
                        ),
                forall|m: int|
                    0 <= m < i && remembered(self.window, (#[trigger] all[m]).1, now) ==> exists|
                        j: int,
                    |
                        0 <= j < kept@.len() && #[trigger] kept@[j] == all[m],
            decreases all.len() - i,
        {
            let entry: ([u8; 12], u64) = self.seen[i];
            let ghost old_kept = kept@;
            let keep = entry.1 >= now || now - entry.1 <= self.window;
            if keep {
                kept.push(entry);
                assert forall|a: int, b: int| 0 <= a < b < kept@.len() implies (
                #[trigger] kept@[a]).0@ != (#[trigger] kept@[b]).0@ by {
                    if b == old_kept.len() {
                        let m = choose|m: int|
                            0 <= m < i && old_kept[a] == #[trigger] all[m] && remembered(
                                self.window,
                                all[m].1,
                                now,
                            );
                        assert(all[m].0@ != all[i as int].0@);
                    } else {
                        assert(old_kept[a].0@ != old_kept[b].0@);
                    }
                }
                assert forall|j: int| 0 <= j < kept@.len() implies exists|m: int|
                    0 <= m < i + 1 && (#[trigger] kept@[j]) == #[trigger] all[m] && remembered(
                        self.window,
                        all[m].1,
                        now,
                    ) by {
                    if j == old_kept.len() {
                        assert(kept@[j] == all[i as int]);
                    } else {
                        let m = choose|m: int|
                            0 <= m < i && old_kept[j] == #[trigger] all[m] && remembered(
                                self.window,
                                all[m].1,
                                now,
                            );
                        assert(kept@[j] == all[m]);
                    }
                }
                assert forall|m: int|
                    0 <= m < i + 1 && remembered(
                        self.window,
                        (#[trigger] all[m]).1,
                        now,
                    ) implies exists|j: int| 0 <= j < kept@.len() && #[trigger] kept@[j] == all[m] by {
                    if m == i {
                        assert(kept@[old_kept.len() as int] == all[m]);
                    } else {
                        let j = choose|j: int|
                            0 <= j < old_kept.len() && #[trigger] old_kept[j] == all[m];
                        assert(kept@[j] == all[m]);
                    }
                }
            }
            i = i + 1;
        }
        self.seen = kept;
        proof {
            entry_map_keys(all);
            entry_map_keys(self.seen@);
            let p = pruned(before, now);
            let q = entry_map(self.seen@);
            assert forall|k: Seq<u8>| q.contains_key(k) == p.contains_key(k) && (q.contains_key(k)
                ==> q[k] == p[k]) by {
                if q.contains_key(k) {
                    let j = choose|j: int|
                        0 <= j < self.seen@.len() && (#[trigger] self.seen@[j]).0@ == k && q[k]
                            == self.seen@[j].1;
                    let m = choose|m: int|
                        0 <= m < all.len() && self.seen@[j] == #[trigger] all[m] && remembered(
                            self.window,
                            all[m].1,
                            now,
                        );
                    assert(all[m].0@ == k);
                }
                if p.contains_key(k) {
                    assert(before.seen.contains_key(k));
                    let m = choose|m: int|
                        0 <= m < all.len() && (#[trigger] all[m]).0@ == k && before.seen[k]
                            == all[m].1;
                    let j = choose|j: int|
                        0 <= j < self.seen@.len() && #[trigger] self.seen@[j] == all[m];
                    assert(self.seen@[j].0@ == k);
                }
            }
            assert(q =~= p);
        }
    }

    /// Whether `nonce` is new at `now`; if it is, it is remembered for a window that runs from `t`.
    fn check_and_record_from(&mut self, nonce: [u8; 12], now: u64, t: u64) -> (r: bool)
        requires
            old(self).wf(),
        ensures
            final(self).wf(),
            r == !pruned(old(self)@, now).contains_key(nonce@),
            final(self)@ == (GuardView {
                seen: if r {
                    recorded(old(self)@, nonce@, now, t)
                } else {
                    pruned(old(self)@, now)
                },
                ..old(self)@
            }),
    {
        self.prune(now);
        proof {
            entry_map_keys(self.seen@);
        }
        let mut i: usize = 0;
        while i < self.seen.len()
            invariant
                self.wf(),
                self@ == (GuardView { seen: pruned(old(self)@, now), ..old(self)@ }),
                i <= self.seen@.len(),
                forall|j: int| 0 <= j < i ==> (#[trigger] self.seen@[j]).0@ != nonce@,
            decreases self.seen@.len() - i,
        {
            if bytes::same(self.seen[i].0.as_slice(), nonce.as_slice()) {
                proof {
                    entry_map_keys(self.seen@);
                    assert(self.seen@[i as int].0@ == nonce@);
                }
                return false;
            }
            i = i + 1;
        }
        if self.seen.len() < REPLAY_CAP {
            let ghost before = self.seen@;
            self.seen.push((nonce, t));
            assert(self.seen@.drop_last() =~= before);
            assert forall|a: int, b: int| 0 <= a < b < self.seen@.len() implies (
            #[trigger] self.seen@[a]).0@ != (#[trigger] self.seen@[b]).0@ by {
                if b < before.len() {
                    assert(before[a].0@ != before[b].0@);
                }
            }
        }
        true
    }

    /// Whether `nonce` is new at `now`; if it is, it is remembered for a window that runs from now.
    pub fn check_and_record(&mut self, nonce: [u8; 12], now: u64) -> (r: bool)
        requires
            old(self).wf(),
        ensures
            final(self).wf(),
            r == !pruned(old(self)@, now).contains_key(nonce@),
            final(self)@ == (GuardView {
                seen: if r {
                    recorded(old(self)@, nonce@, now, now)
                } else {
                    pruned(old(self)@, now)
                },
                ..old(self)@
            }),
    {
        self.check_and_record_from(nonce, now, now)
    }
}

fn magic_bytes() -> (r: [u8; 4])
    ensures
        r@ == magic(),
{
    let r: [u8; 4] = [72, 86, 80, 75];
    assert(r@ =~= magic());
    r
}

/// The key that knocks are sealed with.
fn knock_key(psk: &Psk) -> (r: [u8; 32])
    ensures
        r@ == knock_key_of(psk@),
{
    let label: [u8; 25] = [
        104, 121, 112, 101, 114, 105, 111, 110, 45, 118, 112, 110, 32, 107, 110, 111, 99, 107, 32,
        107, 101, 121, 32, 118, 49,
    ];
    assert(label@ =~= kdf_label());
    crypto::hkdf_first(label.as_slice(), psk.as_bytes().as_slice())
}

/// The key of the server a knock is meant for, if it is meant for one.
pub open spec fn bound_to(server: Option<&PublicKey>) -> Option<Seq<u8>> {
    match server {
        Some(k) => Some(k@),
        None => None,
    }
}

fn binding_bytes(server: Option<&PublicKey>) -> (r: Vec<u8>)
    ensures
        r@ == binding(bound_to(server)),
{
    let m = magic_bytes();
    let mut out: Vec<u8> = Vec::new();
    out.extend_from_slice(m.as_slice());
    assert(out@ =~= magic());
    if let Some(k) = server {
        out.extend_from_slice(k.as_bytes().as_slice());
        assert(out@ =~= magic() + k@);
    }
    out
}

/// A packet of the right shape that opens to a knock for `tunnel_port` sealed at `timestamp`.
pub open spec fn opens_as(
    psk: Seq<u8>,
    server: Option<Seq<u8>>,
    packet: Seq<u8>,
    tunnel_port: u16,
    timestamp: u64,
) -> bool {
    contents(psk, server, packet) == Some(
        payload_bytes(crate::PROTOCOL_VERSION, timestamp, tunnel_port),
    )
}

/// The parts of a payload read back.
proof fn payload_parts(version: u16, timestamp: u64, tunnel_port: u16)
    ensures
        ({
            let p = payload_bytes(version, timestamp, tunnel_port);
            &&& p.len() == 12
            &&& bytes::be_value(p.take(2)) == version
            &&& timestamp_of(p) == timestamp
            &&& port_of(p) == tunnel_port
        }),
{
    let p = payload_bytes(version, timestamp, tunnel_port);
    bytes::pow256_bounds();
    bytes::be_round_trip(version as nat, 2);
    bytes::be_round_trip(timestamp as nat, 8);
    bytes::be_round_trip(tunnel_port as nat, 2);
    assert(p.take(2) =~= bytes::be_bytes(version as nat, 2));
    assert(p.subrange(2, 10) =~= bytes::be_bytes(timestamp as nat, 8));
    assert(p.subrange(10, 12) =~= bytes::be_bytes(tunnel_port as nat, 2));
}

/// A payload is made of its parts.
proof fn payload_whole(p: Seq<u8>, version: u16)
    requires
        p.len() == 12,
        bytes::be_value(p.take(2)) == version,
    ensures
        p == payload_bytes(version, timestamp_of(p), port_of(p)),
        bytes::be_value(p.subrange(2, 10)) <= u64::MAX,
        bytes::be_value(p.subrange(10, 12)) <= u16::MAX,
{
    bytes::pow256_bounds();
    bytes::be_value_round_trip(p.take(2));
    bytes::be_value_round_trip(p.subrange(2, 10));
    bytes::be_value_round_trip(p.subrange(10, 12));
    assert(p =~= p.take(2) + p.subrange(2, 10) + p.subrange(10, 12));
}

/// A knock that was sealed for this server under this key opens, within the window around its
/// timestamp, wherever its nonce has not been seen, and asks for the port it was sealed for.
pub proof fn sealed_knock_opens(
    psk: Seq<u8>,
    server: Option<Seq<u8>>,
    packet: Seq<u8>,
    tunnel_port: u16,
    timestamp: u64,
    now: u64,
    g: GuardView,
)
    requires
        opens_as(psk, server, packet, tunnel_port, timestamp),
        distance(now, timestamp) <= g.window,
        !pruned(g, now).contains_key(nonce_of(packet)),
    ensures
        verdict(psk, server, packet, now, g) == Verdict::Accepted(tunnel_port),
        told(verdict(psk, server, packet, now, g)) == Ok::<Knock, error::ErrorView>(
            Knock { tunnel_port },
        ),
{
    payload_parts(crate::PROTOCOL_VERSION, timestamp, tunnel_port);
}

/// Outside the window around its timestamp no knock opens.
pub proof fn stale_knock_is_rejected(
    psk: Seq<u8>,
    server: Option<Seq<u8>>,
    packet: Seq<u8>,
    tunnel_port: u16,
    timestamp: u64,
    now: u64,
    g: GuardView,
)
    requires
        opens_as(psk, server, packet, tunnel_port, timestamp),
        distance(now, timestamp) > g.window,
    ensures
        verdict(psk, server, packet, now, g) == Verdict::Stale,
{
    payload_parts(crate::PROTOCOL_VERSION, timestamp, tunnel_port);
}

/// An accepted knock is remembered, for a window that runs from the later of its timestamp and the
/// time at which it was accepted, unless the memory is full.
pub proof fn accepted_knock_is_remembered(
    psk: Seq<u8>,
    server: Option<Seq<u8>>,
    packet: Seq<u8>,
    now: u64,
    g: GuardView,
)
    requires
        verdict(psk, server, packet, now, g) is Accepted,
        pruned(g, now).len() < REPLAY_CAP,
    ensures
        guard_after(psk, server, packet, now, g).seen.contains_key(nonce_of(packet)),
        guard_after(psk, server, packet, now, g).seen[nonce_of(packet)] == kept_from(
            timestamp_of(contents(psk, server, packet)->0),
            now,
        ),
        guard_after(psk, server, packet, now, g).window == g.window,
{
}

/// What is remembered stays remembered for the window, whatever else is opened meanwhile.
pub proof fn memory_is_kept(
    psk: Seq<u8>,
    server: Option<Seq<u8>>,
    packet: Seq<u8>,
    now: u64,
    g: GuardView,
    nonce: Seq<u8>,
)
    requires
        g.seen.contains_key(nonce),
        remembered(g.window, g.seen[nonce], now),
    ensures
        guard_after(psk, server, packet, now, g).seen.contains_key(nonce),
        guard_after(psk, server, packet, now, g).seen[nonce] == g.seen[nonce],
        guard_after(psk, server, packet, now, g).window == g.window,
{
    assert(pruned(g, now).contains_key(nonce));
}

/// A knock whose nonce is remembered is not accepted again.
pub proof fn remembered_knock_is_rejected(
    psk: Seq<u8>,
    server: Option<Seq<u8>>,
    packet: Seq<u8>,
    now: u64,
    g: GuardView,
)
    requires
        g.seen.contains_key(nonce_of(packet)),
        remembered(g.window, g.seen[nonce_of(packet)], now),
    ensures
        !(verdict(psk, server, packet, now, g) is Accepted),
{
    assert(pruned(g, now).contains_key(nonce_of(packet)));
}

/// What a guard remembers after packets have been opened one after the other, each at its time.
pub open spec fn guard_after_all(
    psk: Seq<u8>,
    server: Option<Seq<u8>>,
    opened: Seq<(Seq<u8>, u64)>,
    g: GuardView,
) -> GuardView
    decreases opened.len(),
{
    if opened.len() == 0 {
        g
    } else {
        guard_after(
            psk,
            server,
            opened.last().0,
            opened.last().1,
            guard_after_all(psk, server, opened.drop_last(), g),
        )
    }
}

/// What is remembered at `later` was remembered all the time, whatever was opened up to then.
proof fn memory_is_kept_throughout(
    psk: Seq<u8>,
    server: Option<Seq<u8>>,
    opened: Seq<(Seq<u8>, u64)>,
    g: GuardView,
    nonce: Seq<u8>,
    later: u64,
)
    requires
        g.seen.contains_key(nonce),
        remembered(g.window, g.seen[nonce], later),
        forall|i: int| 0 <= i < opened.len() ==> (#[trigger] opened[i]).1 <= later,
    ensures
        guard_after_all(psk, server, opened, g).seen.contains_key(nonce),
        guard_after_all(psk, server, opened, g).seen[nonce] == g.seen[nonce],
    decreases opened.len(),
{
    if opened.len() > 0 {
        let rest = opened.drop_last();
        assert forall|i: int| 0 <= i < rest.len() implies (#[trigger] rest[i]).1 <= later by {
            assert(rest[i] == opened[i]);
        }
        memory_is_kept_throughout(psk, server, rest, g, nonce, later);
        window_is_kept(psk, server, rest, g);
        assert(opened[opened.len() - 1].1 <= later);
        memory_is_kept(
            psk,
            server,
            opened.last().0,
            opened.last().1,
            guard_after_all(psk, server, rest, g),
            nonce,
        );
    }
}

proof fn window_is_kept(
    psk: Seq<u8>,
    server: Option<Seq<u8>>,
    opened: Seq<(Seq<u8>, u64)>,
    g: GuardView,
)
    ensures
        guard_after_all(psk, server, opened, g).window == g.window,
    decreases opened.len(),
{
    if opened.len() > 0 {
        window_is_kept(psk, server, opened.drop_last(), g);
    }
}

/// A knock opens once: when one has been accepted with room in the memory, every attempt with the
/// same packet that follows fails, as a replay or as stale, whatever was opened in between, at
/// times that are not after that of the attempt.
pub proof fn knock_opens_once(
    psk: Seq<u8>,
    server: Option<Seq<u8>>,
    packet: Seq<u8>,
    first: u64,
    between: Seq<(Seq<u8>, u64)>,
    later: u64,
    g: GuardView,
)
    requires
        verdict(psk, server, packet, first, g) is Accepted,
        pruned(g, first).len() < REPLAY_CAP,
        forall|i: int| 0 <= i < between.len() ==> (#[trigger] between[i]).1 <= later,
    ensures
        ({
            let once = guard_after(psk, server, packet, first, g);
            let v = verdict(
                psk,
                server,
                packet,
                later,
                guard_after_all(psk, server, between, once),
            );
            v is Replay || v is Stale
        }),
{
    let once = guard_after(psk, server, packet, first, g);
    accepted_knock_is_remembered(psk, server, packet, first, g);
    window_is_kept(psk, server, between, once);
    let t = kept_from(timestamp_of(contents(psk, server, packet)->0), first);
    if remembered(g.window, t, later) {
        memory_is_kept_throughout(psk, server, between, once, nonce_of(packet), later);
        let all = guard_after_all(psk, server, between, once);
        assert(pruned(all, later).contains_key(nonce_of(packet)));
    }
}

/// The memory never holds more nonces than its cap.
pub proof fn memory_is_bounded(
    psk: Seq<u8>,
    server: Option<Seq<u8>>,
    packet: Seq<u8>,
    now: u64,
    g: GuardView,
)
    requires
        g.seen.dom().finite(),
        g.seen.len() <= REPLAY_CAP,
    ensures
        guard_after(psk, server, packet, now, g).seen.len() <= REPLAY_CAP,
{
    let p = pruned(g, now);
    vstd::set_lib::lemma_len_subset(p.dom(), g.seen.dom());
}

/// Seals a knock with the given nonce, for one server or for any.
pub fn seal_with_nonce(
    psk: &Psk,
    server: Option<&PublicKey>,
    tunnel_port: u16,
    timestamp: u64,
    nonce: [u8; 12],
) -> (r: Vec<u8>)
    ensures
        r@ == packet_of(psk@, bound_to(server), tunnel_port, timestamp, nonce@),
        r@.len() == PACKET_LEN,
        nonce_of(r@) == nonce@,
        opens_as(psk@, bound_to(server), r@, tunnel_port, timestamp),
{
    let key = knock_key(psk);
    let version = bytes::u16_to_be(crate::PROTOCOL_VERSION);
    let time = bytes::u64_to_be(timestamp);
    let port = bytes::u16_to_be(tunnel_port);
    let mut payload: Vec<u8> = Vec::new();
    payload.extend_from_slice(version.as_slice());
    payload.extend_from_slice(time.as_slice());
    payload.extend_from_slice(port.as_slice());
    assert(payload@ =~= payload_bytes(crate::PROTOCOL_VERSION, timestamp, tunnel_port));
    let aad = binding_bytes(server);
    let ciphertext = crypto::aead_seal(&key, &nonce, aad.as_slice(), payload.as_slice());
    let m = magic_bytes();
    let mut packet: Vec<u8> = Vec::new();
    packet.extend_from_slice(m.as_slice());
    packet.extend_from_slice(nonce.as_slice());
    packet.extend_from_slice(ciphertext.as_slice());
    proof {
        payload_parts(crate::PROTOCOL_VERSION, timestamp, tunnel_port);
        assert(packet@ =~= magic() + nonce@ + ciphertext@);
        assert(packet@.take(4) =~= magic());
        assert(nonce_of(packet@) =~= nonce@);
        assert(packet@.subrange(16, 44) =~= ciphertext@);
    }
    packet
}

/// A knock sealed for a port at a time, whatever its nonce.
pub open spec fn is_knock(
    psk: Seq<u8>,
    server: Option<Seq<u8>>,
    tunnel_port: u16,
    timestamp: u64,
    packet: Seq<u8>,
) -> bool {
    &&& packet.len() == PACKET_LEN
    &&& packet == packet_of(psk, server, tunnel_port, timestamp, nonce_of(packet))
    &&& opens_as(psk, server, packet, tunnel_port, timestamp)
}

/// Seals a knock with the bytes that were drawn for its nonce, for one server or for any. Without
/// them, and only then, there is none.
pub fn seal_drawn(
    psk: &Psk,
    server: Option<&PublicKey>,
    tunnel_port: u16,
    timestamp: u64,
    drawn: Option<Vec<u8>>,
) -> (r: Option<Vec<u8>>)
    requires
        drawn matches Some(nonce) ==> nonce@.len() == NONCE_LEN,
    ensures
        match drawn {
            Some(nonce) => r matches Some(p) && p@ == packet_of(
                psk@,
                bound_to(server),
                tunnel_port,
                timestamp,
                nonce@,
            ) && is_knock(psk@, bound_to(server), tunnel_port, timestamp, p@),
            None => r is None,
        },
{
    match drawn {
        Some(random) => {
            let nonce = bytes::first12(random.as_slice());
            assert(nonce@ =~= random@);
            Some(seal_with_nonce(psk, server, tunnel_port, timestamp, nonce))
        },
        None => None,
    }
}

fn seal_random(psk: &Psk, server: Option<&PublicKey>, tunnel_port: u16, timestamp: u64) -> (r:
    Option<Vec<u8>>)
    ensures
        r matches Some(p) ==> is_knock(psk@, bound_to(server), tunnel_port, timestamp, p@),
{
    seal_drawn(psk, server, tunnel_port, timestamp, crypto::random_bytes(NONCE_LEN))
}

/// The time that a clock shows, in seconds since the Unix epoch: zero for one that is before it.
pub fn unix_time(since_epoch: Option<u64>) -> (r: u64)
    ensures
        r == (match since_epoch {
            Some(seconds) => seconds,
            None => 0,
        }),
{
    match since_epoch {
        Some(seconds) => seconds,
        None => 0,
    }
}

/// The time in seconds since the Unix epoch, zero before it. Nothing is said of what the system's
/// clock shows.
pub fn now_unix() -> u64 {
    unix_time(crypto::seconds_since_epoch(crypto::time_of_day()))
}

/// Seals a knock for any server, at the current time. There is none if the system has no random
/// bytes to give.
pub fn seal(psk: &Psk, tunnel_port: u16) -> (r: Option<Vec<u8>>)
    ensures
        r matches Some(p) ==> exists|timestamp: u64| #[trigger]
            is_knock(psk@, None, tunnel_port, timestamp, p@),
{
    let timestamp: u64 = now_unix();
    seal_at(psk, tunnel_port, timestamp)
}

/// Seals a knock for any server, at the given time. There is none if the system has no random bytes
/// to give.
pub fn seal_at(psk: &Psk, tunnel_port: u16, timestamp: u64) -> (r: Option<Vec<u8>>)
    ensures
        r matches Some(p) ==> is_knock(psk@, None, tunnel_port, timestamp, p@),
{
    seal_random(psk, None, tunnel_port, timestamp)
}

/// Seals a knock for the server with the given key, at the current time. There is none if the
/// system has no random bytes to give.
pub fn seal_for(psk: &Psk, server: &PublicKey, tunnel_port: u16) -> (r: Option<Vec<u8>>)
    ensures
        r matches Some(p) ==> exists|timestamp: u64| #[trigger]
            is_knock(psk@, Some(server@), tunnel_port, timestamp, p@),
{
    let timestamp: u64 = now_unix();
    seal_for_at(psk, server, tunnel_port, timestamp)
}

/// Seals a knock for the server with the given key, at the given time. There is none if the system
/// has no random bytes to give.
pub fn seal_for_at(psk: &Psk, server: &PublicKey, tunnel_port: u16, timestamp: u64) -> (r: Option<
    Vec<u8>,
>)
    ensures
        r matches Some(p) ==> is_knock(psk@, Some(server@), tunnel_port, timestamp, p@),
{
    seal_random(psk, Some(server), tunnel_port, timestamp)
}

/// An accepted packet is one that was sealed under this key, for this server, at a time within the
/// window, for the port that it asks for.
pub open spec fn accepted_is_sealed(
    psk: Seq<u8>,
    server: Option<Seq<u8>>,
    packet: Seq<u8>,
    now: u64,
    window: u64,
    k: Knock,
) -> bool {
    exists|timestamp: u64| #[trigger]
        is_knock(psk, server, k.tunnel_port, timestamp, packet) && distance(now, timestamp)
            <= window
}

/// The bytes of a text of ASCII.
spec fn ascii(t: Seq<char>) -> Seq<u8> {
    Seq::new(t.len(), |i: int| t[i] as u8)
}

proof fn labels_are_ascii()
    ensures
        magic() == Seq::new("HVPK"@.len(), |i: int| "HVPK"@[i] as u8),
        kdf_label() == Seq::new(
            "hyperion-vpn knock key v1"@.len(),
            |i: int| "hyperion-vpn knock key v1"@[i] as u8,
        ),
{
    reveal_strlit("HVPK");
    reveal_strlit("hyperion-vpn knock key v1");
    assert(magic() =~= ascii("HVPK"@));
    assert(ascii("HVPK"@) =~= Seq::new("HVPK"@.len(), |i: int| "HVPK"@[i] as u8));
    assert(kdf_label() =~= ascii("hyperion-vpn knock key v1"@));
    assert(ascii("hyperion-vpn knock key v1"@) =~= Seq::new(
        "hyperion-vpn knock key v1"@.len(),
        |i: int| "hyperion-vpn knock key v1"@[i] as u8,
    ));
}

/// What a knock is on the wire: the four letters, the nonce, and twelve bytes sealed with the key
/// that is derived from the pre-shared key, bound to the four letters and the key of the server. The
/// twelve bytes are the version, the time and the port, each with its highest byte first.
pub proof fn knock_on_the_wire(
    psk: Seq<u8>,
    server: Option<Seq<u8>>,
    tunnel_port: u16,
    timestamp: u64,
    nonce: Seq<u8>,
    payload: Seq<u8>,
)
    requires
        payload.len() == 12,
        payload[0] == 0 && payload[1] == 1,
        forall|k: int|
            0 <= k < 8 ==> #[trigger] payload[2 + k] == (timestamp as int / power::pow(
                256,
                (7 - k) as nat,
            )) % 256,
        256 * payload[10] + payload[11] == tunnel_port,
    ensures
        ({
            let letters = Seq::new("HVPK"@.len(), |i: int| "HVPK"@[i] as u8);
            let label = Seq::new(
                "hyperion-vpn knock key v1"@.len(),
                |i: int| "hyperion-vpn knock key v1"@[i] as u8,
            );
            packet_of(psk, server, tunnel_port, timestamp, nonce) == letters + nonce
                + crypto::aead_sealed(
                crypto::blake2s_hkdf(label, psk),
                nonce,
                match server {
                    Some(key) => letters + key,
                    None => letters,
                },
                payload,
            )
        }),
{
    labels_are_ascii();
    let p = payload_bytes(crate::PROTOCOL_VERSION, timestamp, tunnel_port);
    let v = bytes::be_bytes(crate::PROTOCOL_VERSION as nat, 2);
    let t = bytes::be_bytes(timestamp as nat, 8);
    let q = bytes::be_bytes(tunnel_port as nat, 2);
    bytes::be_bytes_len(crate::PROTOCOL_VERSION as nat, 2);
    bytes::be_bytes_len(timestamp as nat, 8);
    bytes::be_bytes_len(tunnel_port as nat, 2);
    bytes::two_bytes(0, 1);
    bytes::two_bytes(payload[10], payload[11]);
    assert(v == seq![0u8, 1u8]);
    assert(q == seq![payload[10], payload[11]]);
    assert forall|k: int| 0 <= k < 8 implies t[k] == #[trigger] payload[2 + k] by {
        bytes::bytes_are_digits(timestamp as nat, 8, k);
    }
    assert forall|k: int| 0 <= k < 12 implies p[k] == payload[k] by {
        if 2 <= k < 10 {
            assert(p[k] == t[k - 2]);
            assert(payload[2 + (k - 2)] == t[k - 2]);
        }
    }
    assert(p =~= payload);
}

/// What becomes of a packet, whatever it is: it must have 44 bytes and begin with the four letters;
/// what follows the nonce must open; and then it must say the version, a time no further than the
/// window from now, before or after, and have a nonce that is not remembered any more. If so, it is
/// accepted for the port that it says.
pub proof fn what_becomes_of_a_packet(
    psk: Seq<u8>,
    server: Option<Seq<u8>>,
    packet: Seq<u8>,
    now: u64,
    g: GuardView,
)
    ensures
        ({
            let letters = Seq::new("HVPK"@.len(), |i: int| "HVPK"@[i] as u8);
            let label = Seq::new(
                "hyperion-vpn knock key v1"@.len(),
                |i: int| "hyperion-vpn knock key v1"@[i] as u8,
            );
            let nonce = packet.subrange(4, 16);
            let opened = crypto::aead_opened(
                crypto::blake2s_hkdf(label, psk),
                nonce,
                match server {
                    Some(key) => letters + key,
                    None => letters,
                },
                packet.subrange(16, 44),
            );
            let v = verdict(psk, server, packet, now, g);
            &&& packet.len() != 44 <==> v is BadLength
            &&& packet.len() == 44 && packet.take(4) != letters <==> v is BadMagic
            &&& packet.len() == 44 && packet.take(4) == letters && opened is None <==> v is Forged
            &&& packet.len() == 44 && packet.take(4) == letters ==> (opened matches Some(p) ==> (
            p.len() == 12 ==> {
                let time = bytes::be_value(p.subrange(2, 10));
                let is_ours = p[0] == 0 && p[1] == 1;
                let is_fresh = time <= now + g.window && now <= time + g.window;
                let is_new = g.seen.contains_key(nonce) ==> now > g.seen[nonce] + g.window;
                &&& !is_ours <==> v is OtherVersion
                &&& is_ours && !is_fresh <==> v is Stale
                &&& is_ours && is_fresh && !is_new <==> v is Replay
                &&& is_ours && is_fresh && is_new <==> v is Accepted
                &&& v matches Verdict::Accepted(port) ==> port == 256 * p[10] + p[11]
            }))
        }),
{
    labels_are_ascii();
    let nonce = packet.subrange(4, 16);
    if let Some(p) = contents(psk, server, packet) {
        if p.len() == 12 {
            bytes::two_bytes(p[0], p[1]);
            bytes::two_bytes(p[10], p[11]);
            assert(p.take(2) =~= seq![p[0], p[1]]);
            assert(p.subrange(10, 12) =~= seq![p[10], p[11]]);
            bytes::pow256_bounds();
            bytes::be_value_round_trip(p.subrange(2, 10));
            assert(timestamp_of(p) == bytes::be_value(p.subrange(2, 10)));
        }
    }
    assert(pruned(g, now).contains_key(nonce) <==> g.seen.contains_key(nonce) && now
        <= g.seen[nonce] + g.window);
}

/// A caller is given the port of an accepted packet, and an error for every other: a forged one is
/// unauthorized, and all else is a violation of the protocol.
pub proof fn what_a_caller_is_told(v: Verdict)
    ensures
        v matches Verdict::Accepted(port) ==> told(v) == Ok::<Knock, error::ErrorView>(
            Knock { tunnel_port: port },
        ),
        told(v) is Ok <==> v is Accepted,
        v is BadLength ==> told(v) == Err::<Knock, error::ErrorView>(
            error::ErrorView::Protocol("knock: bad length"@),
        ),
        v is BadMagic ==> told(v) == Err::<Knock, error::ErrorView>(
            error::ErrorView::Protocol("knock: bad magic"@),
        ),
        v is OtherVersion ==> told(v) == Err::<Knock, error::ErrorView>(
            error::ErrorView::Protocol("knock: version mismatch"@),
        ),
        v is Stale ==> told(v) == Err::<Knock, error::ErrorView>(
            error::ErrorView::Protocol("knock: stale timestamp"@),
        ),
        v is Replay ==> told(v) == Err::<Knock, error::ErrorView>(
            error::ErrorView::Protocol("knock: replay"@),
        ),
        told(v) == Err::<Knock, error::ErrorView>(error::ErrorView::Unauthorized) <==> v is Forged,
        told(v) matches Err(e) ==> e is Unauthorized || e is Protocol,
{
}

/// A knock is accepted at every time within the window around its own, for the port it was sealed
/// for, unless its nonce is remembered; at every other time it is stale.
pub proof fn accepted_within_the_window(
    psk: Seq<u8>,
    server: Option<Seq<u8>>,
    tunnel_port: u16,
    timestamp: u64,
    packet: Seq<u8>,
    now: u64,
    g: GuardView,
)
    requires
        is_knock(psk, server, tunnel_port, timestamp, packet),
    ensures
        ({
            let v = verdict(psk, server, packet, now, g);
            let nonce = packet.subrange(4, 16);
            let is_fresh = timestamp - now <= g.window && now - timestamp <= g.window;
            let is_new = g.seen.contains_key(nonce) ==> now - g.seen[nonce] > g.window;
            &&& is_fresh && is_new ==> v == Verdict::Accepted(tunnel_port)
            &&& is_fresh && !is_new ==> v is Replay
            &&& !is_fresh ==> v is Stale
        }),
{
    let p = payload_bytes(crate::PROTOCOL_VERSION, timestamp, tunnel_port);
    payload_parts(crate::PROTOCOL_VERSION, timestamp, tunnel_port);
    assert(contents(psk, server, packet) == Some(p));
    let nonce = packet.subrange(4, 16);
    assert(pruned(g, now).contains_key(nonce) <==> g.seen.contains_key(nonce) && now
        - g.seen[nonce] <= g.window);
}

/// What a guard holds once a nonce has been taken note of at `now`, with a window from `t` on: what
/// it held, less what is further back than the window, and, if fewer than 4096 nonces are left, the
/// new one.
pub proof fn what_a_guard_holds(g: GuardView, nonce: Seq<u8>, now: u64, t: u64, other: Seq<u8>)
    ensures
        ({
            let kept = pruned(g, now);
            let all = recorded(g, nonce, now, t);
            &&& kept.contains_key(other) <==> g.seen.contains_key(other) && now - g.seen[other]
                <= g.window
            &&& kept.contains_key(other) ==> kept[other] == g.seen[other]
            &&& other != nonce ==> (all.contains_key(other) <==> kept.contains_key(other))
            &&& other != nonce && all.contains_key(other) ==> all[other] == g.seen[other]
            &&& kept.len() < 4096 ==> all.contains_key(nonce) && all[nonce] == t
            &&& kept.len() >= 4096 ==> all == kept
        }),
{
}

/// What opening a packet does to a guard: an accepted packet is taken note of, with a window from the
/// later of its time and now; a replay leaves what is still remembered; and any other packet changes
/// nothing. The window stays the same.
pub proof fn what_opening_does_to_a_guard(
    psk: Seq<u8>,
    server: Option<Seq<u8>>,
    packet: Seq<u8>,
    now: u64,
    g: GuardView,
)
    ensures
        ({
            let after = guard_after(psk, server, packet, now, g);
            let v = verdict(psk, server, packet, now, g);
            &&& after.window == g.window
            &&& !(v is Accepted || v is Replay) ==> after == g
            &&& v is Replay ==> after.seen == pruned(g, now)
            &&& forall|timestamp: u64, tunnel_port: u16|
                v is Accepted && #[trigger] is_knock(psk, server, tunnel_port, timestamp, packet)
                    ==> after.seen == recorded(
                    g,
                    packet.subrange(4, 16),
                    now,
                    if timestamp > now {
                        timestamp
                    } else {
                        now
                    },
                )
        }),
{
    let after = guard_after(psk, server, packet, now, g);
    assert forall|timestamp: u64, tunnel_port: u16|
        verdict(psk, server, packet, now, g) is Accepted && #[trigger] is_knock(
            psk,
            server,
            tunnel_port,
            timestamp,
            packet,
        ) implies after.seen == recorded(
        g,
        packet.subrange(4, 16),
        now,
        if timestamp > now {
            timestamp
        } else {
            now
        },
    ) by {
        payload_parts(crate::PROTOCOL_VERSION, timestamp, tunnel_port);
    }
}

/// A knock that was sealed for one server is accepted at another one with the same pre-shared key
/// only if the cipher gives the same sealing under the keys of both servers. What is accepted at a
/// server is as `open_for` gives it.
pub proof fn accepted_elsewhere_only_if_sealings_agree(
    psk: Seq<u8>,
    a: Seq<u8>,
    b: Seq<u8>,
    tunnel_port: u16,
    timestamp: u64,
    packet: Seq<u8>,
    now: u64,
    window: u64,
    k: Knock,
)
    requires
        is_knock(psk, Some(a), tunnel_port, timestamp, packet),
        accepted_is_sealed(psk, Some(b), packet, now, window, k),
    ensures
        exists|other: u64|
            crypto::aead_sealed(
                knock_key_of(psk),
                nonce_of(packet),
                magic() + a,
                payload_bytes(crate::PROTOCOL_VERSION, timestamp, tunnel_port),
            ) == crypto::aead_sealed(
                knock_key_of(psk),
                nonce_of(packet),
                magic() + b,
                #[trigger] payload_bytes(crate::PROTOCOL_VERSION, other, k.tunnel_port),
            ),
{
    let other = choose|other: u64| #[trigger]
        is_knock(psk, Some(b), k.tunnel_port, other, packet) && distance(now, other) <= window;
    let key = knock_key_of(psk);
    let nonce = nonce_of(packet);
    let x = crypto::aead_sealed(
        key,
        nonce,
        binding(Some(a)),
        payload_bytes(crate::PROTOCOL_VERSION, timestamp, tunnel_port),
    );
    let y = crypto::aead_sealed(
        key,
        nonce,
        binding(Some(b)),
        payload_bytes(crate::PROTOCOL_VERSION, other, k.tunnel_port),
    );
    let head = magic() + nonce;
    assert(head + x == head + y);
    assert((head + x).skip(head.len() as int) =~= x);
    assert((head + y).skip(head.len() as int) =~= y);
}

fn open_bound(
    psk: &Psk,
    server: Option<&PublicKey>,
    packet: &[u8],
    now: u64,
    replay: &mut ReplayGuard,
) -> (r: Result<Knock, Error>)
    requires
        old(replay).wf(),
    ensures
        final(replay).wf(),
        error::outcome(r) == told(verdict(psk@, bound_to(server), packet@, now, old(replay)@)),
        final(replay)@ == guard_after(psk@, bound_to(server), packet@, now, old(replay)@),
        r matches Ok(k) ==> accepted_is_sealed(
            psk@,
            bound_to(server),
            packet@,
            now,
            old(replay)@.window,
            k,
        ),
{
    if packet.len() != PACKET_LEN {
        return Err(Error::protocol("knock: bad length"));
    }
    let m = magic_bytes();
    let head = vstd::slice::slice_subrange(packet, 0, 4);
    assert(head@ =~= packet@.take(4));
    if !bytes::same(head, m.as_slice()) {
        return Err(Error::protocol("knock: bad magic"));
    }
    let nonce = bytes::first12(vstd::slice::slice_subrange(packet, 4, 44));
    assert(nonce@ =~= nonce_of(packet@));
    let ciphertext = vstd::slice::slice_subrange(packet, 16, 44);
    let key = knock_key(psk);
    let aad = binding_bytes(server);
    let plaintext = match crypto::aead_open(&key, &nonce, aad.as_slice(), ciphertext) {
        Some(p) => p,
        None => {
            return Err(Error::Unauthorized);
        },
    };
    let ghost p = plaintext@;
    assert(p.len() == 12);
    let version: u16 = bytes::u16_from_be(plaintext[0], plaintext[1]);
    assert(p.take(2) =~= seq![p[0], p[1]]);
    if version != crate::PROTOCOL_VERSION {
        return Err(Error::protocol("knock: version mismatch"));
    }
    proof {
        payload_whole(p, version);
    }
    let time = vstd::slice::slice_subrange(plaintext.as_slice(), 2, 10);
    assert(time@ =~= p.subrange(2, 10));
    let timestamp: u64 = bytes::u64_from_be(time);
    let tunnel_port: u16 = bytes::u16_from_be(plaintext[10], plaintext[11]);
    assert(p.subrange(10, 12) =~= seq![p[10], p[11]]);
    let apart: u64 = if now < timestamp {
        timestamp - now
    } else {
        now - timestamp
    };
    if apart > replay.window() {
        return Err(Error::protocol("knock: stale timestamp"));
    }
    let kept_from: u64 = if timestamp > now {
        timestamp
    } else {
        now
    };
    if !replay.check_and_record_from(nonce, now, kept_from) {
        return Err(Error::protocol("knock: replay"));
    }
    proof {
        assert(packet@ =~= magic() + nonce@ + ciphertext@);
        assert(is_knock(psk@, bound_to(server), tunnel_port, timestamp, packet@));
        assert(distance(now, timestamp) <= old(replay)@.window);
    }
    let k = Knock { tunnel_port };
    assert(is_knock(psk@, bound_to(server), k.tunnel_port, timestamp, packet@));
    Ok(k)
}

/// Opens a knock that is meant for any server.
pub fn open(psk: &Psk, packet: &[u8], now: u64, replay: &mut ReplayGuard) -> (r: Result<
    Knock,
    Error,
>)
    requires
        old(replay).wf(),
    ensures
        final(replay).wf(),
        error::outcome(r) == told(verdict(psk@, None, packet@, now, old(replay)@)),
        final(replay)@ == guard_after(psk@, None, packet@, now, old(replay)@),
        r matches Ok(k) ==> accepted_is_sealed(
            psk@,
            None,
            packet@,
            now,
            old(replay)@.window,
            k,
        ),
{
    open_bound(psk, None, packet, now, replay)
}

/// Opens a knock that is meant for the server with the given key, and for no other.
pub fn open_for(
    psk: &Psk,
    server: &PublicKey,
    packet: &[u8],
    now: u64,
    replay: &mut ReplayGuard,
) -> (r: Result<Knock, Error>)
    requires
        old(replay).wf(),
    ensures
        final(replay).wf(),
        error::outcome(r) == told(verdict(psk@, Some(server@), packet@, now, old(replay)@)),
        final(replay)@ == guard_after(psk@, Some(server@), packet@, now, old(replay)@),
        r matches Ok(k) ==> accepted_is_sealed(
            psk@,
            Some(server@),
            packet@,
            now,
            old(replay)@.window,
            k,
        ),
{
    open_bound(psk, Some(server), packet, now, replay)
}

} // verus!
