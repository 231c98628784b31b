//! The admin's side of a tunnel: knocking, dialling, and keeping a pool of connections.
use crate::net::{self, IpAddr, Ipv4Addr, SocketAddr};
use crate::text;
use crate::tunnel::crypto;
use crate::tunnel::error::{self, Error};
use crate::tunnel::handshake::ClientHandshake;
use crate::tunnel::keys::{PublicKey, SecretKey};
use crate::tunnel::knock;
use crate::tunnel::protocol::ConnectResponse;
use crate::tunnel::psk::Psk;
use vstd::arithmetic::power2;
use vstd::prelude::*;

verus! {

broadcast use vstd::seq_lib::group_seq_properties;

/// How often a connection is tried after a knock.
pub const KNOCK_RETRY_ATTEMPTS: usize = 6;

pub const KNOCK_RETRY_DELAY_MS: u64 = 150;

pub const BACKOFF_INITIAL_MS: u64 = 250;

pub const BACKOFF_MAX_MS: u64 = 15000;

pub const KEEPALIVE_IDLE_SECS: u64 = 20;

/// How many rounds over the pool are made for a live connection.
pub const OPEN_GRACE_ATTEMPTS: usize = 20;

pub const OPEN_GRACE_DELAY_MS: u64 = 100;

/// The firewall mark on the tunnel's own sockets, by which policy routing keeps them off the TUN
/// device.
pub const DEFAULT_FWMARK: u32 = 0x6879;

/// Where knocks go.
#[derive(Clone, Copy, Debug, PartialEq, Eq, Structural)]
pub struct KnockSettings {
    pub port: u16,
}

/// What is needed to build a tunnel to a server.
pub struct TunnelParams {
    pub static_secret: SecretKey,
    pub server_pubkey: PublicKey,
    pub psk: Psk,
    pub knock: Option<KnockSettings>,
    pub fwmark: Option<u32>,
}

/// A knock to send: from which local address, to where, and what.
pub struct KnockDatagram {
    pub bind: SocketAddr,
    pub target: SocketAddr,
    pub packet: Vec<u8>,
}

/// Any local address of the target's family, any port.
pub open spec fn any_local(target: SocketAddr) -> SocketAddr {
    net::endpoint(
        if target.ip is V4 {
            IpAddr::V4(Ipv4Addr { bits: 0 })
        } else {
            IpAddr::V6(0)
        },
        0,
    )
}

fn bind_addr(target: &SocketAddr) -> (r: SocketAddr)
    ensures
        r == any_local(*target),
{
    if target.is_ipv4() {
        SocketAddr::new(IpAddr::V4(Ipv4Addr { bits: 0 }), 0)
    } else {
        SocketAddr::new(IpAddr::V6(0), 0)
    }
}

/// The datagram that carries a sealed knock to `target`. Without a knock, and only then, there is
/// none.
pub fn knock_datagram(target: SocketAddr, sealed: Option<Vec<u8>>) -> (r: Option<KnockDatagram>)
    ensures
        match sealed {
            Some(packet) => r matches Some(d) && d.target == target && d.bind == any_local(target)
                && d.packet@ == packet@,
            None => r is None,
        },
{
    match sealed {
        Some(packet) => Some(KnockDatagram { bind: bind_addr(&target), target, packet }),
        None => None,
    }
}

/// The datagram of a knock for any server at `target`. There is none if the system has no random
/// bytes to give.
pub fn send_knock(target: SocketAddr, psk: &Psk, tunnel_port: u16) -> (r: Option<KnockDatagram>)
    ensures
        r matches Some(d) ==> d.target == target && d.bind == any_local(target)
            && exists|timestamp: u64| #[trigger]
            knock::is_knock(psk@, None, tunnel_port, timestamp, d.packet@),
{
    let sealed = knock::seal(psk, tunnel_port);
    let ghost packet = sealed->0@;
    let r = knock_datagram(target, sealed);
    proof {
        if let Some(d) = &r {
            let t = choose|t: u64| #[trigger] knock::is_knock(psk@, None, tunnel_port, t, packet);
            assert(knock::is_knock(psk@, None, tunnel_port, t, d.packet@));
        }
    }
    r
}

/// What goes before dialling.
pub enum BeforeDial {
    /// Dial at once.
    Nothing,
    /// Send this first.
    Knock(KnockDatagram),
    /// There is no knock, for want of random bytes.
    NoRandomness,
}

impl TunnelParams {
    /// What goes before dialling `addr`, once a knock for it has been sealed or could not be: if
    /// knocks are on, the sealed one goes to the knock port of the same host.
    pub fn before_dial_with(&self, addr: SocketAddr, sealed: Option<Vec<u8>>) -> (r: BeforeDial)
        ensures
            match (self.knock, sealed) {
                (None, _) => r is Nothing,
                (Some(k), Some(p)) => r matches BeforeDial::Knock(d) && d.target == net::endpoint(
                    addr.ip,
                    k.port,
                ) && d.bind == any_local(d.target) && d.packet@ == p@,
                (Some(_), None) => r is NoRandomness,
            },
    {
        match self.knock {
            None => BeforeDial::Nothing,
            Some(k) => match knock_datagram(SocketAddr::new(addr.ip(), k.port), sealed) {
                Some(d) => BeforeDial::Knock(d),
                None => BeforeDial::NoRandomness,
            },
        }
    }

    /// What goes before dialling `addr`: if knocks are on, one for the tunnel port, bound to the
    /// server's key, to the knock port of the same host.
    pub fn before_dial(&self, addr: SocketAddr) -> (r: BeforeDial)
        ensures
            self.knock is None <==> r is Nothing,
            r matches BeforeDial::Knock(d) ==> d.target == net::endpoint(
                addr.ip,
                self.knock->0.port,
            ) && d.bind == any_local(d.target) && exists|timestamp: u64| #[trigger]
                knock::is_knock(
                    self.psk@,
                    Some(self.server_pubkey@),
                    addr.port,
                    timestamp,
                    d.packet@,
                ),
    {
        if self.knock.is_none() {
            return self.before_dial_with(addr, None);
        }
        let sealed = knock::seal_for(&self.psk, &self.server_pubkey, addr.port());
        let ghost packet = sealed->0@;
        let r = self.before_dial_with(addr, sealed);
        proof {
            if let BeforeDial::Knock(d) = &r {
                let server = Some(self.server_pubkey@);
                let t = choose|t: u64| #[trigger]
                    knock::is_knock(self.psk@, server, addr.port, t, packet);
                assert(knock::is_knock(self.psk@, server, addr.port, t, d.packet@));
            }
        }
        r
    }

    /// What the admin brings to a handshake.
    pub fn handshake(&self) -> (r: ClientHandshake<'_>)
        ensures
            r.static_secret@ == self.static_secret@,
            r.server_pubkey@ == self.server_pubkey@,
            r.psk@ == self.psk@,
    {
        ClientHandshake {
            static_secret: &self.static_secret,
            server_pubkey: &self.server_pubkey,
            psk: &self.psk,
        }
    }
}

/// What follows a failed attempt to connect.
#[derive(Clone, Copy, Debug, PartialEq, Eq, Structural)]
pub enum RetryAction {
    /// Wait this many milliseconds and try again.
    Retry(u64),
    /// Report the failure.
    GiveUp,
}

/// The attempts to connect that are left.
#[derive(Clone, Copy, Debug, PartialEq, Eq, Structural)]
pub struct ConnectRetry {
    pub left: usize,
}

impl ConnectRetry {
    /// After a knock the port may take a moment to open, so more than one attempt is made.
    pub fn new(knocked: bool) -> (r: Self)
        ensures
            r.left == if knocked { KNOCK_RETRY_ATTEMPTS } else { 1 },
    {
        ConnectRetry {
            left: if knocked {
                KNOCK_RETRY_ATTEMPTS
            } else {
                1
            },
        }
    }

    /// Takes note of a failed attempt.
    pub fn failed(&mut self) -> (r: RetryAction)
        requires
            old(self).left > 0,
        ensures
            final(self).left == old(self).left - 1,
            r == (if final(self).left > 0 {
                RetryAction::Retry(KNOCK_RETRY_DELAY_MS)
            } else {
                RetryAction::GiveUp
            }),
    {
        self.left = self.left - 1;
        if self.left > 0 {
            RetryAction::Retry(KNOCK_RETRY_DELAY_MS)
        } else {
            RetryAction::GiveUp
        }
    }
}

/// What two random bytes give as a jitter, in milliseconds.
pub open spec fn jitter_of(b: Seq<u8>) -> nat {
    ((b[0] + 256 * b[1]) % 500) as nat
}

/// The jitter of two bytes.
pub fn jitter(lo: u8, hi: u8) -> (r: u64)
    ensures
        r == jitter_of(seq![lo, hi]),
        r < 500,
{
    (lo as u64 + 256 * hi as u64) % 500
}

/// The jitter of the bytes that were drawn for it; zero without them.
pub fn drawn_jitter(drawn: Option<Vec<u8>>) -> (r: u64)
    requires
        drawn matches Some(b) ==> b@.len() == 2,
    ensures
        r == (match drawn {
            Some(b) => jitter_of(b@),
            None => 0,
        }),
        r < 500,
{
    match drawn {
        Some(b) => jitter(b[0], b[1]),
        None => 0,
    }
}

/// A random jitter, in milliseconds; zero if the system has no random bytes to give.
pub fn backoff_jitter() -> (r: u64)
    ensures
        r < 500,
{
    drawn_jitter(crypto::random_bytes(2))
}

/// The delay before the next attempt to connect: it doubles up to a limit.
#[derive(Clone, Copy, Debug, PartialEq, Eq, Structural)]
pub struct Backoff {
    pub current_ms: u64,
}

/// The delay after `n` attempts in a row that did not connect.
pub open spec fn delay_after(n: nat) -> nat
    decreases n,
{
    if n == 0 {
        BACKOFF_INITIAL_MS as nat
    } else {
        let doubled = 2 * delay_after((n - 1) as nat);
        if doubled < BACKOFF_MAX_MS {
            doubled
        } else {
            BACKOFF_MAX_MS as nat
        }
    }
}

/// The delay never leaves its bounds, and never shrinks.
pub proof fn delay_is_bounded(n: nat)
    ensures
        BACKOFF_INITIAL_MS <= delay_after(n) <= BACKOFF_MAX_MS,
        delay_after(n) <= delay_after(n + 1),
    decreases n,
{
    if n > 0 {
        delay_is_bounded((n - 1) as nat);
    }
}

/// The delay is a quarter of a second, doubled once for every attempt in a row that did not connect,
/// but never more than fifteen seconds.
pub proof fn the_delay_doubles(n: nat)
    ensures
        delay_after(n) == (if 250 * power2::pow2(n) < 15000 {
            250 * power2::pow2(n)
        } else {
            15000
        }),
    decreases n,
{
    if n == 0 {
        power2::lemma2_to64();
    } else {
        the_delay_doubles((n - 1) as nat);
        power2::lemma_pow2_unfold(n);
    }
}

impl Backoff {
    /// Whether the delay is the one after `n` attempts in a row that did not connect.
    pub open spec fn after(self, n: nat) -> bool {
        self.current_ms == delay_after(n)
    }

    pub fn new() -> (r: Self)
        ensures
            r.after(0),
    {
        Backoff { current_ms: BACKOFF_INITIAL_MS }
    }

    /// A connection was made: the next delay is the shortest again.
    pub fn connected(&mut self)
        ensures
            final(self).after(0),
    {
        self.current_ms = BACKOFF_INITIAL_MS;
    }

    /// How long to wait now, with the given jitter; the next delay is twice as long, up to the
    /// limit.
    pub fn wait(&mut self, jitter_ms: u64) -> (r: u64)
        requires
            old(self).current_ms <= BACKOFF_MAX_MS,
            jitter_ms < 500,
        ensures
            r == old(self).current_ms + jitter_ms,
            final(self).current_ms == if 2 * old(self).current_ms < BACKOFF_MAX_MS {
                2 * old(self).current_ms
            } else {
                BACKOFF_MAX_MS as int
            },
            forall|n: nat| #[trigger] old(self).after(n) ==> final(self).after(n + 1),
    {
        let r: u64 = self.current_ms + jitter_ms;
        let doubled: u64 = self.current_ms * 2;
        self.current_ms = if doubled < BACKOFF_MAX_MS {
            doubled
        } else {
            BACKOFF_MAX_MS
        };
        r
    }
}

/// A delay is the one after so many attempts in a row that did not connect exactly if it is a quarter
/// of a second doubled as often, up to fifteen seconds; after a connection it is a quarter of a second.
pub proof fn delays_are_told_by_attempts(b: Backoff, n: nat)
    ensures
        b.after(n) <==> b.current_ms == (if 250 * power2::pow2(n) < 15000 {
            250 * power2::pow2(n)
        } else {
            15000
        }),
        b.after(0) <==> b.current_ms == 250,
{
    the_delay_doubles(n);
    the_delay_doubles(0);
    power2::lemma2_to64();
}

/// What happens to one connection of a pool.
#[derive(Clone, Copy, Debug, PartialEq, Eq, Structural)]
pub enum SupervisorEvent {
    /// A tunnel has been built.
    Connected,
    /// No tunnel could be built.
    DialFailed,
    /// The tunnel is gone.
    Dropped,
    /// The wait is over.
    Waited,
}

/// What the supervisor of a connection does.
#[derive(Clone, Copy, Debug, PartialEq, Eq, Structural)]
pub enum SupervisorAction {
    /// Build a tunnel.
    Dial,
    /// Put the tunnel into the pool's slot, and drive it until it is gone.
    Drive,
    /// Empty the pool's slot, and wait this many milliseconds.
    Wait(u64),
}

/// The supervisor of one connection of a pool: it builds tunnels, one after the other, for as long
/// as the pool exists.
#[derive(Clone, Copy, Debug, PartialEq, Eq, Structural)]
pub struct Supervisor {
    pub backoff: Backoff,
    pub live: bool,
}

impl Supervisor {
    pub open spec fn wf(self) -> bool {
        BACKOFF_INITIAL_MS <= self.backoff.current_ms <= BACKOFF_MAX_MS
    }

    pub fn new() -> (r: Self)
        ensures
            r.wf(),
            r.backoff.after(0),
            !r.live,
    {
        Supervisor { backoff: Backoff::new(), live: false }
    }

    /// Takes an event and says what to do next; `jitter_ms` is added to a wait. A connection resets
    /// the delay, and every wait doubles the next one up to the limit.
    pub fn step(&mut self, e: SupervisorEvent, jitter_ms: u64) -> (r: SupervisorAction)
        requires
            old(self).wf(),
            jitter_ms < 500,
        ensures
            final(self).wf(),
            match e {
                SupervisorEvent::Connected => r == SupervisorAction::Drive && final(self).live
                    && final(self).backoff.after(0),
                SupervisorEvent::Waited => r == SupervisorAction::Dial && *final(self) == *old(
                    self,
                ),
                SupervisorEvent::DialFailed | SupervisorEvent::Dropped => r
                    == SupervisorAction::Wait((old(self).backoff.current_ms + jitter_ms) as u64)
                    && !final(self).live && final(self).backoff.current_ms == (if 2 * old(
                    self,
                ).backoff.current_ms < BACKOFF_MAX_MS {
                    2 * old(self).backoff.current_ms
                } else {
                    BACKOFF_MAX_MS as int
                }) && (forall|n: nat| #[trigger]
                    old(self).backoff.after(n) ==> final(self).backoff.after(n + 1)),
            },
    {
        match e {
            SupervisorEvent::Connected => {
                self.backoff.connected();
                self.live = true;
                SupervisorAction::Drive
            },
            SupervisorEvent::Waited => SupervisorAction::Dial,
            SupervisorEvent::DialFailed | SupervisorEvent::Dropped => {
                self.live = false;
                let ms: u64 = self.backoff.wait(jitter_ms);
                SupervisorAction::Wait(ms)
            },
        }
    }
}

/// How many connections a pool holds: at least one.
pub fn pool_size(size: usize) -> (r: usize)
    ensures
        r == if size == 0 { 1 } else { size },
{
    if size == 0 {
        1
    } else {
        size
    }
}

/// The number of slots with a live connection.
pub open spec fn live_count(live: Seq<bool>) -> nat {
    live.filter(|b: bool| b).len()
}

/// A slot more counts if and only if its connection is live.
pub proof fn live_slots_are_counted(live: Seq<bool>, last: bool)
    ensures
        live_count(Seq::empty()) == 0,
        live_count(live.push(last)) == live_count(live) + if last {
            1int
        } else {
            0
        },
{
    reveal(Seq::filter);
    assert(live.push(last).drop_last() =~= live);
}

/// The number of slots with a live connection.
pub fn live_slots(live: &[bool]) -> (r: usize)
    ensures
        r == live_count(live@),
        r > 0 <==> exists|i: int| 0 <= i < live@.len() && live@[i],
{
    let mut n: usize = 0;
    let mut i: usize = 0;
    let ghost yes = |b: bool| b;
    assert(live@.take(0).filter(yes) =~= Seq::<bool>::empty());
    while i < live.len()
        invariant
            i <= live@.len(),
            yes == (|b: bool| b),
            n == live@.take(i as int).filter(yes).len(),
            n <= i,
            n > 0 <==> exists|j: int| 0 <= j < i && live@[j],
        decreases live@.len() - i,
    {
        proof {
            assert(live@.take(i + 1).drop_last() =~= live@.take(i as int));
            reveal(Seq::filter);
        }
        if live[i] {
            n = n + 1;
            assert(live@[i as int]);
        }
        i = i + 1;
    }
    assert(live@.take(live@.len() as int) =~= live@);
    n
}

/// The slot that a counter points at.
pub fn slot_index(counter: usize, slots: usize) -> (r: usize)
    requires
        slots > 0,
    ensures
        r == counter % slots,
        r < slots,
{
    counter % slots
}

/// Counting on by one for each slot points at every slot once.
pub proof fn every_slot_has_its_turn(counter: nat, slots: nat, i: nat)
    requires
        i < slots,
    ensures
        exists|k: nat| k < slots && #[trigger] ((counter + k) % slots) == i,
        forall|a: nat, b: nat|
            a < b < slots ==> #[trigger] ((counter + a) % slots) != #[trigger] ((counter + b)
                % slots),
{
    let c = counter % slots;
    let k: nat = if i >= c {
        (i - c) as nat
    } else {
        (i + slots - c) as nat
    };
    vstd::arithmetic::div_mod::lemma_fundamental_div_mod(counter as int, slots as int);
    let q = counter / slots;
    assert(counter == slots * q + c);
    assert(q * slots == slots * q && (q + 1) * slots == slots * q + slots) by (nonlinear_arith);
    if i >= c {
        assert(counter + k == q * slots + i);
        vstd::arithmetic::div_mod::lemma_fundamental_div_mod_converse(
            (counter + k) as int,
            slots as int,
            q as int,
            i as int,
        );
    } else {
        assert(counter + k == (q + 1) * slots + i);
        vstd::arithmetic::div_mod::lemma_fundamental_div_mod_converse(
            (counter + k) as int,
            slots as int,
            (q + 1) as int,
            i as int,
        );
    }
    assert((counter + k) % slots == i);
    assert forall|a: nat, b: nat| a < b < slots implies #[trigger] ((counter + a) % slots)
        != #[trigger] ((counter + b) % slots) by {
        let x = counter + a;
        let y = counter + b;
        vstd::arithmetic::div_mod::lemma_fundamental_div_mod(x as int, slots as int);
        vstd::arithmetic::div_mod::lemma_fundamental_div_mod(y as int, slots as int);
        if x % slots == y % slots {
            let p = x as int / slots as int;
            let r = y as int / slots as int;
            assert(slots * r - slots * p == b - a);
            assert(false) by (nonlinear_arith)
                requires
                    slots * r - slots * p == b - a,
                    0 < b - a < slots,
                    slots > 0,
            ;
        }
    }
}

/// What a search for a live connection does next.
#[derive(Clone, Copy, Debug, PartialEq, Eq, Structural)]
pub enum SearchAction {
    /// Try the next slot.
    Try,
    /// Wait this many milliseconds before another round.
    Sleep(u64),
    /// There is no live connection.
    GiveUp,
}

/// A search over a pool: the rounds left, and the slots left in this round.
#[derive(Clone, Copy, Debug, PartialEq, Eq, Structural)]
pub struct PoolSearch {
    pub slots: usize,
    pub rounds: usize,
    pub tries: usize,
}

impl PoolSearch {
    pub open spec fn wf(self) -> bool {
        self.tries <= self.slots
    }

    pub fn new(slots: usize) -> (r: Self)
        ensures
            r == (PoolSearch { slots, rounds: OPEN_GRACE_ATTEMPTS, tries: slots }),
            r.wf(),
    {
        PoolSearch { slots, rounds: OPEN_GRACE_ATTEMPTS, tries: slots }
    }

    /// What to do next, when nothing tried so far gave a connection: each round tries every slot
    /// and then waits.
    pub fn next(&mut self) -> (r: SearchAction)
        requires
            old(self).wf(),
        ensures
            final(self).wf(),
            r == (if old(self).rounds == 0 {
                SearchAction::GiveUp
            } else if old(self).tries > 0 {
                SearchAction::Try
            } else {
                SearchAction::Sleep(OPEN_GRACE_DELAY_MS)
            }),
            *final(self) == (match r {
                SearchAction::GiveUp => *old(self),
                SearchAction::Try => PoolSearch {
                    tries: (old(self).tries - 1) as usize,
                    ..*old(self)
                },
                SearchAction::Sleep(_) => PoolSearch {
                    rounds: (old(self).rounds - 1) as usize,
                    tries: old(self).slots,
                    ..*old(self)
                },
            }),
            !(r is GiveUp) ==> final(self).remaining() == old(self).remaining() - 1,
    {
        if self.rounds == 0 {
            return SearchAction::GiveUp;
        }
        if self.tries > 0 {
            self.tries = self.tries - 1;
            return SearchAction::Try;
        }
        proof {
            let r = self.rounds as int;
            let s = self.slots as int;
            assert((r - 1 - 1) * (s + 1) + s + 1 == (r - 1) * (s + 1)) by (nonlinear_arith);
            assert(r == 1 ==> (r - 1) * (s + 1) == 0) by (nonlinear_arith);
        }
        self.rounds = self.rounds - 1;
        self.tries = self.slots;
        SearchAction::Sleep(OPEN_GRACE_DELAY_MS)
    }

    /// The tries and waits before the search gives up.
    pub open spec fn remaining(self) -> int {
        if self.rounds == 0 {
            0
        } else {
            (self.rounds - 1) * (self.slots + 1) + self.tries + 1
        }
    }

    /// What a search that has given up reports.
    pub fn exhausted() -> (r: Error)
        ensures
            r@ == error::violation("no live tunnel to server"),
    {
        Error::protocol("no live tunnel to server")
    }
}

/// What a pool reports that did not connect in time.
pub fn connect_timed_out(addr: &str) -> (r: Error)
    ensures
        r@ == error::ErrorView::Protocol("timed out connecting to "@ + addr@),
{
    Error::Protocol("timed out connecting to ".to_owned().concat(addr))
}

/// What a forward reports for an answer.
pub open spec fn forwarded(resp: ConnectResponse, port: u16) -> Result<(), error::ErrorView> {
    match resp {
        ConnectResponse::Connected => Ok(()),
        ConnectResponse::Denied => Err(
            error::ErrorView::EgressDenied("port "@ + text::decimal(port as nat)),
        ),
        ConnectResponse::Unreachable => Err(
            error::ErrorView::Protocol("port "@ + text::decimal(port as nat) + " unreachable"@),
        ),
    }
}

/// Whether to relay after an answer, or what to report.
pub fn forward_outcome(resp: ConnectResponse, port: u16) -> (r: Result<(), Error>)
    ensures
        error::outcome(r) == forwarded(resp, port),
{
    let mut name: String = "port ".to_owned();
    text::push_decimal(&mut name, port as u64);
    match resp {
        ConnectResponse::Connected => Ok(()),
        ConnectResponse::Denied => Err(Error::EgressDenied(name)),
        ConnectResponse::Unreachable => {
            name.append(" unreachable");
            Err(Error::Protocol(name))
        },
    }
}

/// A knock goes out from any address of this host in the family of the target, and from any port.
pub proof fn knocks_go_out_from_anywhere(target: SocketAddr)
    ensures
        any_local(target).ip is V4 <==> target.ip is V4,
        any_local(target).ip == IpAddr::V4(Ipv4Addr { bits: 0 }) || any_local(target).ip
            == IpAddr::V6(0),
        any_local(target).port == 0,
        any_local(target).flowinfo == 0 && any_local(target).scope_id == 0,
{
}

/// Two random bytes give a jitter below half a second: the number that they hold, the lower byte
/// first, as far as it goes beyond a multiple of 500.
pub proof fn what_the_jitter_is(lo: u8, hi: u8)
    ensures
        jitter_of(seq![lo, hi]) < 500,
        (lo + 256 * hi - jitter_of(seq![lo, hi])) % 500 == 0,
        jitter_of(seq![lo, hi]) <= lo + 256 * hi,
{
}

/// A forward goes on exactly if the server has connected; a port that is denied, and one that is not
/// reached, are told apart and named.
pub proof fn forwards_go_on_if_connected(resp: ConnectResponse, port: u16)
    ensures
        forwarded(resp, port) is Ok <==> resp is Connected,
        resp is Denied <==> (forwarded(resp, port) matches Err(e) && e is EgressDenied),
        resp is Unreachable <==> (forwarded(resp, port) matches Err(e) && e is Protocol),
        resp is Denied ==> (forwarded(resp, port) matches Err(error::ErrorView::EgressDenied(m))
            && m == "port "@ + text::decimal(port as nat)),
        resp is Unreachable ==> (forwarded(resp, port) matches Err(error::ErrorView::Protocol(m))
            && m == "port "@ + text::decimal(port as nat) + " unreachable"@),
{
}

/// A search over a pool makes twenty rounds, and in each a try of every slot and a pause.
pub proof fn how_long_a_search_goes_on(s: PoolSearch)
    requires
        s.wf(),
    ensures
        s.rounds == 20 && s.tries == s.slots ==> s.remaining() == 20 * (s.slots + 1),
        s.remaining() >= 0,
        s.remaining() == 0 <==> s.rounds == 0,
{
    if s.rounds > 0 {
        let r = s.rounds as int;
        let k = s.slots as int;
        assert((r - 1) * (k + 1) >= 0) by (nonlinear_arith)
            requires
                r >= 1,
                k >= 0,
        ;
        assert(r == 20 ==> (r - 1) * (k + 1) == 19 * (k + 1)) by (nonlinear_arith);
    }
}

/// How often and how long the admin's side tries: six attempts after a knock, 150 milliseconds apart;
/// a quarter of a second to fifteen seconds between tunnels; twenty rounds over the pool, a tenth of a
/// second apart. Connections are kept alive after twenty seconds without traffic, and carry the mark
/// by which they are told apart.
pub proof fn how_the_admin_side_tries()
    ensures
        KNOCK_RETRY_ATTEMPTS == 6 && KNOCK_RETRY_DELAY_MS == 150,
        BACKOFF_INITIAL_MS == 250 && BACKOFF_MAX_MS == 15000,
        OPEN_GRACE_ATTEMPTS == 20 && OPEN_GRACE_DELAY_MS == 100,
        KEEPALIVE_IDLE_SECS == 20,
        DEFAULT_FWMARK == 0x6879,
{
}

} // verus!
