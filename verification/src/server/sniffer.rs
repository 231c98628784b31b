//! What becomes of each frame that the server sees.
use crate::net::{self, Ipv4Addr};
use crate::tunnel::keys::PublicKey;
use crate::tunnel::knock::{self, ReplayGuard};
use crate::tunnel::packet;
use crate::tunnel::psk::Psk;
use vstd::prelude::*;

verus! {

/// What to do about a frame.
#[derive(Clone, Copy, Debug, PartialEq, Eq, Structural)]
pub enum SniffAction {
    /// Nothing.
    Ignore,
    /// Nothing, but take note: an authentic knock asked for this port, which is not listened on.
    OtherPort(u16),
    /// Open the firewall for this address.
    Allow(Ipv4Addr),
}

/// A listener for knocks.
pub struct Sniffer {
    knock_port: u16,
    tunnel_port: u16,
    psk: Psk,
    server_pub: PublicKey,
    guard: ReplayGuard,
}

/// The state of a listener.
pub struct SnifferView {
    pub knock_port: u16,
    pub tunnel_port: u16,
    pub psk: Seq<u8>,
    pub server_pub: Seq<u8>,
    pub guard: knock::GuardView,
}

impl View for Sniffer {
    type V = SnifferView;

    closed spec fn view(&self) -> SnifferView {
        SnifferView {
            knock_port: self.knock_port,
            tunnel_port: self.tunnel_port,
            psk: self.psk@,
            server_pub: self.server_pub@,
            guard: self.guard@,
        }
    }
}

/// The verdict on the knock in a frame, if the frame holds a datagram for the knock port.
pub open spec fn frame_verdict(s: SnifferView, frame: Seq<u8>, now: u64) -> Option<knock::Verdict> {
    match packet::ethernet_udp(frame) {
        Some(d) => if d.port == s.knock_port {
            Some(knock::verdict(s.psk, Some(s.server_pub), d.payload, now, s.guard))
        } else {
            None
        },
        None => None,
    }
}

/// What to do about a frame: `source` is where its datagram comes from.
pub open spec fn action_for(s: SnifferView, frame: Seq<u8>, now: u64, source: Ipv4Addr) -> SniffAction {
    match frame_verdict(s, frame, now) {
        Some(knock::Verdict::Accepted(port)) => if port == s.tunnel_port {
            SniffAction::Allow(source)
        } else {
            SniffAction::OtherPort(port)
        },
        _ => SniffAction::Ignore,
    }
}

impl Sniffer {
    pub closed spec fn wf(&self) -> bool {
        self.guard.wf()
    }

    /// A listener for knocks on `knock_port` that ask for `tunnel_port`.
    pub fn new(
        knock_port: u16,
        tunnel_port: u16,
        psk: Psk,
        server_pub: PublicKey,
        window_secs: u64,
    ) -> (r: Self)
        ensures
            r.wf(),
            r@ == (SnifferView {
                knock_port,
                tunnel_port,
                psk: psk@,
                server_pub: server_pub@,
                guard: knock::GuardView { seen: Map::empty(), window: window_secs },
            }),
    {
        Sniffer { knock_port, tunnel_port, psk, server_pub, guard: ReplayGuard::new(window_secs) }
    }

    /// What to do about a frame that was seen at `now`.
    pub fn on_frame(&mut self, frame: &[u8], now: u64) -> (r: SniffAction)
        requires
            old(self).wf(),
        ensures
            final(self).wf(),
            frame_outcome(old(self)@, frame@, now, r, final(self)@),
    {
        let ghost before = self@;
        let (source, port, payload) = match packet::parse_ethernet_ipv4_udp(frame) {
            Some(d) => d,
            None => {
                return SniffAction::Ignore;
            },
        };
        assert(packet::parsed(Some((source, port, payload))) == packet::ethernet_udp(frame@));
        if port != self.knock_port {
            assert(action_for(before, frame@, now, source) == SniffAction::Ignore);
            return SniffAction::Ignore;
        }
        let opened = knock::open_for(&self.psk, &self.server_pub, payload, now, &mut self.guard);
        let ghost v = knock::verdict(
            before.psk,
            Some(before.server_pub),
            payload@,
            now,
            before.guard,
        );
        assert(frame_verdict(before, frame@, now) == Some(v));
        let r = match opened {
            Ok(k) => {
                assert(v == knock::Verdict::Accepted(k.tunnel_port));
                if k.tunnel_port != self.tunnel_port {
                    SniffAction::OtherPort(k.tunnel_port)
                } else {
                    SniffAction::Allow(source)
                }
            },
            Err(_) => {
                assert(!(v is Accepted));
                SniffAction::Ignore
            },
        };
        assert(r == action_for(before, frame@, now, source));
        r
    }

    /// What to do about what was received at `now`: a frame, or none where receiving failed, about
    /// which nothing is done.
    pub fn on_received(&mut self, received: Option<&[u8]>, now: u64) -> (r: SniffAction)
        requires
            old(self).wf(),
        ensures
            final(self).wf(),
            receipt_outcome(
                old(self)@,
                match received {
                    Some(frame) => Some(frame@),
                    None => None,
                },
                now,
                r,
                final(self)@,
            ),
    {
        match received {
            Some(frame) => self.on_frame(frame, now),
            None => SniffAction::Ignore,
        }
    }
}

/// What the listener is left with after a frame.
pub open spec fn after_frame(s: SnifferView, frame: Seq<u8>, now: u64) -> SnifferView {
    match frame_verdict(s, frame, now) {
        Some(_) => SnifferView {
            guard: knock::guard_after(
                s.psk,
                Some(s.server_pub),
                packet::ethernet_udp(frame)->0.payload,
                now,
                s.guard,
            ),
            ..s
        },
        None => s,
    }
}

/// What is done about a frame, and what the listener is left with.
pub open spec fn frame_outcome(
    s: SnifferView,
    frame: Seq<u8>,
    now: u64,
    r: SniffAction,
    t: SnifferView,
) -> bool {
    &&& match packet::ethernet_udp(frame) {
        Some(d) => exists|source: Ipv4Addr|
            net::octets_of(source) == d.source && r == #[trigger] action_for(
                s,
                frame,
                now,
                source,
            ),
        None => r is Ignore,
    }
    &&& t == after_frame(s, frame, now)
    &&& r matches SniffAction::Allow(source) ==> allowed_is_authentic(s, frame, now, source)
}

/// What is done about a receipt, of a frame or of none, and what the listener is left with.
pub open spec fn receipt_outcome(
    s: SnifferView,
    received: Option<Seq<u8>>,
    now: u64,
    r: SniffAction,
    t: SnifferView,
) -> bool {
    match received {
        Some(frame) => frame_outcome(s, frame, now, r, t),
        None => r is Ignore && t == s,
    }
}

/// The firewall is opened only for the source of a datagram that holds a knock sealed under the
/// pre-shared key for this server and for the tunnel port, at a time within the window.
pub open spec fn allowed_is_authentic(
    s: SnifferView,
    frame: Seq<u8>,
    now: u64,
    source: Ipv4Addr,
) -> bool {
    packet::ethernet_udp(frame) matches Some(d) && {
        &&& net::octets_of(source) == d.source
        &&& d.port == s.knock_port
        &&& exists|timestamp: u64| #[trigger]
            knock::is_knock(s.psk, Some(s.server_pub), s.tunnel_port, timestamp, d.payload)
                && knock::distance(now, timestamp) <= s.guard.window
    }
}

/// A fresh knock for the tunnel port, sealed under the pre-shared key for this server, opens the
/// firewall for the address that it comes from.
pub proof fn fresh_knock_is_honoured(
    s: SnifferView,
    frame: Seq<u8>,
    now: u64,
    timestamp: u64,
    source: Ipv4Addr,
)
    requires
        packet::ethernet_udp(frame) matches Some(d) && d.port == s.knock_port && knock::is_knock(
            s.psk,
            Some(s.server_pub),
            s.tunnel_port,
            timestamp,
            d.payload,
        ) && !knock::pruned(s.guard, now).contains_key(knock::nonce_of(d.payload)),
        knock::distance(now, timestamp) <= s.guard.window,
    ensures
        action_for(s, frame, now, source) == SniffAction::Allow(source),
{
    let d = packet::ethernet_udp(frame)->0;
    knock::sealed_knock_opens(
        s.psk,
        Some(s.server_pub),
        d.payload,
        s.tunnel_port,
        timestamp,
        now,
        s.guard,
    );
}

/// A knock that arrives on the wire within its window, and whose nonce is not remembered, is acted
/// on, however the frame that brings it is built: with any link addresses, any IPv4 header of 20 to
/// 60 bytes for UDP, any UDP header for the knock port, and anything behind it. If it asks for the
/// tunnel port, the firewall is opened for the address that it comes from; if it asks for another
/// port, that port is noted.
pub proof fn every_fresh_knock_is_acted_on(
    s: SnifferView,
    addresses: Seq<u8>,
    ip_header: Seq<u8>,
    udp_header: Seq<u8>,
    packet: Seq<u8>,
    padding: Seq<u8>,
    asked: u16,
    timestamp: u64,
    now: u64,
    r: SniffAction,
    t: SnifferView,
)
    requires
        addresses.len() == 12,
        20 <= ip_header.len() <= 60,
        4 * (ip_header[0] - 0x40) == ip_header.len(),
        ip_header[9] == 17,
        udp_header.len() == 8,
        256 * udp_header[2] + udp_header[3] == s.knock_port,
        256 * udp_header[4] + udp_header[5] == 8 + packet.len(),
        knock::is_knock(s.psk, Some(s.server_pub), asked, timestamp, packet),
        timestamp - now <= s.guard.window && now - timestamp <= s.guard.window,
        s.guard.seen.contains_key(packet.subrange(4, 16)) ==> now - s.guard.seen[packet.subrange(
            4,
            16,
        )] > s.guard.window,
        frame_outcome(
            s,
            addresses + seq![8u8, 0u8] + (ip_header + udp_header + packet + padding),
            now,
            r,
            t,
        ),
    ensures
        asked == s.tunnel_port ==> (r matches SniffAction::Allow(source) && source.bits
            == ip_header[12] * 0x100_0000 + ip_header[13] * 0x1_0000 + ip_header[14] * 0x100
            + ip_header[15]),
        asked != s.tunnel_port ==> r == SniffAction::OtherPort(asked),
{
    let ip = ip_header + udp_header + packet + padding;
    let frame = addresses + seq![8u8, 0u8] + ip;
    packet::every_datagram_is_found(ip_header, udp_header, packet, padding);
    packet::frames_hold_packets(addresses, 8, 0, ip, Seq::empty());
    knock::accepted_within_the_window(
        s.psk,
        Some(s.server_pub),
        asked,
        timestamp,
        packet,
        now,
        s.guard,
    );
    let d = packet::ethernet_udp(frame)->0;
    let source = choose|source: Ipv4Addr|
        net::octets_of(source) == d.source && r == #[trigger] action_for(s, frame, now, source);
    net::address_of_octets(source);
}

/// Nothing is done about what holds no datagram for the knock port, and about a receipt of nothing;
/// the listener stays as it is.
pub proof fn all_else_is_ignored(
    s: SnifferView,
    received: Option<Seq<u8>>,
    now: u64,
    r: SniffAction,
    t: SnifferView,
)
    requires
        receipt_outcome(s, received, now, r, t),
        received matches Some(frame) ==> (packet::ethernet_udp(frame) matches Some(d) ==> d.port
            != s.knock_port),
    ensures
        r is Ignore,
        t == s,
{
}

/// What the listener keeps of a datagram for the knock port is what opening its payload as a knock
/// leaves; its ports and keys stay the same.
pub proof fn listener_keeps_what_opening_leaves(
    s: SnifferView,
    frame: Seq<u8>,
    now: u64,
    r: SniffAction,
    t: SnifferView,
)
    requires
        frame_outcome(s, frame, now, r, t),
        packet::ethernet_udp(frame) matches Some(d) && d.port == s.knock_port,
    ensures
        t.guard == knock::guard_after(
            s.psk,
            Some(s.server_pub),
            packet::ethernet_udp(frame)->0.payload,
            now,
            s.guard,
        ),
        t.knock_port == s.knock_port && t.tunnel_port == s.tunnel_port,
        t.psk == s.psk && t.server_pub == s.server_pub,
        !(knock::verdict(
            s.psk,
            Some(s.server_pub),
            packet::ethernet_udp(frame)->0.payload,
            now,
            s.guard,
        ) is Accepted) ==> r is Ignore,
{
}

/// Something received, at a time, and what is done about it.
pub struct Receipt {
    pub frame: Option<Seq<u8>>,
    pub now: u64,
    pub action: SniffAction,
}

/// The listener goes through these states by these receipts.
pub open spec fn sniff_run(states: Seq<SnifferView>, receipts: Seq<Receipt>) -> bool {
    &&& states.len() == receipts.len() + 1
    &&& forall|i: int|
        0 <= i < receipts.len() ==> receipt_outcome(
            states[i],
            (#[trigger] receipts[i]).frame,
            receipts[i].now,
            receipts[i].action,
            states[i + 1],
        )
}

/// A knock is acted on once: when it has been, with fewer than 4096 nonces remembered, a frame that
/// brings it again is ignored, at whatever time.
pub proof fn a_knock_is_acted_on_once(
    s: SnifferView,
    first: Seq<u8>,
    now: u64,
    r: SniffAction,
    t: SnifferView,
    again: Seq<u8>,
    later: u64,
    q: SniffAction,
    u: SnifferView,
)
    requires
        frame_outcome(s, first, now, r, t),
        !(r is Ignore),
        knock::pruned(s.guard, now).len() < 4096,
        packet::ethernet_udp(first) matches Some(d) && (packet::ethernet_udp(again) matches Some(e)
            && d.payload == e.payload && e.port == s.knock_port),
        frame_outcome(t, again, later, q, u),
    ensures
        q is Ignore,
{
    let d = packet::ethernet_udp(first)->0;
    let server = Some(s.server_pub);
    assert(knock::guard_after_all(s.psk, server, Seq::empty(), t.guard) == t.guard);
    knock::knock_opens_once(s.psk, server, d.payload, now, Seq::empty(), later, s.guard);
}

/// What a listener is set up with stays the same.
proof fn setup_is_kept(states: Seq<SnifferView>, receipts: Seq<Receipt>, i: int)
    requires
        sniff_run(states, receipts),
        0 <= i < states.len(),
    ensures
        states[i].knock_port == states[0].knock_port,
        states[i].tunnel_port == states[0].tunnel_port,
        states[i].psk == states[0].psk,
        states[i].server_pub == states[0].server_pub,
        states[i].guard.window == states[0].guard.window,
    decreases i,
{
    if i > 0 {
        setup_is_kept(states, receipts, i - 1);
        assert(receipt_outcome(
            states[i - 1],
            receipts[i - 1].frame,
            receipts[i - 1].now,
            receipts[i - 1].action,
            states[i],
        ));
    }
}

/// Whatever is received, in whatever order: the firewall is opened only about a frame, for that
/// frame's own source, where the frame holds a datagram for the knock port with a knock that is
/// accepted at that time, sealed under the pre-shared key for this server and for the tunnel port.
/// All else, and receiving nothing, opens nothing.
pub proof fn only_knocks_open_the_firewall(
    states: Seq<SnifferView>,
    receipts: Seq<Receipt>,
    i: int,
    source: Ipv4Addr,
)
    requires
        sniff_run(states, receipts),
        0 <= i < receipts.len(),
        receipts[i].action == SniffAction::Allow(source),
    ensures
        receipts[i].frame matches Some(frame) && (packet::ethernet_udp(frame) matches Some(d) && {
            &&& d.port == states[0].knock_port
            &&& d.source == net::octets_of(source)
            &&& knock::verdict(
                states[0].psk,
                Some(states[0].server_pub),
                d.payload,
                receipts[i].now,
                states[i].guard,
            ) == knock::Verdict::Accepted(states[0].tunnel_port)
            &&& exists|timestamp: u64| #[trigger]
                knock::is_knock(
                    states[0].psk,
                    Some(states[0].server_pub),
                    states[0].tunnel_port,
                    timestamp,
                    d.payload,
                ) && knock::distance(receipts[i].now, timestamp) <= states[0].guard.window
        }),
{
    setup_is_kept(states, receipts, i);
    assert(receipt_outcome(
        states[i],
        receipts[i].frame,
        receipts[i].now,
        receipts[i].action,
        states[i + 1],
    ));
}

} // verus!
