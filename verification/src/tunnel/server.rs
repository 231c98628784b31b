//! The server's side of a tunnel: what a stream may reach.
use crate::tunnel::handshake::ServerHandshake;
use crate::tunnel::keys::{PublicKey, SecretKey};
use crate::tunnel::protocol::{ConnectRequest, ConnectResponse};
use crate::tunnel::psk::Psk;
use std::collections::HashSet;
use vstd::prelude::*;

verus! {

broadcast use {vstd::seq_lib::group_seq_properties, vstd::std_specs::hash::group_hash_axioms};

/// The ports of its own that a server connects streams to.
#[derive(Debug)]
pub struct Egress {
    ports: HashSet<u16>,
}

impl View for Egress {
    type V = Set<u16>;

    closed spec fn view(&self) -> Set<u16> {
        self.ports@
    }
}

impl Clone for Egress {
    fn clone(&self) -> (r: Self)
        ensures
            r@ == self@,
    {
        let mut out: HashSet<u16> = HashSet::new();
        for p in it: self.ports.iter()
            invariant
                it.seq().unref().to_set() == self.ports@,
                out@ == it.seq().unref().take(it.index() as int).to_set(),
        {
            let ghost i = it.index() as int;
            out.insert(*p);
            proof {
                let all = it.seq().unref();
                let before = all.take(i);
                assert(all.take(i + 1) =~= before.push(*p));
                assert(before.push(*p).to_set() =~= before.to_set().insert(*p));
            }
        }
        Egress { ports: out }
    }
}

impl Default for Egress {
    fn default() -> (r: Self)
        ensures
            r@ == Set::<u16>::empty(),
    {
        Egress { ports: HashSet::new() }
    }
}

impl Egress {
    /// No port at all.
    pub fn deny_all() -> (r: Self)
        ensures
            r@ == Set::<u16>::empty(),
    {
        Egress { ports: HashSet::new() }
    }

    /// The given ports and no others.
    pub fn new(ports: &[u16]) -> (r: Self)
        ensures
            r@ == ports@.to_set(),
    {
        let mut set: HashSet<u16> = HashSet::new();
        let mut i: usize = 0;
        assert(ports@.take(0).to_set() =~= Set::<u16>::empty());
        while i < ports.len()
            invariant
                i <= ports@.len(),
                set@ == ports@.take(i as int).to_set(),
            decreases ports@.len() - i,
        {
            set.insert(ports[i]);
            proof {
                let next = ports@.take(i + 1);
                let before = ports@.take(i as int);
                assert(next =~= before.push(ports@[i as int]));
                assert forall|p: u16| set@.contains(p) == next.to_set().contains(p) by {
                    if before.contains(p) {
                        let j = choose|j: int| 0 <= j < before.len() && before[j] == p;
                        assert(next[j] == p);
                    }
                    assert(next[i as int] == ports@[i as int]);
                    if next.contains(p) && p != ports@[i as int] {
                        let j = choose|j: int| 0 <= j < next.len() && next[j] == p;
                        assert(before[j] == p);
                    }
                }
                assert(set@ =~= next.to_set());
            }
            i = i + 1;
        }
        assert(ports@.take(ports@.len() as int) =~= ports@);
        Egress { ports: set }
    }

    pub fn permits(&self, port: u16) -> (r: bool)
        ensures
            r == self@.contains(port),
    {
        self.ports.contains(&port)
    }
}

/// What a server needs to serve a connection.
pub struct ServerConfig {
    pub static_secret: SecretKey,
    pub psk: Psk,
    pub allowed_admins: Vec<PublicKey>,
    pub egress: Egress,
    pub handshake_timeout_ms: u64,
}

/// What a server does with a stream once its request has been read.
#[derive(Clone, Copy, Debug, PartialEq, Eq, Structural)]
pub enum StreamAction {
    /// Answer, and end the stream.
    Reply(ConnectResponse),
    /// Connect to this port of the server itself.
    Dial(u16),
}

/// What a server does with a request: a port that is not permitted is denied and never dialled.
pub open spec fn stream_action(egress: Set<u16>, port: u16) -> StreamAction {
    if egress.contains(port) {
        StreamAction::Dial(port)
    } else {
        StreamAction::Reply(ConnectResponse::Denied)
    }
}

impl ServerConfig {
    /// What the server brings to a handshake.
    pub fn handshake(&self) -> (r: ServerHandshake<'_>)
        ensures
            r.static_secret@ == self.static_secret@,
            r.psk@ == self.psk@,
            r.allowed_admins@ == self.allowed_admins@,
    {
        ServerHandshake {
            static_secret: &self.static_secret,
            psk: &self.psk,
            allowed_admins: self.allowed_admins.as_slice(),
        }
    }

    /// What to do with a request.
    pub fn on_request(&self, req: ConnectRequest) -> (r: StreamAction)
        ensures
            r == stream_action(self.egress@, req.port),
            self.egress@.contains(req.port) ==> r == StreamAction::Dial(req.port),
            !self.egress@.contains(req.port) ==> r == StreamAction::Reply(ConnectResponse::Denied),
    {
        if !self.egress.permits(req.port) {
            return StreamAction::Reply(ConnectResponse::Denied);
        }
        StreamAction::Dial(req.port)
    }
}

/// The answer once a permitted port has been dialled.
pub fn dial_response(connected: bool) -> (r: ConnectResponse)
    ensures
        r == (if connected {
            ConnectResponse::Connected
        } else {
            ConnectResponse::Unreachable
        }),
{
    if connected {
        ConnectResponse::Connected
    } else {
        ConnectResponse::Unreachable
    }
}

/// A server dials no port that is not permitted, and one that permits nothing dials nothing.
pub proof fn only_permitted_ports_are_dialled(egress: Set<u16>, port: u16)
    ensures
        forall|p: u16| stream_action(egress, port) == StreamAction::Dial(p) ==> p == port
            && egress.contains(p),
        stream_action(Set::<u16>::empty(), port) == StreamAction::Reply(ConnectResponse::Denied),
{
}

/// A port is dialled exactly if it is permitted, and it is that port; a request for any other port
/// is denied.
pub proof fn permitted_ports_are_dialled(egress: Set<u16>, port: u16)
    ensures
        egress.contains(port) <==> stream_action(egress, port) == StreamAction::Dial(port),
        !egress.contains(port) <==> stream_action(egress, port) == StreamAction::Reply(
            ConnectResponse::Denied,
        ),
{
}

/// A server that permits a list of ports dials each port of the list, wherever it stands in it, and
/// denies every port that is not in it.
pub proof fn listed_ports_are_dialled(ports: Seq<u16>, port: u16)
    ensures
        (exists|i: int| 0 <= i < ports.len() && #[trigger] ports[i] == port) <==> stream_action(
            ports.to_set(),
            port,
        ) == StreamAction::Dial(port),
        (forall|i: int| 0 <= i < ports.len() ==> #[trigger] ports[i] != port) <==> stream_action(
            ports.to_set(),
            port,
        ) == StreamAction::Reply(ConnectResponse::Denied),
{
    assert(ports.to_set().contains(port) <==> ports.contains(port));
}

} // verus!
