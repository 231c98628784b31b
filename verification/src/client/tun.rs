//! Which server a connection through the TUN device is for.
use crate::client::config::{self, ServerEntry};
use crate::failure::Failure;
use crate::net::{IpAddr, SocketAddr};
use vstd::prelude::*;

verus! {

/// A connection that an application has opened through the TUN device.
#[derive(Clone, Copy, Debug, PartialEq, Eq, Structural)]
pub enum TunStream {
    /// To this address.
    Tcp(SocketAddr),
    Udp,
    Other,
}

/// What becomes of it.
#[derive(Clone, Copy, Debug, PartialEq, Eq, Structural)]
pub enum TunAction {
    /// It is forwarded to this port of the server with this index.
    Forward(usize, u16),
    /// There is no server for it.
    NoRoute,
    /// It is not carried.
    Unsupported,
}

/// The last server that has this address.
pub open spec fn route_of(routes: Seq<IpAddr>, ip: IpAddr, r: Option<usize>) -> bool {
    match r {
        Some(i) => i < routes.len() && routes[i as int] == ip && forall|j: int|
            i < j < routes.len() ==> #[trigger] routes[j] != ip,
        None => forall|j: int| 0 <= j < routes.len() ==> #[trigger] routes[j] != ip,
    }
}

/// What becomes of a connection.
pub open spec fn tun_action(routes: Seq<IpAddr>, s: TunStream, r: TunAction) -> bool {
    match s {
        TunStream::Tcp(dest) => match r {
            TunAction::Forward(i, port) => route_of(routes, dest.ip, Some(i)) && port == dest.port,
            TunAction::NoRoute => route_of(routes, dest.ip, None),
            TunAction::Unsupported => false,
        },
        _ => r is Unsupported,
    }
}

/// What becomes of a connection: TCP is forwarded to the server that has the address, and to the
/// same port; nothing else is carried.
pub fn on_stream(routes: &[IpAddr], s: TunStream) -> (r: TunAction)
    ensures
        tun_action(routes@, s, r),
{
    match s {
        TunStream::Tcp(dest) => {
            let mut i: usize = routes.len();
            while i > 0
                invariant
                    s == TunStream::Tcp(dest),
                    i <= routes@.len(),
                    forall|j: int| i <= j < routes@.len() ==> #[trigger] routes@[j] != dest.ip,
                decreases i,
            {
                i = i - 1;
                if routes[i] == dest.ip {
                    return TunAction::Forward(i, dest.port);
                }
            }
            TunAction::NoRoute
        },
        _ => TunAction::Unsupported,
    }
}

/// Where servers are reached at their virtual addresses.
pub fn managed_routes(servers: &[ServerEntry]) -> (r: Result<Vec<IpAddr>, Failure>)
    ensures
        match r {
            Ok(v) => servers@.len() > 0 && v@.len() == servers@.len() && forall|i: int|
                0 <= i < v@.len() ==> #[trigger] v@[i] == IpAddr::V4(servers@[i].virtual_ip),
            Err(e) => servers@.len() == 0 && e@ == seq![
                "no servers configured; add one with `hyperion-client add-server`"@,
            ],
        },
{
    if servers.len() == 0 {
        return Err(
            Failure::of("no servers configured; add one with `hyperion-client add-server`"),
        );
    }
    let mut out: Vec<IpAddr> = Vec::new();
    let mut i: usize = 0;
    while i < servers.len()
        invariant
            i <= servers@.len(),
            out@.len() == i,
            forall|j: int| 0 <= j < i ==> #[trigger] out@[j] == IpAddr::V4(servers@[j].virtual_ip),
        decreases servers@.len() - i,
    {
        out.push(IpAddr::V4(servers[i].virtual_ip));
        i = i + 1;
    }
    Ok(out)
}

/// Where servers are reached at their own addresses.
pub fn real_routes(servers: &[ServerEntry]) -> (r: Result<Vec<IpAddr>, Failure>)
    ensures
        match r {
            Ok(v) => servers@.len() > 0 && v@.len() == servers@.len() && forall|i: int|
                0 <= i < v@.len() ==> #[trigger] v@[i] == servers@[i].addr.ip,
            Err(e) => servers@.len() == 0 && e@ == seq!["no servers configured"@],
        },
{
    if servers.len() == 0 {
        return Err(Failure::of("no servers configured"));
    }
    let mut out: Vec<IpAddr> = Vec::new();
    let mut i: usize = 0;
    while i < servers.len()
        invariant
            i <= servers@.len(),
            out@.len() == i,
            forall|j: int| 0 <= j < i ==> #[trigger] out@[j] == servers@[j].addr.ip,
        decreases servers@.len() - i,
    {
        out.push(servers[i].addr.ip());
        i = i + 1;
    }
    Ok(out)
}

/// With the virtual addresses of a loaded configuration as routes, a connection to a server's
/// virtual address is forwarded to that server, on the same port.
pub proof fn every_server_is_reached(
    servers: Seq<config::EntryView>,
    routes: Seq<IpAddr>,
    i: int,
    dest: SocketAddr,
    r: TunAction,
)
    requires
        forall|a: int, b: int|
            0 <= a < b < servers.len() ==> (#[trigger] servers[a]).virtual_ip != (
            #[trigger] servers[b]).virtual_ip,
        routes.len() == servers.len(),
        forall|a: int| 0 <= a < routes.len() ==> #[trigger] routes[a] == IpAddr::V4(
            servers[a].virtual_ip,
        ),
        0 <= i < servers.len() <= usize::MAX,
        dest.ip == IpAddr::V4(servers[i].virtual_ip),
        tun_action(routes, TunStream::Tcp(dest), r),
    ensures
        r == TunAction::Forward(i as usize, dest.port),
{
    assert(routes[i] == dest.ip);
    if let TunAction::Forward(k, port) = r {
        if k < i {
            assert(servers[k as int].virtual_ip != servers[i].virtual_ip);
        } else if k > i {
            assert(servers[i].virtual_ip != servers[k as int].virtual_ip);
        }
    }
}

/// A TCP connection is forwarded exactly if a server has the address that it is for: to the last such
/// server, and to the port that it is for. Nothing else is carried.
pub proof fn what_becomes_of_a_connection(routes: Seq<IpAddr>, s: TunStream, r: TunAction)
    requires
        tun_action(routes, s, r),
    ensures
        s matches TunStream::Tcp(dest) ==> {
            &&& (exists|i: int| 0 <= i < routes.len() && #[trigger] routes[i] == dest.ip)
                <==> r is Forward
            &&& (forall|i: int| 0 <= i < routes.len() ==> #[trigger] routes[i] != dest.ip)
                <==> r is NoRoute
            &&& r matches TunAction::Forward(i, port) ==> i < routes.len() && routes[i as int]
                == dest.ip && port == dest.port && forall|j: int|
                i < j < routes.len() ==> #[trigger] routes[j] != dest.ip
        },
        !(s is Tcp) <==> r is Unsupported,
{
}

} // verus!
