//! The driver of a multiplexed connection: which of its three sources to poll next.
use vstd::prelude::*;

verus! {

/// How many streams a connection carries at most.
pub const MAX_STREAMS: usize = 512;

/// The most that one stream sends at a time.
pub const SPLIT_SEND_SIZE: usize = 16384;

/// How many requests for new streams may wait.
pub const OPEN_BACKLOG: usize = 64;

/// How many streams of the peer may wait to be accepted.
pub const INBOUND_BACKLOG: usize = 128;

/// What the driver does next.
#[derive(Clone, Copy, Debug, PartialEq, Eq, Structural)]
pub enum MuxAction {
    /// Ask the connection for a new stream, for the request that waits.
    PollOutbound,
    /// Ask the connection for a stream of the peer.
    PollInbound,
    /// Ask for another request for a new stream.
    PollRequests,
    /// Wait until one of the sources has something.
    Wait,
    /// The connection is closed.
    Finish,
    /// The connection has failed.
    Fail,
}

/// What became of an action.
#[derive(Clone, Copy, Debug, PartialEq, Eq, Structural)]
pub enum MuxEvent {
    /// A round begins.
    Begin,
    /// The request that waited has been answered, with a stream or with a failure.
    Answered,
    /// There is no new stream yet.
    OutboundPending,
    /// The peer has opened a stream.
    Inbound,
    /// The connection has failed.
    InboundFailed,
    /// The connection is closed.
    InboundClosed,
    /// The peer has not opened a stream.
    InboundPending,
    /// A request for a new stream has come.
    Requested,
    /// No request will come any more.
    RequestsClosed,
    /// No request has come.
    RequestsPending,
}

/// The state of a driver: whether a request waits for its stream, whether requests may still come,
/// and whether anything has happened in this round.
#[derive(Clone, Copy, Debug, PartialEq, Eq, Structural)]
pub struct MuxDriver {
    pub pending: bool,
    pub open: bool,
    pub progress: bool,
}

/// The state after an event.
pub open spec fn stepped(d: MuxDriver, e: MuxEvent) -> MuxDriver {
    match e {
        MuxEvent::Begin => MuxDriver { progress: false, ..d },
        MuxEvent::Answered => MuxDriver { pending: false, progress: true, ..d },
        MuxEvent::Inbound => MuxDriver { progress: true, ..d },
        MuxEvent::Requested => MuxDriver { pending: true, progress: true, ..d },
        MuxEvent::RequestsClosed => MuxDriver { open: false, ..d },
        _ => d,
    }
}

/// What comes first in a round.
pub open spec fn first_action(d: MuxDriver) -> MuxAction {
    if d.pending {
        MuxAction::PollOutbound
    } else {
        MuxAction::PollInbound
    }
}

/// The action after an event, in the state that the event left: a round asks for the stream that a
/// request waits for, then for the peer's streams, then, if no request waits, for requests; a round
/// in which something happened is followed by another.
pub open spec fn next_action(d: MuxDriver, e: MuxEvent) -> MuxAction {
    match e {
        MuxEvent::Begin => first_action(d),
        MuxEvent::Answered => MuxAction::PollInbound,
        MuxEvent::OutboundPending => MuxAction::PollInbound,
        MuxEvent::InboundFailed => MuxAction::Fail,
        MuxEvent::InboundClosed => MuxAction::Finish,
        MuxEvent::Inbound => if !d.pending && d.open {
            MuxAction::PollRequests
        } else {
            first_action(d)
        },
        MuxEvent::InboundPending => if !d.pending && d.open {
            MuxAction::PollRequests
        } else if d.progress {
            first_action(d)
        } else {
            MuxAction::Wait
        },
        MuxEvent::Requested => MuxAction::PollOutbound,
        MuxEvent::RequestsClosed => if d.progress {
            first_action(d)
        } else {
            MuxAction::Wait
        },
        MuxEvent::RequestsPending => if d.progress {
            first_action(d)
        } else {
            MuxAction::Wait
        },
    }
}

/// The state with which the action after an event is taken: a new round starts without progress.
pub open spec fn settled(d: MuxDriver, e: MuxEvent) -> MuxDriver {
    let s = stepped(d, e);
    let ends_round = match e {
        MuxEvent::Inbound | MuxEvent::InboundPending => s.pending || !s.open,
        MuxEvent::Requested | MuxEvent::RequestsClosed | MuxEvent::RequestsPending => true,
        _ => false,
    };
    if ends_round {
        MuxDriver { progress: false, ..s }
    } else {
        s
    }
}

impl MuxDriver {
    /// A driver that takes requests for new streams.
    pub fn client() -> (r: Self)
        ensures
            r == (MuxDriver { pending: false, open: true, progress: false }),
    {
        MuxDriver { pending: false, open: true, progress: false }
    }

    /// A driver that only accepts the peer's streams.
    pub fn server() -> (r: Self)
        ensures
            r == (MuxDriver { pending: false, open: false, progress: false }),
    {
        MuxDriver { pending: false, open: false, progress: false }
    }

    fn first(&self) -> (r: MuxAction)
        ensures
            r == first_action(*self),
    {
        if self.pending {
            MuxAction::PollOutbound
        } else {
            MuxAction::PollInbound
        }
    }

    fn end_round(&mut self) -> (r: MuxAction)
        ensures
            r == (if old(self).progress {
                first_action(*old(self))
            } else {
                MuxAction::Wait
            }),
            *final(self) == (MuxDriver { progress: false, ..*old(self) }),
    {
        let again = self.progress;
        self.progress = false;
        if again {
            self.first()
        } else {
            MuxAction::Wait
        }
    }

    /// Takes an event and says what to do next.
    pub fn step(&mut self, e: MuxEvent) -> (r: MuxAction)
        ensures
            *final(self) == settled(*old(self), e),
            r == next_action(stepped(*old(self), e), e),
            r is Finish <==> e is InboundClosed,
            r is Fail <==> e is InboundFailed,
    {
        match e {
            MuxEvent::Begin => {
                self.progress = false;
                self.first()
            },
            MuxEvent::Answered => {
                self.pending = false;
                self.progress = true;
                MuxAction::PollInbound
            },
            MuxEvent::OutboundPending => MuxAction::PollInbound,
            MuxEvent::InboundFailed => MuxAction::Fail,
            MuxEvent::InboundClosed => MuxAction::Finish,
            MuxEvent::Inbound => {
                self.progress = true;
                if !self.pending && self.open {
                    MuxAction::PollRequests
                } else {
                    self.end_round()
                }
            },
            MuxEvent::InboundPending => {
                if !self.pending && self.open {
                    MuxAction::PollRequests
                } else {
                    self.end_round()
                }
            },
            MuxEvent::Requested => {
                self.pending = true;
                self.progress = true;
                self.end_round()
            },
            MuxEvent::RequestsClosed => {
                self.open = false;
                self.end_round()
            },
            MuxEvent::RequestsPending => self.end_round(),
        }
    }
}

/// The driver ends where the connection has ended, and only there: it finishes when the connection
/// is closed, and fails when the connection has failed.
pub proof fn ends_with_the_connection(d: MuxDriver, e: MuxEvent)
    ensures
        next_action(stepped(d, e), e) is Finish <==> e is InboundClosed,
        next_action(stepped(d, e), e) is Fail <==> e is InboundFailed,
{
}

/// A round asks for the stream that a request waits for, if one waits, and then for the peer's
/// streams; then, if no request waits and requests may come, for a request.
pub proof fn a_round_asks_every_source(d: MuxDriver, e: MuxEvent)
    ensures
        ({
            let next = next_action(stepped(d, e), e);
            let waits = d.pending;
            &&& e is Begin ==> next == (if waits {
                MuxAction::PollOutbound
            } else {
                MuxAction::PollInbound
            })
            &&& e is Answered || e is OutboundPending ==> next is PollInbound
            &&& e is Inbound || e is InboundPending ==> (next is PollRequests <==> !waits && d.open)
            &&& next is PollRequests ==> e is Inbound || e is InboundPending
        }),
{
}

/// At the end of a round the driver goes round again if anything happened in it, asking first for the
/// stream of the request that waits, if one does; if nothing happened, it waits.
pub proof fn a_round_ends_in_another_or_in_waiting(d: MuxDriver, e: MuxEvent)
    requires
        e is Requested || e is RequestsClosed || e is RequestsPending || (e is Inbound
            || e is InboundPending) && (d.pending || !d.open),
    ensures
        ({
            let next = next_action(stepped(d, e), e);
            let happened = d.progress || e is Requested || e is Inbound;
            let waits = d.pending || e is Requested;
            &&& happened && waits ==> next is PollOutbound
            &&& happened && !waits ==> next is PollInbound
            &&& !happened ==> next is Wait
            &&& !settled(d, e).progress
        }),
{
}

/// What a driver keeps: a request waits from when it comes until it is answered, requests may come
/// until they have ended, and what happened counts until the round is over.
pub proof fn what_a_driver_keeps(d: MuxDriver, e: MuxEvent)
    ensures
        settled(d, e).pending <==> e is Requested || d.pending && !(e is Answered),
        settled(d, e).open <==> d.open && !(e is RequestsClosed),
        e is Answered ==> settled(d, e).progress,
        e is Begin ==> !settled(d, e).progress,
        e is Inbound && !d.pending && d.open ==> settled(d, e).progress,
        e is InboundPending && !d.pending && d.open || e is OutboundPending ==> (settled(
            d,
            e,
        ).progress <==> d.progress),
{
}

/// On an idle tunnel a round ends in waiting, with nothing changed: the tunnel stays up.
pub proof fn an_idle_tunnel_stays_up(d: MuxDriver)
    ensures
        ({
            let begun = settled(d, MuxEvent::Begin);
            let asked = if d.pending {
                settled(begun, MuxEvent::OutboundPending)
            } else {
                begun
            };
            let last = if d.pending || !d.open {
                MuxEvent::InboundPending
            } else {
                MuxEvent::RequestsPending
            };
            let before = if d.pending || !d.open {
                asked
            } else {
                settled(asked, MuxEvent::InboundPending)
            };
            &&& next_action(stepped(before, last), last) is Wait
            &&& settled(before, last) == (MuxDriver {
                pending: d.pending,
                open: d.open,
                progress: false,
            })
        }),
{
}

/// A request is taken only while none waits, and a request that waits is given up only by being
/// answered.
pub proof fn one_request_at_a_time(d: MuxDriver, e: MuxEvent)
    ensures
        next_action(stepped(d, e), e) is PollRequests ==> !settled(d, e).pending && settled(
            d,
            e,
        ).open,
        d.pending && !(e is Answered) ==> settled(d, e).pending,
        next_action(stepped(d, e), e) is PollOutbound ==> settled(d, e).pending,
{
}

/// The driver waits only after a round in which nothing happened.
pub proof fn waits_only_when_idle(d: MuxDriver, e: MuxEvent)
    ensures
        next_action(stepped(d, e), e) is Wait ==> !d.progress && !(e is Answered) && !(e is Inbound)
            && !(e is Requested),
{
}

/// What a connection carries at most: 512 streams, which send at most 16384 bytes at a time, 64
/// requests for new streams, and 128 streams of the peer that wait to be accepted.
pub proof fn what_a_connection_carries()
    ensures
        MAX_STREAMS == 512 && SPLIT_SEND_SIZE == 16384,
        OPEN_BACKLOG == 64 && INBOUND_BACKLOG == 128,
{
}

} // verus!
