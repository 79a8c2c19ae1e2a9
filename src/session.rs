use vstd::prelude::*;
use crate::framing::{Decoded, FrameError, IoFailure, Unit};
use crate::registry::{
    ConnectionId, Registry, RegistryView, every_position, is_registered, lists_positions, unique_ids,
    with_entry, without_entry,
};

verus! {

/// An item of a connection's merged stream.
#[derive(Clone, Debug, PartialEq, Eq)]
pub enum Event {
    /// Came from the peer; goes to the process's input.
    ToProcess(Unit),
    /// Came from the connection's queue; goes to the peer.
    FromProcess(Unit),
}

/// One turn of a connection's merged stream.
#[derive(Clone, Debug, PartialEq, Eq)]
pub enum StreamStep {
    Event(Event),
    /// Nothing is ready yet.
    Pending,
    /// The peer's stream ended.
    End,
    /// The peer's stream could not be decoded.
    Failed(FrameError),
}

/// The merge rule: a unit waiting in the queue comes first; otherwise the
/// transport's result, if it was consulted.
pub open spec fn merged(queued: Option<Unit>, transport: Option<Decoded>) -> StreamStep {
    match queued {
        Some(u) => StreamStep::Event(Event::FromProcess(u)),
        None => match transport {
            None => StreamStep::Pending,
            Some(Decoded::Unit(u)) => StreamStep::Event(Event::ToProcess(u)),
            Some(Decoded::NeedMore) => StreamStep::Pending,
            Some(Decoded::End) => StreamStep::End,
            Some(Decoded::Failed(e)) => StreamStep::Failed(e),
        },
    }
}

/// Merges a connection's queue and its transport into one stream. The
/// transport is consulted only when the queue holds nothing, so process
/// output is never held up by a slow peer.
pub fn merge(queued: Option<Unit>, transport: Option<Decoded>) -> (r: StreamStep)
    requires
        queued.is_some() ==> transport.is_none(),
    ensures
        r == merged(queued, transport),
{
    match queued {
        Some(u) => StreamStep::Event(Event::FromProcess(u)),
        None => match transport {
            None => StreamStep::Pending,
            Some(Decoded::Unit(u)) => StreamStep::Event(Event::ToProcess(u)),
            Some(Decoded::NeedMore) => StreamStep::Pending,
            Some(Decoded::End) => StreamStep::End,
            Some(Decoded::Failed(e)) => StreamStep::Failed(e),
        },
    }
}

/// Why a connection ended with an error.
#[derive(Clone, Copy, Debug, PartialEq, Eq, Structural)]
pub enum ConnectionError {
    /// The peer's stream could not be decoded.
    Decode(FrameError),
    /// Writing to the peer failed for another reason than a disconnect.
    Write(IoFailure),
}

/// What a connection does next.
#[derive(Clone, Debug, PartialEq, Eq)]
pub enum Action {
    /// Write the unit to the process's input, through the registry.
    Forward(Unit),
    /// Write the unit to the peer.
    Deliver(Unit),
    /// Nothing to do until the queue or the transport has more.
    Wait,
    /// Leave the loop: deregister the connection; its stream ended.
    Finish,
    /// Leave the loop: deregister the connection and report the error.
    Fail(ConnectionError),
}

/// The action for one turn of the merged stream.
pub open spec fn action_for(step: StreamStep) -> Action {
    match step {
        StreamStep::Event(Event::ToProcess(u)) => Action::Forward(u),
        StreamStep::Event(Event::FromProcess(u)) => Action::Deliver(u),
        StreamStep::Pending => Action::Wait,
        StreamStep::End => Action::Finish,
        StreamStep::Failed(e) => Action::Fail(ConnectionError::Decode(e)),
    }
}

/// The action after a write to the peer failed: a disconnect is passed
/// over, as the transport will soon report the end of its stream.
pub open spec fn action_after_write_failure(k: IoFailure) -> Action {
    if k.spec_is_disconnect() {
        Action::Wait
    } else {
        Action::Fail(ConnectionError::Write(k))
    }
}

/// Whether an action ends the connection.
pub open spec fn closes(a: Action) -> bool {
    a is Finish || a is Fail
}

/// The decisions of one connection, from its registration to its
/// deregistration.
pub struct Session {
    id: ConnectionId,
    open: bool,
}

impl Session {
    /// The connection's identity.
    pub closed spec fn spec_id(&self) -> ConnectionId {
        self.id
    }

    /// Whether the connection still runs.
    pub closed spec fn spec_is_open(&self) -> bool {
        self.open
    }

    /// Registers connection `id` with the sending end of its queue, before
    /// any of its I/O, and starts its session.
    pub fn open<Q>(registry: &mut Registry<Q>, id: ConnectionId, queue: Q) -> (r: Session)
        ensures
            r.spec_id() == id,
            r.spec_is_open(),
            final(registry)@.entries == with_entry(old(registry)@.entries, id, queue),
            final(registry)@.echo == old(registry)@.echo,
            unique_ids(old(registry)@.entries) ==> unique_ids(final(registry)@.entries),
    {
        registry.register(id, queue);
        Session { id, open: true }
    }

    /// Ends the session and deregisters its connection. The session is
    /// used up, so a connection deregisters once.
    pub fn close<Q>(self, registry: &mut Registry<Q>) -> (r: bool)
        ensures
            final(registry)@.entries == without_entry(old(registry)@.entries, self.spec_id()),
            final(registry)@.echo == old(registry)@.echo,
            r == is_registered(old(registry)@.entries, self.spec_id()),
            unique_ids(old(registry)@.entries) ==> unique_ids(final(registry)@.entries),
    {
        registry.deregister(&self.id)
    }

    /// The connection's identity.
    pub fn id(&self) -> (r: ConnectionId)
        ensures
            r == self.spec_id(),
    {
        self.id
    }

    /// Whether the connection still runs.
    pub fn is_open(&self) -> (r: bool)
        ensures
            r == self.spec_is_open(),
    {
        self.open
    }

    /// Decides what to do with one turn of the merged stream. The connection
    /// stops running exactly when the action is to close it.
    pub fn step(&mut self, step: StreamStep) -> (r: Action)
        requires
            old(self).spec_is_open(),
        ensures
            r == action_for(step),
            final(self).spec_id() == old(self).spec_id(),
            final(self).spec_is_open() == !closes(r),
    {
        let r = match step {
            StreamStep::Event(Event::ToProcess(u)) => Action::Forward(u),
            StreamStep::Event(Event::FromProcess(u)) => Action::Deliver(u),
            StreamStep::Pending => Action::Wait,
            StreamStep::End => Action::Finish,
            StreamStep::Failed(e) => Action::Fail(ConnectionError::Decode(e)),
        };
        match r {
            Action::Finish | Action::Fail(_) => {
                self.open = false;
            },
            _ => {},
        }
        r
    }

    /// Decides what to do after a write to the peer failed.
    pub fn write_failed(&mut self, failure: IoFailure) -> (r: Action)
        requires
            old(self).spec_is_open(),
        ensures
            r == action_after_write_failure(failure),
            final(self).spec_id() == old(self).spec_id(),
            final(self).spec_is_open() == !closes(r),
    {
        if failure.is_disconnect() {
            Action::Wait
        } else {
            self.open = false;
            Action::Fail(ConnectionError::Write(failure))
        }
    }
}

/// What an output relay does next.
#[derive(Clone, Debug, PartialEq, Eq)]
pub enum RelayAction {
    /// Send the unit to every live connection.
    Broadcast(Unit),
    /// Read more of the process's output.
    ReadMore,
    /// The output ended: stop this relay.
    Stop,
    /// The output could not be decoded: report it and stop this relay.
    StopFailed(FrameError),
}

/// The relay's action for what its reader handed out.
pub open spec fn relay_action_for(d: Decoded) -> RelayAction {
    match d {
        Decoded::Unit(u) => RelayAction::Broadcast(u),
        Decoded::NeedMore => RelayAction::ReadMore,
        Decoded::End => RelayAction::Stop,
        Decoded::Failed(e) => RelayAction::StopFailed(e),
    }
}

/// Decides what an output relay does with what its reader handed out.
pub fn relay_action(d: Decoded) -> (r: RelayAction)
    ensures
        r == relay_action_for(d),
{
    match d {
        Decoded::Unit(u) => RelayAction::Broadcast(u),
        Decoded::NeedMore => RelayAction::ReadMore,
        Decoded::End => RelayAction::Stop,
        Decoded::Failed(e) => RelayAction::StopFailed(e),
    }
}

/// The server's exit status when the process's own exit code is unknown.
pub const FALLBACK_EXIT_CODE: i32 = 126;

/// The server's exit status: the process's exit code when there is one.
pub fn exit_status(code: Option<i32>) -> (r: i32)
    ensures
        r == match code {
            Some(c) => c,
            None => FALLBACK_EXIT_CODE,
        },
{
    match code {
        Some(c) => c,
        None => FALLBACK_EXIT_CODE,
    }
}

/// No silent drop while alive: a unit broadcast while connection `c` is
/// registered is queued for `c`; a queued unit is taken before the
/// transport is consulted; and a running session delivers it to its peer
/// and keeps running.
pub proof fn lemma_broadcast_reaches_live_connection<Q>(
    v: RegistryView<Q>,
    targets: Seq<usize>,
    c: ConnectionId,
    u: Unit,
)
    requires
        v.entries.len() <= usize::MAX,
        is_registered(v.entries, c),
        lists_positions(targets, v.entries.len() as int, every_position()),
    ensures
        exists|a: int| 0 <= a < targets.len() && v.entries[#[trigger] targets[a] as int].0 == c,
        merged(Some(u), None) == StreamStep::Event(Event::FromProcess(u)),
        action_for(merged(Some(u), None)) == Action::Deliver(u),
        !closes(action_for(merged(Some(u), None))),
{
    let i = choose|i: int| 0 <= i < v.entries.len() && #[trigger] v.entries[i].0 == c;
    assert(every_position()(i));
    assert(targets.contains(i as usize));
    let a = choose|a: int| 0 <= a < targets.len() && targets[a] == i as usize;
    assert(v.entries[targets[a] as int].0 == c);
}

} // verus!
