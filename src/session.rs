//! The per-client session: a resync snapshot first, then live indications,
//! and a fresh resync whenever the client falls behind the broadcast.
//!
//! The front-end owns the channels and performs what the session asks; the
//! session decides, from its phase and what happened, what comes next.

use vstd::prelude::*;

use crate::b3270::indication::RunResult;
use crate::b3270::operation::Action;
use crate::b3270::{Indication, Operation};

verus! {

/// The phases of a session.
#[derive(Clone, Copy, Debug, PartialEq, Eq, Structural)]
pub enum Phase {
    /// A resync request is out; the snapshot has not come yet.
    Wait,
    /// Snapshot elements remain to be delivered.
    Resume,
    /// Live indications are forwarded.
    Steady,
    /// The client fell behind; a resync request is being sent.
    TryRestart,
    /// The session is over.
    Closed,
}

/// What happened since the session last decided.
#[derive(Debug)]
pub enum SessionEvent {
    /// The arbiter answered the resync request with this snapshot (and a
    /// subscription, which the front-end keeps).
    Snapshot(Vec<Indication>),
    /// The resync request went unanswered: the arbiter is gone.
    SnapshotLost,
    /// A live indication arrived.
    Live(Indication),
    /// The broadcast dropped this many indications for this client.
    Lagged(u64),
    /// The broadcast ended.
    StreamEnded,
    /// The resync request was sent.
    PermitGranted,
    /// The arbiter's request channel is closed.
    ChannelClosed,
}

/// What the front-end is to do next.
#[derive(Debug)]
pub enum SessionAction {
    /// Deliver this indication to the client.
    Emit(Indication),
    /// Nothing to deliver; look at the session again.
    Continue,
    /// Send a resync request to the arbiter.
    RequestResync,
    /// End the session.
    End,
}

/// A client session.
pub struct Session {
    phase: Phase,
    // The snapshot elements still to deliver, last one first.
    backlog: Vec<Indication>,
}

/// The state of a session: its phase and the snapshot elements still to
/// deliver, in order.
pub ghost struct SessionView {
    pub phase: Phase,
    pub pending: Seq<Indication>,
}

/// `s` read from its end.
pub open spec fn reversed(s: Seq<Indication>) -> Seq<Indication> {
    Seq::new(s.len(), |i: int| s[s.len() - 1 - i])
}

impl View for Session {
    type V = SessionView;

    closed spec fn view(&self) -> SessionView {
        SessionView { phase: self.phase, pending: reversed(self.backlog@) }
    }
}

/// The state after an event.
pub open spec fn next_view(v: SessionView, ev: SessionEvent) -> SessionView {
    match (v.phase, ev) {
        (Phase::Wait, SessionEvent::Snapshot(s)) => SessionView { phase: Phase::Resume, pending: s@ },
        (Phase::Wait, SessionEvent::SnapshotLost) => SessionView { phase: Phase::Closed, ..v },
        (Phase::Steady, SessionEvent::Lagged(_)) => SessionView { phase: Phase::TryRestart, ..v },
        (Phase::Steady, SessionEvent::StreamEnded) => SessionView { phase: Phase::Closed, ..v },
        (Phase::TryRestart, SessionEvent::PermitGranted) => SessionView { phase: Phase::Wait, ..v },
        (Phase::TryRestart, SessionEvent::ChannelClosed) => SessionView { phase: Phase::Closed, ..v },
        _ => v,
    }
}

/// What to do after an event. Events that do not belong to the phase are
/// ignored.
pub open spec fn action_for(v: SessionView, ev: SessionEvent) -> SessionAction {
    match (v.phase, ev) {
        (Phase::Steady, SessionEvent::Live(ind)) => SessionAction::Emit(ind),
        (Phase::Steady, SessionEvent::Lagged(_)) => SessionAction::RequestResync,
        (Phase::Wait, SessionEvent::SnapshotLost) | (Phase::Steady, SessionEvent::StreamEnded) | (
            Phase::TryRestart,
            SessionEvent::ChannelClosed,
        ) | (Phase::Closed, _) => SessionAction::End,
        _ => SessionAction::Continue,
    }
}

/// The state and actions after a list of events, in order.
pub open spec fn run_events(v: SessionView, evs: Seq<SessionEvent>) -> (SessionView, Seq<
    SessionAction,
>)
    decreases evs.len(),
{
    if evs.len() == 0 {
        (v, seq![])
    } else {
        let (w, acts) = run_events(v, evs.drop_last());
        (next_view(w, evs.last()), acts.push(action_for(w, evs.last())))
    }
}

/// The state after taking the next snapshot element, and that element.
pub open spec fn after_backlog(v: SessionView) -> (SessionView, Option<Indication>) {
    if v.pending.len() > 0 {
        (SessionView { pending: v.pending.drop_first(), ..v }, Some(v.pending[0]))
    } else {
        (SessionView { phase: Phase::Steady, ..v }, None)
    }
}

impl Session {
    /// A session that has its first snapshot and is to deliver it.
    pub fn resuming(snapshot: Vec<Indication>) -> (r: Session)
        ensures
            r@ == (SessionView { phase: Phase::Resume, pending: snapshot@ }),
    {
        let mut s = Session { phase: Phase::Wait, backlog: Vec::new() };
        s.take_snapshot(snapshot);
        s
    }

    /// A session whose resync request is out.
    pub fn waiting() -> (r: Session)
        ensures
            r@.phase == Phase::Wait,
            r@.pending.len() == 0,
    {
        Session { phase: Phase::Wait, backlog: Vec::new() }
    }

    /// The current phase.
    pub fn phase(&self) -> (r: Phase)
        ensures
            r == self@.phase,
    {
        self.phase
    }

    fn take_snapshot(&mut self, snapshot: Vec<Indication>)
        ensures
            final(self)@ == (SessionView { phase: Phase::Resume, pending: snapshot@ }),
    {
        let mut snapshot = snapshot;
        let ghost all = snapshot@;
        let mut backlog: Vec<Indication> = Vec::new();
        while snapshot.len() > 0
            invariant
                all == snapshot@ + reversed(backlog@),
            decreases snapshot@.len(),
        {
            let ghost before = backlog@;
            let ghost rest = snapshot@;
            match snapshot.pop() {
                Some(ind) => {
                    backlog.push(ind);
                    assert(reversed(backlog@) =~= seq![ind] + reversed(before));
                    assert(rest =~= snapshot@.push(ind));
                    assert(all =~= snapshot@ + reversed(backlog@));
                },
                None => {},
            }
        }
        assert(all =~= reversed(backlog@));
        self.phase = Phase::Resume;
        self.backlog = backlog;
    }

    /// Decides what follows an event.
    pub fn step(&mut self, ev: SessionEvent) -> (r: SessionAction)
        ensures
            final(self)@ == next_view(old(self)@, ev),
            r == action_for(old(self)@, ev),
    {
        match (self.phase, ev) {
            (Phase::Wait, SessionEvent::Snapshot(s)) => {
                self.take_snapshot(s);
                SessionAction::Continue
            },
            (Phase::Wait, SessionEvent::SnapshotLost) => {
                self.phase = Phase::Closed;
                SessionAction::End
            },
            (Phase::Steady, SessionEvent::Live(ind)) => SessionAction::Emit(ind),
            (Phase::Steady, SessionEvent::Lagged(_)) => {
                self.phase = Phase::TryRestart;
                SessionAction::RequestResync
            },
            (Phase::Steady, SessionEvent::StreamEnded) => {
                self.phase = Phase::Closed;
                SessionAction::End
            },
            (Phase::TryRestart, SessionEvent::PermitGranted) => {
                self.phase = Phase::Wait;
                SessionAction::Continue
            },
            (Phase::TryRestart, SessionEvent::ChannelClosed) => {
                self.phase = Phase::Closed;
                SessionAction::End
            },
            (Phase::Closed, _) => SessionAction::End,
            _ => SessionAction::Continue,
        }
    }

    /// In the resume phase: the next snapshot element, or `None` once all
    /// are delivered, when the session turns to live indications.
    pub fn next_backlog(&mut self) -> (r: Option<Indication>)
        requires
            old(self)@.phase == Phase::Resume,
        ensures
            (final(self)@, r) == after_backlog(old(self)@),
    {
        let ghost before = self.backlog@;
        match self.backlog.pop() {
            Some(ind) => {
                assert(reversed(self.backlog@) =~= reversed(before).drop_first());
                Some(ind)
            },
            None => {
                self.phase = Phase::Steady;
                None
            },
        }
    }
}

/// A client's run request: the client's tag and the actions, for a run;
/// `None` for the operations that clients may not send.
pub fn client_request(op: Operation) -> (r: Option<(Option<String>, Vec<Action>)>)
    ensures
        match op {
            Operation::Run(run) => r == Some((run.r_tag, run.actions)),
            _ => r is None,
        },
{
    match op {
        Operation::Run(run) => Some((run.r_tag, run.actions)),
        _ => None,
    }
}

/// The run result as the client sees it: its own tag in place of the
/// arbiter's.
pub fn client_run_result(rr: RunResult, client_tag: Option<String>) -> (r: Indication)
    ensures
        r == Indication::RunResult(RunResult { r_tag: client_tag, ..rr }),
{
    Indication::RunResult(RunResult { r_tag: client_tag, ..rr })
}

/// A subscriber that never falls behind receives every live indication, in
/// order, and stays live.
pub proof fn lemma_steady_delivers(v: SessionView, inds: Seq<Indication>)
    requires
        v.phase == Phase::Steady,
    ensures
        run_events(v, inds.map_values(|i: Indication| SessionEvent::Live(i))).0 == v,
        run_events(v, inds.map_values(|i: Indication| SessionEvent::Live(i))).1 == inds.map_values(
            |i: Indication| SessionAction::Emit(i),
        ),
    decreases inds.len(),
{
    let evs = inds.map_values(|i: Indication| SessionEvent::Live(i));
    if inds.len() > 0 {
        lemma_steady_delivers(v, inds.drop_last());
        assert(evs.drop_last() =~= inds.drop_last().map_values(|i: Indication| SessionEvent::Live(i)));
        assert(inds.map_values(|i: Indication| SessionAction::Emit(i)) =~= inds.drop_last().map_values(
            |i: Indication| SessionAction::Emit(i),
        ).push(SessionAction::Emit(inds.last())));
    } else {
        assert(evs =~= Seq::<SessionEvent>::empty());
        assert(inds.map_values(|i: Indication| SessionAction::Emit(i)) =~= Seq::<SessionAction>::empty());
    }
}

/// The state after `k` snapshot elements are asked for, and what each
/// request gave.
pub open spec fn drain(v: SessionView, k: nat) -> (SessionView, Seq<Option<Indication>>)
    decreases k,
{
    if k == 0 {
        (v, seq![])
    } else {
        let (w, out) = drain(v, (k - 1) as nat);
        let (w2, o) = after_backlog(w);
        (w2, out.push(o))
    }
}

/// Draining part of a snapshot hands out its first elements in order.
proof fn lemma_drain_prefix(s: Seq<Indication>, k: nat)
    requires
        k <= s.len(),
    ensures
        drain(SessionView { phase: Phase::Resume, pending: s }, k).0 == (SessionView {
            phase: Phase::Resume,
            pending: s.skip(k as int),
        }),
        drain(SessionView { phase: Phase::Resume, pending: s }, k).1 == s.take(k as int).map_values(
            |i: Indication| Some(i),
        ),
    decreases k,
{
    let v = SessionView { phase: Phase::Resume, pending: s };
    if k == 0 {
        assert(s.skip(0) =~= s);
        assert(s.take(0).map_values(|i: Indication| Some(i)) =~= Seq::<Option<Indication>>::empty());
    } else {
        lemma_drain_prefix(s, (k - 1) as nat);
        let rest = s.skip(k - 1);
        assert(rest[0] == s[k - 1]);
        assert(rest.drop_first() =~= s.skip(k as int));
        assert(s.take(k as int).map_values(|i: Indication| Some(i)) =~= s.take(k - 1).map_values(
            |i: Indication| Some(i),
        ).push(Some(s[k - 1])));
    }
}

/// After a resync, a session hands out the snapshot in order, and then
/// turns to the live indications.
pub proof fn lemma_resync_order(v: SessionView, snapshot: Vec<Indication>)
    requires
        v.phase == Phase::Wait,
    ensures
        drain(next_view(v, SessionEvent::Snapshot(snapshot)), snapshot@.len()).1
            == snapshot@.map_values(|i: Indication| Some(i)),
        drain(next_view(v, SessionEvent::Snapshot(snapshot)), snapshot@.len() + 1).1.last()
            == None::<Indication>,
        drain(next_view(v, SessionEvent::Snapshot(snapshot)), snapshot@.len() + 1).0.phase
            == Phase::Steady,
{
    let s = snapshot@;
    lemma_drain_prefix(s, s.len());
    assert(s.take(s.len() as int) =~= s);
    assert(s.skip(s.len() as int) =~= Seq::<Indication>::empty());
}

} // verus!
