//! The client-facing state machine that turns the requester's race between
//! "answer arrived" and "timeout elapsed" into one terminal outcome.
//!
//! While trying, the machine owns the live requester — a bus subscription and
//! an armed timer in the real shell, any placeholder in a simulation — and
//! the first event settles it into a terminal state, dropping that resource
//! as part of the assignment. Terminal states are absorbing: later events,
//! such as an answer arriving after the timeout already fired, change
//! nothing.
use vstd::prelude::*;

verus! {

use crate::SessionId;
use crate::requester::Passthrough;

/// The requester's lifecycle. `Trying` holds whatever live resources keep
/// the request open; `SessionId` and `GaveUp` are terminal and hold none.
pub enum Inner<R> {
    Trying(R),
    SessionId(Option<SessionId>),
    GaveUp,
}

/// How one event moves the machine: the first event delivered while trying
/// settles it, and a settled machine ignores everything.
pub open spec fn step<R>(s: Inner<R>, event: Passthrough) -> Inner<R> {
    if s is Trying {
        match event {
            Passthrough::Id(id) => Inner::SessionId(id),
            Passthrough::TimedOut => Inner::GaveUp,
        }
    } else {
        s
    }
}

/// The machine after a whole sequence of events, delivered one at a time.
pub open spec fn run<R>(s: Inner<R>, events: Seq<Passthrough>) -> Inner<R>
    decreases events.len(),
{
    if events.len() == 0 {
        s
    } else {
        run(step(s, events.first()), events.drop_first())
    }
}

impl<R> Inner<R> {
    /// Whether the machine has settled: no transition leaves a terminal
    /// state.
    pub open spec fn is_terminal(self) -> bool {
        !(self is Trying)
    }

    /// The id the machine has resolved to: nothing while still trying or
    /// after giving up, and the held value — itself possibly absent — once
    /// an answer arrived.
    pub open spec fn resolved_id(self) -> Option<SessionId> {
        match self {
            Inner::SessionId(id) => id,
            _ => None,
        }
    }

    /// A machine that is still trying, owning the live requester.
    pub fn new(requester: R) -> (r: Self)
        ensures
            r is Trying,
    {
        Inner::Trying(requester)
    }

    /// Read the resolved id without disturbing the machine.
    pub fn session_id(&self) -> (r: Option<SessionId>)
        ensures
            r == self.resolved_id(),
    {
        match self {
            Inner::SessionId(id) => *id,
            _ => None,
        }
    }

    /// Deliver one event. The first event delivered while trying settles the
    /// machine — and drops the requester it owned — and an event delivered
    /// once settled is a no-op.
    pub fn update(&mut self, arg: Passthrough)
        ensures
            *final(self) == step(*old(self), arg),
    {
        let trying = match self {
            Inner::Trying(_) => true,
            _ => false,
        };
        if trying {
            match arg {
                Passthrough::Id(id) => {
                    *self = Inner::SessionId(id);
                },
                Passthrough::TimedOut => {
                    *self = Inner::GaveUp;
                },
            }
        }
    }
}

/// Appending one event to a delivery runs the machine one step further.
pub proof fn lemma_run_push<R>(s: Inner<R>, events: Seq<Passthrough>, event: Passthrough)
    ensures
        run(s, events.push(event)) == step(run(s, events), event),
    decreases events.len(),
{
    if events.len() == 0 {
        assert(events.push(event).drop_first() =~= events);
        assert(events.push(event).first() == event);
        assert(run(step(s, event), events) == step(s, event));
        assert(run(s, events) == s);
    } else {
        assert(events.push(event).first() == events.first());
        assert(events.push(event).drop_first() =~= events.drop_first().push(event));
        lemma_run_push(step(s, events.first()), events.drop_first(), event);
        assert(run(s, events.push(event)) == run(
            step(s, events.first()),
            events.drop_first().push(event),
        ));
        assert(run(s, events) == run(step(s, events.first()), events.drop_first()));
    }
}

/// A source transitions out of `Trying` at most once: as soon as some prefix
/// of the delivered events has made the machine terminal, every event after
/// that prefix leaves the state unchanged.
pub proof fn lemma_single_transition<R>(s: Inner<R>, events: Seq<Passthrough>, i: int)
    requires
        0 <= i <= events.len(),
        run(s, events.take(i)).is_terminal(),
    ensures
        run(s, events) == run(s, events.take(i)),
    decreases events.len() - i,
{
    if i == events.len() {
        assert(events.take(i) =~= events);
    } else {
        assert(events.take(i + 1) =~= events.take(i).push(events[i]));
        lemma_run_push(s, events.take(i), events[i]);
        lemma_single_transition(s, events, i + 1);
    }
}

/// The façade the surrounding application sees: construction starts a try,
/// `update` consumes forwarded events, `session_id` reads the outcome.
pub struct Source<R>(Inner<R>);

impl<R> Source<R> {
    /// The state machine inside the façade.
    pub closed spec fn inner(self) -> Inner<R> {
        self.0
    }

    /// A source that is trying: in the real shell the requester has already
    /// broadcast its query and armed its timer by the time it is handed in.
    pub fn new(requester: R) -> (r: Self)
        ensures
            r.inner() is Trying,
    {
        Source(Inner::new(requester))
    }

    /// `None` while trying or after giving up; the answer's value once one
    /// arrived, which may itself be `None` — a confirmed "no session".
    pub fn session_id(&self) -> (r: Option<SessionId>)
        ensures
            r == self.inner().resolved_id(),
    {
        self.0.session_id()
    }

    /// Deliver one forwarded event to the machine.
    pub fn update(&mut self, arg: Passthrough)
        ensures
            final(self).inner() == step(old(self).inner(), arg),
    {
        self.0.update(arg);
    }

    /// Whether the source is still waiting for its first event.
    pub fn is_trying(&self) -> (r: bool)
        ensures
            r == !self.inner().is_terminal(),
    {
        match &self.0 {
            Inner::Trying(_) => true,
            _ => false,
        }
    }

    /// Whether the source gave up: the timeout won the race.
    pub fn gave_up(&self) -> (r: bool)
        ensures
            r == (self.inner() is GaveUp),
    {
        match &self.0 {
            Inner::GaveUp => true,
            _ => false,
        }
    }
}

} // verus!
