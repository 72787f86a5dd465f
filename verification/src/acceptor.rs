//! Acceptor loop state machine: listening, accepting connections and
//! spawning one connection handler per accept, until the one-shot shutdown
//! signal fires; then draining, refusing new connections while connections
//! accepted before the signal run to completion; then stopped. The loop
//! around it — bind, select, spawn — is unverified plumbing; every decision
//! it takes comes from `step`.

use vstd::prelude::*;

verus! {

/// Where the acceptor stands.
pub enum AcceptorPhase {
    Listening,
    Draining,
    Stopped,
}

/// One thing the acceptor observed.
pub enum AcceptorEvent {
    AcceptOk,
    AcceptFailed,
    ConnDone,
    Shutdown,
}

/// What the loop must do in response.
pub enum AcceptorAction {
    SpawnHandler,
    LogAndContinue,
    RefuseConnection,
    StopAccepting,
    NoAction,
}

/// The acceptor's whole state: its phase and how many accepted connections
/// are still running.
pub struct Acceptor {
    pub phase: AcceptorPhase,
    pub inflight: usize,
}

/// The state after one event.
pub open spec fn next_state(a: Acceptor, ev: AcceptorEvent) -> Acceptor {
    match (a.phase, ev) {
        (AcceptorPhase::Listening, AcceptorEvent::AcceptOk) => Acceptor {
            phase: AcceptorPhase::Listening,
            inflight: (a.inflight + 1) as usize,
        },
        (AcceptorPhase::Listening, AcceptorEvent::AcceptFailed) => a,
        (AcceptorPhase::Listening, AcceptorEvent::ConnDone) => Acceptor {
            phase: AcceptorPhase::Listening,
            inflight: (a.inflight - 1) as usize,
        },
        (AcceptorPhase::Listening, AcceptorEvent::Shutdown) => Acceptor {
            phase: if a.inflight == 0 {
                AcceptorPhase::Stopped
            } else {
                AcceptorPhase::Draining
            },
            inflight: a.inflight,
        },
        (AcceptorPhase::Draining, AcceptorEvent::ConnDone) => Acceptor {
            phase: if a.inflight == 1 {
                AcceptorPhase::Stopped
            } else {
                AcceptorPhase::Draining
            },
            inflight: (a.inflight - 1) as usize,
        },
        (AcceptorPhase::Draining, _) => a,
        (AcceptorPhase::Stopped, _) => a,
    }
}

/// The action one event calls for.
pub open spec fn action_of(a: Acceptor, ev: AcceptorEvent) -> AcceptorAction {
    match (a.phase, ev) {
        (AcceptorPhase::Listening, AcceptorEvent::AcceptOk) => AcceptorAction::SpawnHandler,
        (AcceptorPhase::Listening, AcceptorEvent::AcceptFailed) => AcceptorAction::LogAndContinue,
        (AcceptorPhase::Listening, AcceptorEvent::ConnDone) => AcceptorAction::NoAction,
        (AcceptorPhase::Listening, AcceptorEvent::Shutdown) => AcceptorAction::StopAccepting,
        (AcceptorPhase::Draining, AcceptorEvent::AcceptOk) => AcceptorAction::RefuseConnection,
        (AcceptorPhase::Stopped, AcceptorEvent::AcceptOk) => AcceptorAction::RefuseConnection,
        (_, _) => AcceptorAction::NoAction,
    }
}

impl Acceptor {
    /// A connection is never reported done unless one is in flight, and the
    /// in-flight count never outgrows the machine.
    pub open spec fn accepts(&self, ev: AcceptorEvent) -> bool {
        &&& (ev is ConnDone ==> self.inflight > 0)
        &&& (ev is AcceptOk && self.phase is Listening ==> self.inflight < usize::MAX)
    }

    /// A stopped acceptor has no connection still in flight.
    pub open spec fn wf(&self) -> bool {
        self.phase is Stopped ==> self.inflight == 0
    }

    /// A fresh acceptor, listening, with nothing in flight.
    pub fn new() -> (a: Acceptor)
        ensures
            a.phase is Listening,
            a.inflight == 0,
            a.wf(),
    {
        Acceptor { phase: AcceptorPhase::Listening, inflight: 0 }
    }

    /// Feed one observed event through the state machine and learn what the
    /// loop must do. After the shutdown signal the acceptor never again asks
    /// for a handler to be spawned, and it does not stop while a connection
    /// accepted earlier is still running.
    pub fn step(&mut self, ev: AcceptorEvent) -> (act: AcceptorAction)
        requires
            old(self).accepts(ev),
            old(self).wf(),
        ensures
            *final(self) == next_state(*old(self), ev),
            act == action_of(*old(self), ev),
            final(self).wf(),
    {
        match self.phase {
            AcceptorPhase::Listening => match ev {
                AcceptorEvent::AcceptOk => {
                    self.inflight = self.inflight + 1;
                    AcceptorAction::SpawnHandler
                },
                AcceptorEvent::AcceptFailed => AcceptorAction::LogAndContinue,
                AcceptorEvent::ConnDone => {
                    self.inflight = self.inflight - 1;
                    AcceptorAction::NoAction
                },
                AcceptorEvent::Shutdown => {
                    if self.inflight == 0 {
                        self.phase = AcceptorPhase::Stopped;
                    } else {
                        self.phase = AcceptorPhase::Draining;
                    }
                    AcceptorAction::StopAccepting
                },
            },
            AcceptorPhase::Draining => match ev {
                AcceptorEvent::AcceptOk => AcceptorAction::RefuseConnection,
                AcceptorEvent::ConnDone => {
                    if self.inflight == 1 {
                        self.phase = AcceptorPhase::Stopped;
                    }
                    self.inflight = self.inflight - 1;
                    AcceptorAction::NoAction
                },
                _ => AcceptorAction::NoAction,
            },
            AcceptorPhase::Stopped => match ev {
                AcceptorEvent::AcceptOk => AcceptorAction::RefuseConnection,
                _ => AcceptorAction::NoAction,
            },
        }
    }
}

/// The state after a whole sequence of events.
pub open spec fn run(a: Acceptor, evs: Seq<AcceptorEvent>) -> Acceptor
    decreases evs.len(),
{
    if evs.len() == 0 {
        a
    } else {
        run(next_state(a, evs[0]), evs.skip(1))
    }
}

/// Once the acceptor has left the listening phase it never returns to it.
proof fn lemma_not_listening_stays(a: Acceptor, ev: AcceptorEvent)
    requires
        !(a.phase is Listening),
    ensures
        !(next_state(a, ev).phase is Listening),
{
}

proof fn lemma_run_not_listening(a: Acceptor, evs: Seq<AcceptorEvent>)
    requires
        !(a.phase is Listening),
    ensures
        !(run(a, evs).phase is Listening),
    decreases evs.len(),
{
    if evs.len() > 0 {
        lemma_not_listening_stays(a, evs[0]);
        lemma_run_not_listening(next_state(a, evs[0]), evs.skip(1));
    }
}

proof fn lemma_run_append(a: Acceptor, s: Seq<AcceptorEvent>, t: Seq<AcceptorEvent>)
    ensures
        run(a, s + t) == run(run(a, s), t),
    decreases s.len(),
{
    if s.len() == 0 {
        assert(s + t =~= t);
    } else {
        assert((s + t)[0] == s[0]);
        assert((s + t).skip(1) =~= s.skip(1) + t);
        lemma_run_append(next_state(a, s[0]), s.skip(1), t);
    }
}

/// Law: after the shutdown signal fires, the acceptor never spawns another
/// connection handler. Whatever state the acceptor reached, once some event
/// in its history was the shutdown signal, every later accept is refused and
/// no later event yields a spawn.
pub proof fn lemma_no_spawn_after_shutdown(
    a: Acceptor,
    evs: Seq<AcceptorEvent>,
    i: int,
    j: int,
)
    requires
        0 <= i < j < evs.len(),
        evs[i] is Shutdown,
    ensures
        action_of(run(a, evs.take(j)), evs[j]) != AcceptorAction::SpawnHandler,
        evs[j] is AcceptOk ==> action_of(run(a, evs.take(j)), evs[j])
            == AcceptorAction::RefuseConnection,
{
    let upto = evs.take(i + 1);
    let between = evs.take(j).skip(i + 1);
    assert(evs.take(j) =~= upto + between);
    lemma_run_append(a, upto, between);
    let before = evs.take(i);
    assert(upto =~= before + seq![evs[i]]);
    lemma_run_append(a, before, seq![evs[i]]);
    let at_shutdown = run(a, before);
    assert(seq![evs[i]][0] == evs[i]);
    assert(seq![evs[i]].skip(1) =~= Seq::<AcceptorEvent>::empty());
    assert(run(next_state(at_shutdown, evs[i]), Seq::<AcceptorEvent>::empty()) == next_state(
        at_shutdown,
        evs[i],
    ));
    assert(run(at_shutdown, seq![evs[i]]) == next_state(at_shutdown, evs[i]));
    assert(!(next_state(at_shutdown, evs[i]).phase is Listening));
    lemma_run_not_listening(run(a, upto), between);
}

/// Law: the acceptor never stops while a connection accepted before the
/// shutdown signal is still running; connections in flight are allowed to
/// complete, and only their completions bring the in-flight count to zero
/// and the acceptor to a stop.
pub proof fn lemma_stops_only_drained(a: Acceptor, evs: Seq<AcceptorEvent>)
    requires
        a.wf(),
    ensures
        run(a, evs).wf(),
        run(a, evs).phase is Stopped ==> run(a, evs).inflight == 0,
    decreases evs.len(),
{
    if evs.len() > 0 {
        assert(next_state(a, evs[0]).wf());
        lemma_stops_only_drained(next_state(a, evs[0]), evs.skip(1));
    }
}

} // verus!
