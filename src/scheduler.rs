use vstd::prelude::*;

verus! {

/// Whether the scrape scheduler still runs.
#[derive(Debug, Copy, Clone, PartialEq, Eq, Structural)]
pub enum Phase {
    Running,
    Stopped,
}

/// What wakes the scheduler: the periodic timer, or the stop signal.
#[derive(Debug, Copy, Clone, PartialEq, Eq, Structural)]
pub enum Event {
    Tick,
    Stop,
}

/// What the scheduler does on waking.
#[derive(Debug, Copy, Clone, PartialEq, Eq, Structural)]
pub enum Action {
    /// Scrape, then wait for the next event.
    Scrape,
    /// Scrape one last time, hand the history over, and end.
    FinalScrape,
    /// Nothing: the scheduler has already ended.
    Ignore,
}

/// One transition: the next phase and the action to perform.
pub open spec fn step(p: Phase, e: Event) -> (Phase, Action) {
    match p {
        Phase::Running => match e {
            Event::Tick => (Phase::Running, Action::Scrape),
            Event::Stop => (Phase::Stopped, Action::FinalScrape),
        },
        Phase::Stopped => (Phase::Stopped, Action::Ignore),
    }
}

/// The actions taken for a sequence of events, starting in phase `p`.
pub open spec fn run(p: Phase, es: Seq<Event>) -> Seq<Action>
    decreases es.len(),
{
    if es.len() == 0 {
        seq![]
    } else {
        let (q, a) = step(p, es[0]);
        seq![a] + run(q, es.drop_first())
    }
}

/// The scrape scheduler's state.
pub struct Scheduler {
    phase: Phase,
}

impl Scheduler {
    pub closed spec fn phase_view(&self) -> Phase {
        self.phase
    }

    /// A scheduler that has started running.
    pub fn new() -> (r: Self)
        ensures
            r.phase_view() == Phase::Running,
    {
        Scheduler { phase: Phase::Running }
    }

    pub fn phase(&self) -> (r: Phase)
        ensures
            r == self.phase_view(),
    {
        self.phase
    }

    /// Decides what to do on an event and moves to the next phase. A stop signal that comes
    /// after the scheduler has stopped is ignored, as is every later tick.
    pub fn on_event(&mut self, e: Event) -> (r: Action)
        ensures
            (final(self).phase_view(), r) == step(old(self).phase_view(), e),
    {
        match self.phase {
            Phase::Running => match e {
                Event::Tick => Action::Scrape,
                Event::Stop => {
                    self.phase = Phase::Stopped;
                    Action::FinalScrape
                },
            },
            Phase::Stopped => Action::Ignore,
        }
    }
}

/// Once stopped, the scheduler never scrapes again, whatever events follow.
pub proof fn lemma_stopped_is_final(es: Seq<Event>)
    ensures
        forall|i: int| 0 <= i < es.len() ==> #[trigger] run(Phase::Stopped, es)[i] == Action::Ignore,
    decreases es.len(),
{
    if es.len() > 0 {
        lemma_stopped_is_final(es.drop_first());
        lemma_run_len(Phase::Stopped, es.drop_first());
        assert forall|i: int| 0 <= i < es.len() implies #[trigger] run(Phase::Stopped, es)[i]
            == Action::Ignore by {
            if i > 0 {
                assert(run(Phase::Stopped, es)[i] == run(Phase::Stopped, es.drop_first())[i - 1]);
            }
        }
    }
}

/// Shutdown finality: from a running scheduler, the first stop signal (at position `s`) is
/// answered by the one final scrape; every earlier event is a tick answered by a scrape, and
/// nothing after it scrapes.
pub proof fn lemma_final_scrape_at_first_stop(es: Seq<Event>, s: int)
    requires
        0 <= s < es.len(),
        es[s] == Event::Stop,
        forall|j: int| 0 <= j < s ==> es[j] == Event::Tick,
    ensures
        run(Phase::Running, es).len() == es.len(),
        run(Phase::Running, es)[s] == Action::FinalScrape,
        forall|j: int| 0 <= j < s ==> #[trigger] run(Phase::Running, es)[j] == Action::Scrape,
        forall|j: int| s < j < es.len() ==> #[trigger] run(Phase::Running, es)[j] == Action::Ignore,
    decreases s,
{
    let rest = es.drop_first();
    lemma_run_len(Phase::Running, es);
    lemma_run_len(Phase::Running, rest);
    lemma_run_len(Phase::Stopped, rest);
    if s == 0 {
        lemma_stopped_is_final(rest);
        assert forall|j: int| s < j < es.len() implies #[trigger] run(Phase::Running, es)[j]
            == Action::Ignore by {
            assert(run(Phase::Running, es)[j] == run(Phase::Stopped, rest)[j - 1]);
        }
    } else {
        lemma_final_scrape_at_first_stop(rest, s - 1);
        assert forall|j: int| 0 <= j < s implies #[trigger] run(Phase::Running, es)[j]
            == Action::Scrape by {
            if j > 0 {
                assert(run(Phase::Running, es)[j] == run(Phase::Running, rest)[j - 1]);
                assert(rest[j - 1] == es[j]);
            }
        }
        assert forall|j: int| s < j < es.len() implies #[trigger] run(Phase::Running, es)[j]
            == Action::Ignore by {
            assert(run(Phase::Running, es)[j] == run(Phase::Running, rest)[j - 1]);
        }
        assert(run(Phase::Running, es)[s] == run(Phase::Running, rest)[s - 1]);
    }
}

proof fn lemma_run_len(p: Phase, es: Seq<Event>)
    ensures
        run(p, es).len() == es.len(),
    decreases es.len(),
{
    if es.len() > 0 {
        lemma_run_len(step(p, es[0]).0, es.drop_first());
    }
}

} // verus!
