use vstd::prelude::*;
use crate::config::{target_urls, Config};
use crate::error::ProgramError;
use crate::flags::{help_text, Flag};
use crate::target::Downloadable;

verus! {

/// Printed after the help output.
pub const HELP_DONE: &'static str = "END OF HELP SECTION";

/// Printed once every download has reached its terminal state.
pub const RUN_DONE: &'static str = "DONE";

/// The terminal state of one download.
#[derive(Debug)]
pub enum Outcome {
    Succeeded,
    Failed(ProgramError),
}

/// A terminal state as plain values: `Ok` on success, the error's message otherwise.
pub type OutcomeView = Result<(), Seq<char>>;

pub open spec fn outcome_view(o: Outcome) -> OutcomeView {
    match o {
        Outcome::Succeeded => Ok(()),
        Outcome::Failed(e) => Err(e.message()),
    }
}

/// The recorded states of all targets, `None` for one still running.
pub open spec fn states_view(v: Seq<Option<Outcome>>) -> Seq<Option<OutcomeView>> {
    v.map_values(
        |o: Option<Outcome>|
            match o {
                Some(x) => Some(outcome_view(x)),
                None => None,
            },
    )
}

/// Records `outcome` for target `index` when that target is still running;
/// any other report leaves the states as they are.
pub open spec fn record_step(
    states: Seq<Option<OutcomeView>>,
    index: int,
    outcome: OutcomeView,
) -> Seq<Option<OutcomeView>> {
    if 0 <= index < states.len() && states[index] is None {
        states.update(index, Some(outcome))
    } else {
        states
    }
}

/// The states after a sequence of reports, applied in the order given.
pub open spec fn replay(
    states: Seq<Option<OutcomeView>>,
    events: Seq<(int, OutcomeView)>,
) -> Seq<Option<OutcomeView>>
    decreases events.len(),
{
    if events.len() == 0 {
        states
    } else {
        let last = events.last();
        record_step(replay(states, events.drop_last()), last.0, last.1)
    }
}

/// Every target has reached a terminal state.
pub open spec fn all_terminal(states: Seq<Option<OutcomeView>>) -> bool {
    forall|i: int| 0 <= i < states.len() ==> #[trigger] states[i] is Some
}

/// The states of `n` freshly dispatched targets.
pub open spec fn all_running(n: nat) -> Seq<Option<OutcomeView>> {
    Seq::new(n, |i: int| None)
}

/// Keeps track of a batch of concurrently running downloads: which targets
/// were dispatched and which of them have finished, and how.
pub struct Orchestrator {
    targets: Vec<Downloadable>,
    states: Vec<Option<Outcome>>,
}

impl View for Orchestrator {
    type V = (Seq<Seq<char>>, Seq<Option<OutcomeView>>);

    closed spec fn view(&self) -> (Seq<Seq<char>>, Seq<Option<OutcomeView>>) {
        (target_urls(self.targets@), states_view(self.states@))
    }
}

/// What a run does with a parsed configuration.
pub enum RunPlan {
    /// Print this help output and download nothing.
    Help(String),
    /// Dispatch every target of the orchestrator.
    Download(Orchestrator),
}

impl Orchestrator {
    pub closed spec fn wf(&self) -> bool {
        self.targets@.len() == self.states@.len()
    }

    /// The number of dispatched targets.
    pub fn len(&self) -> (r: usize)
        requires
            self.wf(),
        ensures
            r == self@.0.len(),
            r == self@.1.len(),
    {
        self.targets.len()
    }

    /// The target at `index`.
    pub fn target(&self, index: usize) -> (r: &Downloadable)
        requires
            index < self@.0.len(),
        ensures
            r@ == self@.0[index as int],
    {
        &self.targets[index]
    }

    /// Records the terminal state of target `index`; returns whether it was
    /// still running (otherwise, or for an index out of range, nothing changes).
    pub fn record(&mut self, index: usize, outcome: Outcome) -> (r: bool)
        requires
            old(self).wf(),
        ensures
            final(self).wf(),
            final(self)@.0 == old(self)@.0,
            final(self)@.1 == record_step(old(self)@.1, index as int, outcome_view(outcome)),
            r == (index < old(self)@.1.len() && old(self)@.1[index as int] is None),
    {
        let ghost before = states_view(self.states@);
        let ghost out = outcome_view(outcome);
        if index < self.states.len() && self.states[index].is_none() {
            self.states.set(index, Some(outcome));
            assert(states_view(self.states@) =~= before.update(index as int, Some(out)));
            true
        } else {
            false
        }
    }

    /// Whether every dispatched download has reached its terminal state.
    pub fn is_complete(&self) -> (r: bool)
        ensures
            r == all_terminal(self@.1),
    {
        let mut i: usize = 0;
        while i < self.states.len()
            invariant
                i <= self.states@.len(),
                forall|k: int| 0 <= k < i ==> #[trigger] self@.1[k] is Some,
            decreases self.states@.len() - i,
        {
            if self.states[i].is_none() {
                assert(self@.1[i as int] is None);
                return false;
            }
            assert(self@.1[i as int] is Some);
            i = i + 1;
        }
        true
    }

    /// The recorded states, in the order of the targets.
    pub fn outcomes(&self) -> (r: &Vec<Option<Outcome>>)
        ensures
            states_view(r@) == self@.1,
    {
        &self.states
    }
}

/// Decides what a run does: show help when the help flag is present, and
/// otherwise dispatch every target, all of them still running.
pub fn plan_run(config: Config) -> (r: RunPlan)
    ensures
        match r {
            RunPlan::Help(text) => config@.0.contains(Flag::Help) && text@ == help_text(),
            RunPlan::Download(o) => {
                &&& !config@.0.contains(Flag::Help)
                &&& o.wf()
                &&& o@.0 == config@.1
                &&& o@.1 == all_running(config@.1.len())
            },
        },
{
    match Flag::handle_help_flag(&config) {
        Ok(text) => RunPlan::Help(text),
        Err(()) => {
            let targets = config.get_downloadables();
            let mut states: Vec<Option<Outcome>> = Vec::new();
            let mut i: usize = 0;
            while i < targets.len()
                invariant
                    i <= targets@.len(),
                    states@.len() == i,
                    forall|k: int| 0 <= k < i ==> #[trigger] states@[k] is None,
                decreases targets@.len() - i,
            {
                states.push(None);
                i = i + 1;
            }
            assert(states_view(states@) =~= all_running(targets@.len() as nat));
            RunPlan::Download(Orchestrator { targets, states })
        },
    }
}

/// Whether some report in `events` concerns target `i`.
pub open spec fn reported(events: Seq<(int, OutcomeView)>, i: int) -> bool {
    exists|k: int| 0 <= k < events.len() && #[trigger] events[k].0 == i
}

proof fn lemma_replay_marks_reported(n: nat, events: Seq<(int, OutcomeView)>)
    ensures
        replay(all_running(n), events).len() == n,
        forall|i: int|
            0 <= i < n ==> (#[trigger] replay(all_running(n), events)[i] is Some <==> reported(
                events,
                i,
            )),
    decreases events.len(),
{
    if events.len() > 0 {
        let init = events.drop_last();
        lemma_replay_marks_reported(n, init);
        assert forall|i: int| 0 <= i < n implies (#[trigger] replay(all_running(n), events)[i] is Some
            <==> reported(events, i)) by {
            if reported(init, i) {
                let k = choose|k: int| 0 <= k < init.len() && #[trigger] init[k].0 == i;
                assert(events[k].0 == i);
            }
            if reported(events, i) && !reported(init, i) {
                let k = choose|k: int| 0 <= k < events.len() && #[trigger] events[k].0 == i;
                if k < init.len() {
                    assert(init[k].0 == i);
                }
            }
        }
    } else {
        assert forall|i: int| 0 <= i < n implies !(#[trigger] replay(all_running(n), events)[i] is Some)
            && !reported(events, i) by {}
    }
}

/// Whatever order the downloads finish in, a batch of `n` dispatched targets
/// is complete exactly when every one of them has reported a terminal state.
pub proof fn lemma_complete_when_every_target_reported(n: nat, events: Seq<(int, OutcomeView)>)
    ensures
        all_terminal(replay(all_running(n), events)) <==> forall|i: int|
            0 <= i < n ==> #[trigger] reported(events, i),
{
    lemma_replay_marks_reported(n, events);
    let states = replay(all_running(n), events);
    if all_terminal(states) {
        assert forall|i: int| 0 <= i < n implies #[trigger] reported(events, i) by {
            assert(states[i] is Some);
        }
    }
    if forall|i: int| 0 <= i < n ==> #[trigger] reported(events, i) {
        assert forall|i: int| 0 <= i < states.len() implies #[trigger] states[i] is Some by {
            assert(reported(events, i));
        }
    }
}

} // verus!
