//! Running a machine: one step at a time, or from the initial configuration
//! until it halts or has made as many steps as it was allowed.

use crate::decode::{encoding_result, MachineError};
use crate::table::{MachineView, Rule, TuringMachine};
use crate::tape::{initial_configuration, Configuration, ConfigurationView, Snapshot};
use vstd::prelude::*;
use vstd::string::StringSliceAdditionalSpecFns;

verus! {

/// The number of steps after which `TuringMachine::run` gives up.
pub const STEP_BUDGET: usize = 200;

/// How a run ended.
#[derive(Clone, Copy, Debug, PartialEq, Eq, Structural)]
pub enum RunOutcome {
    /// The machine reached its halt state.
    Halted,
    /// The machine made all the steps it was allowed and has not halted.
    StepBudgetExhausted,
}

impl ConfigurationView {
    /// The configuration belongs to the machine `m`: the head is on the tape,
    /// every cell holds a symbol of `m`, and the state is one of `m`.
    pub open spec fn fits(self, m: MachineView) -> bool {
        &&& self.wf()
        &&& self.state <= m.halt_state
        &&& forall|i: int| 0 <= i < self.tape.len() ==> #[trigger] self.tape[i] <= m.max_symbol
    }
}

impl MachineView {
    /// The machine has halted in `c`.
    pub open spec fn halted(self, c: ConfigurationView) -> bool {
        c.state == self.halt_state
    }

    /// The rule that the machine follows in `c`, if it has one.
    pub open spec fn rule_for(self, c: ConfigurationView) -> Option<Rule> {
        if self.has_rule_for(c.current_symbol(), c.state) {
            Some(self.rules[(c.current_symbol(), c.state)])
        } else {
            None
        }
    }

    /// The configuration that follows `c`; `c` itself where the machine has no
    /// rule to follow.
    pub open spec fn step(self, c: ConfigurationView) -> ConfigurationView {
        match self.rule_for(c) {
            Some(rule) => c.apply(rule),
            None => c,
        }
    }

    /// The configurations that the machine goes through from `c`, `c` first,
    /// until it has halted or has made `budget` steps.
    pub open spec fn history(self, c: ConfigurationView, budget: nat) -> Seq<ConfigurationView>
        decreases budget,
    {
        if budget == 0 || self.halted(c) {
            seq![c]
        } else {
            seq![c] + self.history(self.step(c), (budget - 1) as nat)
        }
    }
}

/// The views of the snapshots of a history.
pub open spec fn snapshot_views(history: Seq<Snapshot>) -> Seq<ConfigurationView> {
    history.map_values(|snapshot: Snapshot| snapshot@)
}

/// What a run did.
#[derive(Clone, Debug, PartialEq, Eq)]
pub struct RunReport {
    /// How the run ended.
    pub outcome: RunOutcome,
    /// The number of steps that the machine made.
    pub steps: usize,
    /// The configuration before the first step and the one after each step,
    /// in order; the last of them is the one in which the run ended.
    pub history: Vec<Snapshot>,
}

impl RunReport {
    /// The report tells the run of `m` from `start` with `budget` steps
    /// allowed: its history is that run's, its steps are the steps between the
    /// configurations of the history, and its outcome is `Halted` exactly if
    /// the last configuration is a halted one.
    pub open spec fn tells(self, m: MachineView, start: ConfigurationView, budget: nat) -> bool {
        &&& snapshot_views(self.history@) == m.history(start, budget)
        &&& self.steps == self.history@.len() - 1
        &&& self.outcome == if m.halted(m.history(start, budget).last()) {
            RunOutcome::Halted
        } else {
            RunOutcome::StepBudgetExhausted
        }
    }
}

/// A machine in a configuration that fits it has a rule to follow unless it
/// has halted, and the next configuration fits it too.
pub proof fn lemma_step_is_defined(m: MachineView, c: ConfigurationView)
    requires
        m.wf(),
        c.fits(m),
    ensures
        m.rule_for(c) is Some <==> !m.halted(c),
        m.step(c).fits(m),
{
    if !m.halted(c) {
        assert(m.rules.dom().contains((c.current_symbol(), c.state)));
    }
}

/// Along a run the head stays on the tape: in every configuration of the
/// history, `0 <= pointer < tape.len()`, and every configuration fits the
/// machine.
pub proof fn lemma_history_keeps_head_on_tape(m: MachineView, c: ConfigurationView, budget: nat)
    requires
        m.wf(),
        c.fits(m),
    ensures
        forall|i: int|
            0 <= i < m.history(c, budget).len() ==> (#[trigger] m.history(c, budget)[i]).fits(m)
                && 0 <= m.history(c, budget)[i].pointer < m.history(c, budget)[i].tape.len(),
    decreases budget,
{
    let h = m.history(c, budget);
    if budget > 0 && !m.halted(c) {
        let rest = m.history(m.step(c), (budget - 1) as nat);
        lemma_step_is_defined(m, c);
        lemma_history_keeps_head_on_tape(m, m.step(c), (budget - 1) as nat);
        assert forall|i: int| 0 <= i < h.len() implies (#[trigger] h[i]).fits(m) by {
            if i > 0 {
                assert(h[i] == rest[i - 1]);
            }
        }
    }
}

/// The history of a run begins with the configuration in which the run
/// started, each later entry follows from the one before it by one step, no
/// entry but the last is a halted one, and the run makes `budget` steps at
/// most.
pub proof fn lemma_history_is_stepwise(m: MachineView, c: ConfigurationView, budget: nat)
    ensures
        1 <= m.history(c, budget).len() <= budget + 1,
        m.history(c, budget)[0] == c,
        forall|i: int|
            0 <= i < m.history(c, budget).len() - 1 ==> !m.halted(
                #[trigger] m.history(c, budget)[i],
            ) && m.history(c, budget)[i + 1] == m.step(m.history(c, budget)[i]),
    decreases budget,
{
    if budget > 0 && !m.halted(c) {
        let rest = m.history(m.step(c), (budget - 1) as nat);
        lemma_history_is_stepwise(m, m.step(c), (budget - 1) as nat);
        let h = m.history(c, budget);
        assert forall|i: int| 0 <= i < h.len() - 1 implies !m.halted(#[trigger] h[i]) && h[i + 1]
            == m.step(h[i]) by {
            if i > 0 {
                assert(h[i] == rest[i - 1]);
                assert(h[i + 1] == rest[i]);
            } else {
                assert(h[1] == rest[0]);
            }
        }
    }
}

/// A run from the initial configuration never lacks a rule: in every
/// configuration of the history but the last, the machine has a rule to follow.
pub proof fn lemma_run_is_never_stuck(m: MachineView, budget: nat)
    requires
        m.wf(),
    ensures
        forall|i: int|
            0 <= i < m.history(initial_configuration(), budget).len() - 1 ==> m.rule_for(
                #[trigger] m.history(initial_configuration(), budget)[i],
            ) is Some,
{
    let h = m.history(initial_configuration(), budget);
    lemma_history_keeps_head_on_tape(m, initial_configuration(), budget);
    lemma_history_is_stepwise(m, initial_configuration(), budget);
    assert forall|i: int| 0 <= i < h.len() - 1 implies m.rule_for(#[trigger] h[i]) is Some by {
        lemma_step_is_defined(m, h[i]);
    }
}

/// A run that has not ended in a halted configuration has made exactly
/// `budget` steps.
pub proof fn lemma_budget_is_spent(m: MachineView, c: ConfigurationView, budget: nat)
    requires
        !m.halted(m.history(c, budget).last()),
    ensures
        m.history(c, budget).len() == budget + 1,
    decreases budget,
{
    if budget > 0 && !m.halted(c) {
        let rest = m.history(m.step(c), (budget - 1) as nat);
        lemma_history_is_stepwise(m, m.step(c), (budget - 1) as nat);
        assert(m.history(c, budget).last() == rest.last());
        lemma_budget_is_spent(m, m.step(c), (budget - 1) as nat);
    }
}

/// Running a machine again from the same configuration gives the same
/// history, tapes and pointers alike, the same number of steps and the same
/// outcome: a run depends on the table, the configuration and the budget alone.
pub proof fn lemma_run_is_deterministic(
    m: MachineView,
    c: ConfigurationView,
    budget: nat,
    first: RunReport,
    second: RunReport,
)
    requires
        first.tells(m, c, budget),
        second.tells(m, c, budget),
    ensures
        snapshot_views(first.history@) == snapshot_views(second.history@),
        first.steps == second.steps,
        first.outcome == second.outcome,
{
    assert(snapshot_views(first.history@).len() == first.history@.len());
    assert(snapshot_views(second.history@).len() == second.history@.len());
}

impl TuringMachine {
    /// Whether the machine has halted in `config`.
    pub fn is_halted(&self, config: &Configuration) -> (halted: bool)
        ensures
            halted == self@.halted(config@),
    {
        config.state() == self.halt_state()
    }

    /// Makes one step from `config`: follows the rule for the symbol under
    /// the head in the state of `config`, and returns it. Where the machine
    /// has no such rule, as when it has halted, `config` stays as it is.
    pub fn step(&self, config: &mut Configuration) -> (applied: Option<Rule>)
        ensures
            applied == self@.rule_for(old(config)@),
            final(config)@ == self@.step(old(config)@),
            final(config)@.wf(),
    {
        match self.rule(config.current_symbol(), config.state()) {
            Some(rule) => {
                config.apply(rule);
                Some(rule)
            },
            None => None,
        }
    }

    /// Runs the machine from the initial configuration until it halts or has
    /// made `budget` steps.
    pub fn run_with_budget(&self, budget: usize) -> (report: RunReport)
        ensures
            report.tells(self@, initial_configuration(), budget as nat),
            report.steps <= budget,
            report.outcome == RunOutcome::StepBudgetExhausted ==> report.steps == budget,
    {
        let ghost full = self@.history(initial_configuration(), budget as nat);
        let mut config = Configuration::new();
        let mut history: Vec<Snapshot> = Vec::new();
        let mut steps: usize = 0;
        while steps < budget && !self.is_halted(&config)
            invariant
                steps <= budget,
                history@.len() == steps,
                full == snapshot_views(history@) + self@.history(
                    config@,
                    (budget - steps) as nat,
                ),
            decreases budget - steps,
        {
            let ghost logged = snapshot_views(history@);
            let ghost current = config@;
            history.push(config.snapshot());
            self.step(&mut config);
            steps += 1;
            assert(snapshot_views(history@) =~= logged.push(current));
            assert(logged.push(current) + self@.history(config@, (budget - steps) as nat)
                =~= logged + self@.history(current, (budget - steps + 1) as nat));
        }
        let ghost logged = snapshot_views(history@);
        history.push(config.snapshot());
        assert(snapshot_views(history@) =~= logged.push(config@));
        assert(self@.history(config@, (budget - steps) as nat) =~= seq![config@]);
        assert(logged.push(config@) =~= logged + seq![config@]);
        let outcome = if self.is_halted(&config) {
            RunOutcome::Halted
        } else {
            RunOutcome::StepBudgetExhausted
        };
        RunReport { outcome, steps, history }
    }

    /// Runs the machine from the initial configuration until it halts or has
    /// made `STEP_BUDGET` steps.
    pub fn run(&self) -> (report: RunReport)
        ensures
            report.tells(self@, initial_configuration(), STEP_BUDGET as nat),
            report.steps <= STEP_BUDGET,
            report.outcome == RunOutcome::StepBudgetExhausted ==> report.steps == STEP_BUDGET,
    {
        self.run_with_budget(STEP_BUDGET)
    }
}

/// What reading `s` as an encoding and running the machine that it encodes
/// gives: `report` is the reason why `s` encodes no machine, or it tells the
/// run of that machine from the initial configuration with `STEP_BUDGET` steps
/// allowed.
pub open spec fn is_run_of_encoding(s: Seq<u8>, report: Result<RunReport, MachineError>) -> bool {
    match encoding_result(s) {
        Ok(m) => report is Ok && report->Ok_0.tells(m, initial_configuration(), STEP_BUDGET as nat),
        Err(e) => report == Err::<RunReport, MachineError>(e),
    }
}

/// Reads `rep` as the encoding of a machine and runs that machine.
///
/// Nothing is decoded or run unless `rep` is in lexical normal form.
pub fn run_encoding(rep: &str) -> (report: Result<RunReport, MachineError>)
    ensures
        is_run_of_encoding(rep.spec_bytes(), report),
{
    match TuringMachine::from_encoding(rep) {
        Ok(machine) => Ok(machine.run()),
        Err(e) => Err(e),
    }
}

} // verus!
