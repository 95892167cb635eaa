use turing::{
    populate_transition_function, run_encoding, Configuration, Direction, MachineError, Rule,
    RunOutcome, Snapshot, TuringMachine, STEP_BUDGET,
};

fn snapshot(tape: Vec<u8>, pointer: usize, state: u8) -> Snapshot {
    Snapshot { tape, pointer, state }
}

#[test]
fn the_step_budget_is_two_hundred() {
    assert_eq!(STEP_BUDGET, 200);
}

#[test]
fn the_initial_configuration_is_one_blank_cell() {
    let config = Configuration::new();
    assert_eq!(config.tape(), vec![0]);
    assert_eq!(config.pointer(), 0);
    assert_eq!(config.state(), 0);
    assert_eq!(config.current_symbol(), 0);
    assert_eq!(config.snapshot(), snapshot(vec![0], 0, 0));
}

#[test]
fn two_rule_example_halts_after_one_step() {
    let report = run_encoding("1Rb 0Ra").unwrap();
    assert_eq!(report.outcome, RunOutcome::Halted);
    assert_eq!(report.steps, 1);
    assert_eq!(report.history, vec![snapshot(vec![0], 0, 0), snapshot(vec![1, 0], 1, 1)]);
}

#[test]
fn two_rule_example_step_by_step() {
    let machine = populate_transition_function("1Rb 0Ra", 1, 1).unwrap();
    let mut config = Configuration::new();
    assert!(!machine.is_halted(&config));
    let applied = machine.step(&mut config);
    assert_eq!(applied, Some(Rule { write: 1, direction: Direction::Right, next_state: 1 }));
    assert_eq!(config.tape(), vec![1, 0]);
    assert_eq!(config.pointer(), 1);
    assert_eq!(config.state(), 1);
    assert_eq!(config.current_symbol(), 0);
    assert!(machine.is_halted(&config));
}

#[test]
fn a_halted_machine_makes_no_step() {
    let machine = populate_transition_function("1Rb 0Ra", 1, 1).unwrap();
    let mut config = Configuration::new();
    machine.step(&mut config);
    let before = config.snapshot();
    assert_eq!(machine.step(&mut config), None);
    assert_eq!(config.snapshot(), before);
}

#[test]
fn a_loop_between_two_states_spends_the_budget() {
    let report = run_encoding("0Rb 0Ra 0Rc").unwrap();
    assert_eq!(report.outcome, RunOutcome::StepBudgetExhausted);
    assert_eq!(report.steps, 200);
    assert_eq!(report.history.len(), 201);
    let last = &report.history[200];
    assert_eq!(last.tape, vec![0; 201]);
    assert_eq!(last.pointer, 200);
    assert_eq!(last.state, 0);
}

#[test]
fn a_loop_never_shows_the_halt_state() {
    let report = run_encoding("0Rb 0Ra 0Rc").unwrap();
    for (i, entry) in report.history.iter().enumerate() {
        assert_eq!(entry.state, (i % 2) as u8);
        assert_eq!(entry.pointer, i);
        assert_eq!(entry.tape.len(), i + 1);
    }
}

#[test]
fn busy_beaver_with_two_states_halts_after_six_steps() {
    let report = run_encoding("1Rb 1Lb 1La 1Rc").unwrap();
    assert_eq!(report.outcome, RunOutcome::Halted);
    assert_eq!(report.steps, 6);
    assert_eq!(
        report.history,
        vec![
            snapshot(vec![0], 0, 0),
            snapshot(vec![1, 0], 1, 1),
            snapshot(vec![1, 1], 0, 0),
            snapshot(vec![0, 1, 1], 0, 1),
            snapshot(vec![0, 1, 1, 1], 0, 0),
            snapshot(vec![1, 1, 1, 1], 1, 1),
            snapshot(vec![1, 1, 1, 1], 2, 2),
        ]
    );
}

#[test]
fn busy_beaver_with_three_states_halts_after_thirteen_steps() {
    let report = run_encoding("1Rb 1Lc 1La 1Rb 1Lb 1Rd").unwrap();
    assert_eq!(report.outcome, RunOutcome::Halted);
    assert_eq!(report.steps, 13);
    assert_eq!(report.history.len(), 14);
    assert_eq!(report.history[13], snapshot(vec![1, 1, 1, 1, 1, 1], 4, 3));
}

#[test]
fn the_tape_grows_at_the_left_end_and_the_pointer_stays() {
    let machine = populate_transition_function("1Lb 1Lb", 1, 1).unwrap();
    let mut config = Configuration::new();
    let applied = machine.step(&mut config);
    assert_eq!(applied, Some(Rule { write: 1, direction: Direction::Left, next_state: 1 }));
    assert_eq!(config.tape(), vec![0, 1]);
    assert_eq!(config.pointer(), 0);
    assert_eq!(config.current_symbol(), 0);
    assert_eq!(config.state(), 1);
}

#[test]
fn the_tape_grows_at_the_right_end_by_one_cell() {
    let mut config = Configuration::new();
    config.apply(Rule { write: 3, direction: Direction::Right, next_state: 0 });
    assert_eq!(config.tape(), vec![3, 0]);
    assert_eq!(config.pointer(), 1);
    config.apply(Rule { write: 4, direction: Direction::Right, next_state: 0 });
    assert_eq!(config.tape(), vec![3, 4, 0]);
    assert_eq!(config.pointer(), 2);
}

#[test]
fn the_tape_does_not_grow_while_the_head_stays_inside() {
    let mut config = Configuration::new();
    config.apply(Rule { write: 1, direction: Direction::Right, next_state: 0 });
    config.apply(Rule { write: 2, direction: Direction::Right, next_state: 0 });
    assert_eq!(config.tape(), vec![1, 2, 0]);
    config.apply(Rule { write: 3, direction: Direction::Left, next_state: 5 });
    assert_eq!(config.tape(), vec![1, 2, 3]);
    assert_eq!(config.pointer(), 1);
    assert_eq!(config.current_symbol(), 2);
    assert_eq!(config.state(), 5);
    config.apply(Rule { write: 7, direction: Direction::Left, next_state: 6 });
    assert_eq!(config.tape(), vec![1, 7, 3]);
    assert_eq!(config.pointer(), 0);
    assert_eq!(config.current_symbol(), 1);
    config.apply(Rule { write: 8, direction: Direction::Right, next_state: 6 });
    assert_eq!(config.tape(), vec![8, 7, 3]);
    assert_eq!(config.pointer(), 1);
    assert_eq!(config.current_symbol(), 7);
}

#[test]
fn the_pointer_stays_on_the_tape_in_every_entry() {
    for rep in ["1Rb 0Ra", "0Rb 0Ra 0Rc", "1Rb 1Lb 1La 1Rc", "1Rb 1Lc 1La 1Rb 1Lb 1Rd", "0Ra"] {
        let report = run_encoding(rep).unwrap();
        for entry in report.history.iter() {
            assert!(entry.pointer < entry.tape.len());
        }
    }
}

#[test]
fn running_again_gives_the_same_history() {
    let machine = TuringMachine::from_encoding("1Rb 1Lc 1La 1Rb 1Lb 1Rd").unwrap();
    let first = machine.run();
    let second = machine.run();
    assert_eq!(first, second);
    let again = TuringMachine::from_encoding("1Rb 1Lc 1La 1Rb 1Lb 1Rd").unwrap().run();
    assert_eq!(first, again);
}

#[test]
fn a_smaller_budget_cuts_the_run_short() {
    let machine = populate_transition_function("1Rb 1Rb 1La 0La", 2, 1).unwrap();
    let report = machine.run_with_budget(7);
    assert_eq!(report.outcome, RunOutcome::StepBudgetExhausted);
    assert_eq!(report.steps, 7);
    assert_eq!(
        report.history,
        vec![
            snapshot(vec![0], 0, 0),
            snapshot(vec![1, 0], 1, 1),
            snapshot(vec![1, 1], 0, 0),
            snapshot(vec![1, 1], 1, 1),
            snapshot(vec![1, 0], 0, 0),
            snapshot(vec![1, 0], 1, 1),
            snapshot(vec![1, 1], 0, 0),
            snapshot(vec![1, 1], 1, 1),
        ]
    );
}

#[test]
fn a_budget_of_zero_allows_no_step() {
    let machine = TuringMachine::from_encoding("1Rb 0Ra").unwrap();
    let report = machine.run_with_budget(0);
    assert_eq!(report.outcome, RunOutcome::StepBudgetExhausted);
    assert_eq!(report.steps, 0);
    assert_eq!(report.history, vec![snapshot(vec![0], 0, 0)]);
}

#[test]
fn halting_on_the_last_allowed_step_is_halting() {
    let machine = TuringMachine::from_encoding("1Rb 1Lb 1La 1Rc").unwrap();
    let report = machine.run_with_budget(6);
    assert_eq!(report.outcome, RunOutcome::Halted);
    assert_eq!(report.steps, 6);
    let report = machine.run_with_budget(5);
    assert_eq!(report.outcome, RunOutcome::StepBudgetExhausted);
    assert_eq!(report.steps, 5);
}

#[test]
fn a_machine_whose_initial_state_halts_makes_no_step() {
    let report = run_encoding("0Ra").unwrap();
    assert_eq!(report.outcome, RunOutcome::Halted);
    assert_eq!(report.steps, 0);
    assert_eq!(report.history, vec![snapshot(vec![0], 0, 0)]);
}

#[test]
fn unassigned_cells_move_left_in_the_initial_state() {
    let machine = populate_transition_function("", 1, 0).unwrap();
    let report = machine.run_with_budget(3);
    assert_eq!(report.outcome, RunOutcome::StepBudgetExhausted);
    assert_eq!(report.steps, 3);
    assert_eq!(report.history[3], snapshot(vec![0, 0, 0, 0], 0, 0));
}

#[test]
fn run_encoding_refuses_what_is_not_in_normal_form() {
    assert_eq!(run_encoding("1Lb 0Ra").err(), Some(MachineError::InvalidEncoding));
    assert_eq!(run_encoding("0Ra 2Rb").err(), Some(MachineError::InvalidEncoding));
    assert_eq!(run_encoding("0Rc").err(), Some(MachineError::InvalidEncoding));
}

#[test]
fn run_encoding_reports_a_malformed_token() {
    assert_eq!(run_encoding("1Rb 0R").err(), Some(MachineError::MalformedRule { index: 1 }));
}
