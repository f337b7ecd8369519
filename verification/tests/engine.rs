use tm_engine::{
    HeadOverflowFault, State, Symbol, TMClock, TMExecution, TMStatus, Transition, TuringMachine,
};

fn last_symbol_machine() -> TuringMachine {
    TuringMachine {
        states: vec![
            State("start".to_string()),
            State("accept".to_string()),
            State("reject".to_string()),
            State("iterate_to_end".to_string()),
            State("last_symbol_check".to_string()),
        ],
        transitions: vec![
            vec![
                Transition(3, 0, 1),
                Transition(3, 1, 1),
                Transition(3, 2, 1),
                Transition(3, 3, 1),
            ],
            vec![], // accept transitions
            vec![], // reject transitions
            vec![
                Transition(4, 0, -1),
                Transition(3, 1, 1),
                Transition(3, 2, 1),
                Transition(3, 3, 1),
            ],
            vec![
                Transition(2, 0, 1),
                Transition(2, 1, 1),
                Transition(1, 2, 1), // accept if last symbol is 0
                Transition(2, 3, 1), // reject if last symbol is 1
            ],
        ],
        ..TuringMachine::default()
    }
}

#[test]
fn default_tm() {
    let machine = TuringMachine::default();

    for i in 0..3 {
        assert_eq!(machine.states[i], State(format!("q{i}")));
    }

    assert_eq!(machine.tape_symbols[0], Symbol("_".to_string()));
    assert_eq!(machine.tape_symbols[1], Symbol(">".to_string()));
    assert_eq!(machine.language_symbols[0], Symbol("0".to_string()));
    assert_eq!(machine.language_symbols[1], Symbol("1".to_string()));

    assert_eq!(machine.start_state, 0);
    assert_eq!(machine.accept_state, 1);
    assert_eq!(machine.reject_state, 2);

    assert_eq!(machine.transitions[0][0], Transition(1, 0, 1));
    assert_eq!(machine.transitions[0][1], Transition(1, 1, 1));
    assert_eq!(machine.transitions[0][2], Transition(1, 2, 1));
    assert_eq!(machine.transitions[0][3], Transition(1, 3, 1));
}

#[test]
fn default_tm_step() {
    let machine = TuringMachine::default();
    let mut execution = TMExecution {
        machine: &machine,
        current_state: 0,
        head_position: 0,
        tape: vec![1],
        status: TMStatus::Executing,
        clock: TMClock::default(),
    };

    let _ = execution.step();

    assert_eq!(execution.status, TMStatus::Accept);
}

#[test]
fn last_symbol_accept() {
    let machine = last_symbol_machine();

    let accepted_computation_result = machine.compute(&"1110".to_string());

    let mut accept_computation = match accepted_computation_result {
        Ok(computation) => computation,
        Err(_) => panic!("Error in accepted computation"),
    };

    let _ = accept_computation.compute();

    assert_eq!(accept_computation.status, TMStatus::Accept);
    assert_eq!(accept_computation.tape.len(), 6);
    assert_eq!(accept_computation.tape, vec![1, 3, 3, 3, 2, 0]);
    assert_eq!(accept_computation.head_position, 4);
    assert_eq!(accept_computation.clock.time, 7);
    assert_eq!(accept_computation.clock.space, 6);
}

#[test]
fn last_symbol_reject() {
    let machine = last_symbol_machine();

    let rejected_computation_result = machine.compute(&"0001".to_string());

    let mut rejected_computation = match rejected_computation_result {
        Ok(computation) => computation,
        Err(_) => panic!("Error in rejected computation"),
    };

    let _ = rejected_computation.compute();

    assert_eq!(rejected_computation.status, TMStatus::Reject);
    assert_eq!(rejected_computation.tape.len(), 6);
    assert_eq!(rejected_computation.tape, vec![1, 2, 2, 2, 3, 0]);
    assert_eq!(rejected_computation.head_position, 4);
    assert_eq!(rejected_computation.clock.time, 7);
    assert_eq!(rejected_computation.clock.space, 6);
}

#[test]
fn last_symbol_timeout() {
    let machine = last_symbol_machine();

    let comp_result = machine.bounded_compute(&"1110".to_string(), (Some(3), None));

    let mut comp = match comp_result {
        Ok(computation) => computation,
        Err(_) => panic!("Error in accepted computation"),
    };

    let _ = comp.compute();

    assert_eq!(comp.status, TMStatus::Timeout);
    assert_eq!(comp.tape.len(), 5);
    assert_eq!(comp.tape, vec![1, 3, 3, 3, 2]);
    assert_eq!(comp.head_position, 2);
    assert_eq!(comp.clock.time, 3);
    assert_eq!(comp.clock.space, 5);
}

#[test]
fn last_symbol_spaceout() {
    let machine = last_symbol_machine();

    let comp_result = machine.bounded_compute(&"1110".to_string(), (None, Some(5)));

    let mut comp = match comp_result {
        Ok(computation) => computation,
        Err(_) => panic!("Error in accepted computation"),
    };

    let _ = comp.compute();

    assert_eq!(comp.status, TMStatus::Spaceout);
    assert_eq!(comp.tape.len(), 6);
    assert_eq!(comp.tape, vec![1, 3, 3, 3, 2, 0]);
    assert_eq!(comp.head_position, 5);
    assert_eq!(comp.clock.time, 5);
    assert_eq!(comp.clock.space, 6);
}

#[test]
fn step_is_noop_after_terminal_status() {
    let machine = last_symbol_machine();
    let mut comp = machine.compute(&"1110".to_string()).unwrap();
    let _ = comp.compute();
    assert_eq!(comp.status, TMStatus::Accept);

    let tape_before = comp.tape.clone();
    let state_before = comp.current_state;
    let head_before = comp.head_position;
    let time_before = comp.clock.time;
    let space_before = comp.clock.space;
    for _ in 0..5 {
        let stepped = comp.step();
        assert!(stepped.is_ok());
    }
    assert_eq!(comp.status, TMStatus::Accept);
    assert_eq!(comp.tape, tape_before);
    assert_eq!(comp.current_state, state_before);
    assert_eq!(comp.head_position, head_before);
    assert_eq!(comp.clock.time, time_before);
    assert_eq!(comp.clock.space, space_before);
}

#[test]
fn tape_never_shrinks_and_head_stays_on_tape() {
    let machine = last_symbol_machine();
    let mut comp = machine.compute(&"1110".to_string()).unwrap();
    let mut len = comp.tape.len();
    while comp.status == TMStatus::Executing {
        comp.step().unwrap();
        assert!(comp.tape.len() >= len);
        len = comp.tape.len();
        if comp.status == TMStatus::Executing {
            assert!(comp.head_position < comp.tape.len());
        }
    }
}

#[test]
fn clock_counts_attempted_steps() {
    let machine = last_symbol_machine();
    let mut comp = machine.compute(&"0001".to_string()).unwrap();
    assert_eq!(comp.clock.time, 0);
    let mut attempts = 0;
    while comp.status == TMStatus::Executing {
        comp.step().unwrap();
        attempts += 1;
        assert_eq!(comp.clock.time, attempts);
    }
    assert_eq!(comp.clock.time, 7);
}

#[test]
fn spaceout_wins_over_accept_on_the_same_step() {
    // The default machine accepts in one step, but that step also grows the
    // tape past the budget: space exhaustion takes priority.
    let machine = TuringMachine::default();
    let mut comp = machine
        .bounded_compute(&"".to_string(), (None, Some(2)))
        .unwrap();
    let _ = comp.compute();
    assert_eq!(comp.status, TMStatus::Spaceout);
    assert_eq!(comp.tape, vec![1, 0]);
    assert_eq!(comp.head_position, 1);
    assert_eq!(comp.clock.time, 1);
    assert_eq!(comp.clock.space, 2);
}

#[test]
fn leftward_move_clamps_at_the_origin() {
    let machine = TuringMachine {
        transitions: vec![vec![
            Transition(1, 0, -5),
            Transition(1, 0, -5),
            Transition(1, 0, -5),
            Transition(1, 0, -5),
        ]],
        ..TuringMachine::default()
    };
    let mut comp = machine.compute(&"".to_string()).unwrap();
    let _ = comp.compute();
    assert_eq!(comp.status, TMStatus::Accept);
    assert_eq!(comp.head_position, 0);
    assert_eq!(comp.tape, vec![0]);
    assert_eq!(comp.clock.time, 1);
    assert_eq!(comp.clock.space, 1);
}

#[test]
fn rightward_move_grows_one_blank_per_cell() {
    let machine = TuringMachine {
        transitions: vec![vec![
            Transition(1, 2, 3),
            Transition(1, 2, 3),
            Transition(1, 2, 3),
            Transition(1, 2, 3),
        ]],
        ..TuringMachine::default()
    };
    let mut comp = machine.compute(&"".to_string()).unwrap();
    let _ = comp.compute();
    assert_eq!(comp.status, TMStatus::Accept);
    // the accepting step grew the tape to cover its move target but left
    // the head where the step began
    assert_eq!(comp.tape, vec![2, 0, 0, 0]);
    assert_eq!(comp.head_position, 0);
    assert_eq!(comp.clock.space, 4);
}

#[test]
fn an_exhausted_step_counter_is_the_fatal_fault() {
    // The step counter can no longer record an attempt: the step reports the
    // engine fault and leaves the run untouched.
    let machine = TuringMachine::default();
    let mut execution = TMExecution {
        machine: &machine,
        current_state: 0,
        head_position: 0,
        tape: vec![1],
        status: TMStatus::Executing,
        clock: TMClock {
            time_limit: None,
            time: usize::MAX,
            space_limit: None,
            space: 1,
        },
    };
    let fault = execution.step();
    assert_eq!(fault, Err(HeadOverflowFault));
    assert_eq!(execution.status, TMStatus::Executing);
    assert_eq!(execution.tape, vec![1]);
    assert_eq!(execution.clock.time, usize::MAX);
}

#[test]
fn timeout_freezes_the_run_before_the_transition() {
    let machine = TuringMachine::default();
    let mut comp = machine
        .bounded_compute(&"0".to_string(), (Some(1), None))
        .unwrap();
    let _ = comp.compute();
    assert_eq!(comp.status, TMStatus::Timeout);
    assert_eq!(comp.tape, vec![1, 2]);
    assert_eq!(comp.current_state, 0);
    assert_eq!(comp.head_position, 0);
    assert_eq!(comp.clock.time, 1);
    assert_eq!(comp.clock.space, 2);
}
