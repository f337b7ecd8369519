use tm_engine::{State, TMClock, TMExecution, TMStatus, Transition, TuringMachine, UnknownSymbolError};

#[test]
fn encode_seeds_the_left_end_marker() {
    let machine = TuringMachine::default();
    let tape = machine.encode(&"0110".to_string()).unwrap();
    assert_eq!(tape, vec![1, 2, 3, 3, 2]);
}

#[test]
fn encode_empty_word_is_the_marker_alone() {
    let machine = TuringMachine::default();
    let tape = machine.encode(&"".to_string()).unwrap();
    assert_eq!(tape, vec![1]);
}

#[test]
fn encode_accepts_tape_control_characters() {
    // the language alphabet is consulted first, then the tape-control one
    let machine = TuringMachine::default();
    let tape = machine.encode(&"_>01".to_string()).unwrap();
    assert_eq!(tape, vec![1, 0, 1, 2, 3]);
}

#[test]
fn unknown_symbol_is_reported_and_no_execution_is_produced() {
    let machine = TuringMachine::default();
    match machine.compute(&"0120".to_string()) {
        Ok(_) => panic!("a word with an unknown character must not encode"),
        Err(e) => assert_eq!(e, UnknownSymbolError('2')),
    }
}

#[test]
fn the_first_unknown_character_is_the_one_reported() {
    let machine = TuringMachine::default();
    match machine.bounded_compute(&"1x0y".to_string(), (Some(10), Some(10))) {
        Ok(_) => panic!("a word with an unknown character must not encode"),
        Err(e) => assert_eq!(e, UnknownSymbolError('x')),
    }
}

#[test]
fn render_reproduces_the_encoded_word() {
    let machine = TuringMachine::default();
    let comp = machine.compute(&"0110".to_string()).unwrap();
    assert_eq!(comp.render(), "(q0)>0110".to_string());
}

#[test]
fn render_marks_the_head_cell_with_the_state_label() {
    let machine = TuringMachine::default();
    let execution = TMExecution {
        machine: &machine,
        current_state: 2,
        head_position: 1,
        tape: vec![1, 2, 3],
        status: TMStatus::Executing,
        clock: TMClock {
            time_limit: None,
            time: 0,
            space_limit: None,
            space: 3,
        },
    };
    assert_eq!(execution.render(), ">(q2)01".to_string());
}

#[test]
fn render_uses_the_machine_labels() {
    let machine = TuringMachine {
        states: vec![
            State("start".to_string()),
            State("accept".to_string()),
            State("reject".to_string()),
        ],
        transitions: vec![vec![
            Transition(1, 0, 1),
            Transition(1, 1, 1),
            Transition(1, 2, 1),
            Transition(1, 3, 1),
        ]],
        ..TuringMachine::default()
    };
    let mut comp = machine.compute(&"10".to_string()).unwrap();
    assert_eq!(comp.render(), "(start)>10".to_string());
    let _ = comp.compute();
    assert_eq!(comp.status, TMStatus::Accept);
    assert_eq!(comp.render(), "(accept)>10".to_string());
}
