use turing::machine::{Move, RuntimeError, State, Tape, TuringMachine};
use turing::parser::ParseErrorKind;

const INCREMENT: &str = "alphabet 0 1\ntapes main\nstates q0(initial) qf(final)\n[q0 >] -> [q0 @ ->]\n[q0 1] -> [q0 1 ->]\n[q0 0] -> [qf 1 -]\n";

fn cells(tape: &Tape) -> Vec<&str> {
    tape.content.iter().map(|s| s.as_str()).collect()
}

#[test]
fn parse_is_deterministic() {
    let m1 = TuringMachine::parse(INCREMENT).unwrap();
    let m2 = TuringMachine::parse(INCREMENT).unwrap();
    assert_eq!(m1.states, m2.states);
    assert_eq!(m1.transitions, m2.transitions);
    assert_eq!(m1, m2);
}

#[test]
fn parse_registers_machine() {
    let m = TuringMachine::parse(INCREMENT).unwrap();
    assert_eq!(m.initial_state, "q0");
    assert_eq!(m.current_state, "q0");
    assert_eq!(m.tapes.len(), 1);
    assert_eq!(m.tapes[0].name, "main");
    assert_eq!(m.states.len(), 2);
    assert_eq!(m.transitions.len(), 3);
    let t = &m.transitions[1];
    assert_eq!(t.input_state, "q0");
    assert_eq!(t.input_symbols, vec![String::from("1")]);
    assert_eq!(t.output_state, "q0");
    assert_eq!(t.output_symbols, vec![String::from("1")]);
    assert_eq!(t.moves, vec![Move::Right]);
}

#[test]
fn exactly_one_initial_flag() {
    let m = TuringMachine::parse(INCREMENT).unwrap();
    let flagged: Vec<&State> = m.states.iter().filter(|s| s.is_initial).collect();
    assert_eq!(flagged.len(), 1);
    assert_eq!(flagged[0].name, "q0");
}

#[test]
fn zero_initial_flags_fail() {
    let e = TuringMachine::parse("tapes a\nstates q0\n").unwrap_err();
    assert_eq!(e.kind, ParseErrorKind::NoInitialState);
    assert!(e.kind.is_reference_error());
}

#[test]
fn two_initial_flags_fail() {
    let e = TuringMachine::parse("states a(initial) b(initial) c\n").unwrap_err();
    assert_eq!(e.kind, ParseErrorKind::MultipleInitialStates);
    assert_eq!(e.line, 1);
    assert_eq!(e.token, "b");
}

#[test]
fn transition_tuples_share_one_arity() {
    let m = TuringMachine::parse(INCREMENT).unwrap();
    for t in &m.transitions {
        assert_eq!(t.input_symbols.len(), 1);
        assert_eq!(t.output_symbols.len(), 1);
        assert_eq!(t.moves.len(), 1);
    }
}

#[test]
fn too_few_moves_is_rejected() {
    let e = TuringMachine::parse(
        "tapes a b\nstates q0(initial)\n[q0 0 0] -> [q0 1 1 ->]\n",
    )
    .unwrap_err();
    assert_eq!(e.kind, ParseErrorKind::ArityMismatch);
    assert_eq!(e.line, 3);
}

#[test]
fn too_few_read_symbols_is_rejected() {
    let e = TuringMachine::parse(
        "tapes a b\nstates q0(initial)\n[q0 0] -> [q0 1 1 -> ->]\n",
    )
    .unwrap_err();
    assert_eq!(e.kind, ParseErrorKind::ArityMismatch);
    assert_eq!(e.line, 3);
}

#[test]
fn reset_seeds_marker_then_chars() {
    let mut tape = Tape::new(String::from("t"));
    tape.cursor = 0;
    tape.reset("ab");
    assert_eq!(cells(&tape), vec![">", "a", "b"]);
    assert_eq!(tape.cursor, 0);
}

#[test]
fn reset_with_empty_seed_keeps_only_marker() {
    let mut tape = Tape::new(String::from("t"));
    tape.reset("");
    assert_eq!(cells(&tape), vec![">"]);
    assert_eq!(tape.cursor, 0);
}

#[test]
fn reset_leaves_tapes_beyond_seed_list() {
    let mut m = TuringMachine::parse(
        "tapes a b\nstates q0(initial)\n[q0 0 0] -> [q0 1 1 -> ->]\n",
    )
    .unwrap();
    let mut seeds = vec![String::from("x")];
    m.reset(&mut seeds);
    assert_eq!(cells(&m.tapes[0]), vec![">", "x"]);
    assert_eq!(cells(&m.tapes[1]), vec![">"]);
}

#[test]
fn right_move_at_last_cell_appends_blank() {
    let mut m = TuringMachine::parse(
        "tapes t\nstates q0(initial)\n[q0 >] -> [q0 @ ->]\n",
    )
    .unwrap();
    assert_eq!(cells(&m.tapes[0]), vec![">"]);
    assert_eq!(m.step(), Ok(()));
    assert_eq!(cells(&m.tapes[0]), vec![">", "_"]);
    assert_eq!(m.tapes[0].cursor, 1);
}

#[test]
fn left_move_at_zero_underflows() {
    let mut m = TuringMachine::parse(
        "tapes t\nstates q0(initial)\n[q0 >] -> [q0 @ <-]\n",
    )
    .unwrap();
    assert_eq!(m.step(), Err(RuntimeError::TapeUnderflow));
    assert_eq!(m.tapes[0].cursor, 0);
    assert_eq!(cells(&m.tapes[0]), vec![">"]);
    assert_eq!(m.current_state, "q0");
}

#[test]
fn done_reads_only_the_final_flag() {
    let mut m = TuringMachine::parse(INCREMENT).unwrap();
    assert!(!m.done());
    let mut seeds = vec![String::from("0")];
    m.reset(&mut seeds);
    assert!(!m.done());
    m.current_state = String::from("qf");
    assert!(m.done());
}

#[test]
fn unary_increment_scenario() {
    let mut m = TuringMachine::parse(INCREMENT).unwrap();
    let mut seeds = vec![String::from("110")];
    m.reset(&mut seeds);
    assert_eq!(cells(&m.tapes[0]), vec![">", "1", "1", "0"]);
    let mut steps = 0;
    while !m.done() {
        assert_eq!(m.step(), Ok(()));
        steps += 1;
        assert!(steps <= 100, "machine did not halt");
    }
    assert_eq!(m.current_state, "qf");
    assert_eq!(cells(&m.tapes[0]), vec![">", "1", "1", "1"]);
    assert_eq!(m.tapes[0].cursor, 3);
}

#[test]
fn missing_transition_scenario() {
    let mut m = TuringMachine::parse(
        "tapes main\nstates q0(initial)\n[q0 >] -> [q0 @ ->]\n[q0 0] -> [q0 0 -]\n",
    )
    .unwrap();
    let mut seeds = vec![String::from("1")];
    m.reset(&mut seeds);
    assert_eq!(m.step(), Ok(()));
    assert_eq!(m.step(), Err(RuntimeError::MissingTransition));
    assert_eq!(m.current_state, "q0");
}

#[test]
fn arity_error_scenario() {
    let e = TuringMachine::parse(
        "tapes a b\nstates q0(initial)\n[q0 0 0] -> [q0 1\n",
    )
    .unwrap_err();
    assert_eq!(e.kind, ParseErrorKind::UnexpectedLineBreak);
    assert_eq!(e.line, 3);
    assert!(e.kind.is_syntax_error());
}

#[test]
fn unknown_command_is_reported() {
    let e = TuringMachine::parse("bogus x\n").unwrap_err();
    assert_eq!(e.kind, ParseErrorKind::UnknownCommand);
    assert_eq!(e.line, 1);
    assert_eq!(e.token, "bogus");
}

#[test]
fn unknown_state_option_is_reported() {
    let e = TuringMachine::parse("states q0(weird)\n").unwrap_err();
    assert_eq!(e.kind, ParseErrorKind::UnknownStateOption);
    assert_eq!(e.line, 1);
    assert_eq!(e.token, "weird");
}

#[test]
fn line_break_in_state_options_is_reported() {
    let e = TuringMachine::parse("states q0(initial\n").unwrap_err();
    assert_eq!(e.kind, ParseErrorKind::UnexpectedLineBreak);
}

#[test]
fn undefined_input_state_is_reported() {
    let e = TuringMachine::parse(
        "tapes a\nstates q0(initial)\n[zz 0] -> [q0 0 -]\n",
    )
    .unwrap_err();
    assert_eq!(e.kind, ParseErrorKind::UndefinedState);
    assert_eq!(e.line, 3);
    assert_eq!(e.token, "zz");
}

#[test]
fn undefined_output_state_is_reported() {
    let e = TuringMachine::parse(
        "tapes a\nstates q0(initial)\n[q0 0] -> [zz 0 -]\n",
    )
    .unwrap_err();
    assert_eq!(e.kind, ParseErrorKind::UndefinedState);
    assert_eq!(e.line, 3);
    assert_eq!(e.token, "zz");
}

#[test]
fn unknown_move_is_reported() {
    let e = TuringMachine::parse(
        "tapes a\nstates q0(initial)\n[q0 0] -> [q0 0 x]\n",
    )
    .unwrap_err();
    assert_eq!(e.kind, ParseErrorKind::UnknownMove);
    assert_eq!(e.line, 3);
    assert_eq!(e.token, "x");
}

#[test]
fn move_tokens_parse() {
    assert_eq!(Move::new("->"), Some(Move::Right));
    assert_eq!(Move::new("<-"), Some(Move::Left));
    assert_eq!(Move::new("-"), Some(Move::Stay));
    assert_eq!(Move::new("x"), None);
    assert_eq!(Move::new(""), None);
}

#[test]
fn state_new_sets_flags() {
    let s = State::new("q0", true, false);
    assert_eq!(s.name, "q0");
    assert!(s.is_final);
    assert!(!s.is_initial);
}

#[test]
fn tape_new_holds_marker() {
    let t = Tape::new(String::from("main"));
    assert_eq!(t.name, "main");
    assert_eq!(cells(&t), vec![">"]);
    assert_eq!(t.cursor, 0);
}

#[test]
fn machine_new_starts_at_initial() {
    let m = TuringMachine::new(String::from("a"), Vec::new(), Vec::new(), Vec::new());
    assert_eq!(m.initial_state, "a");
    assert_eq!(m.current_state, "a");
}

#[test]
fn duplicate_rule_key_keeps_last() {
    let m = TuringMachine::parse(
        "tapes a\nstates q0(initial) q1\n[q0 0] -> [q0 0 -]\n[q0 0] -> [q1 1 ->]\n",
    )
    .unwrap();
    assert_eq!(m.transitions.len(), 1);
    assert_eq!(m.transitions[0].output_state, "q1");
    assert_eq!(m.transitions[0].output_symbols[0], "1");
    assert_eq!(m.transitions[0].moves[0], Move::Right);
}

#[test]
fn write_sentinel_keeps_cell() {
    let mut m = TuringMachine::parse(
        "tapes t\nstates q0(initial) qf(final)\n[q0 >] -> [qf @ -]\n",
    )
    .unwrap();
    assert_eq!(m.step(), Ok(()));
    assert_eq!(cells(&m.tapes[0]), vec![">"]);
    assert_eq!(m.current_state, "qf");
    assert!(m.done());
}

#[test]
fn two_tape_lock_step() {
    let mut m = TuringMachine::parse(
        "tapes a b\nstates q0(initial) qf(final)\n[q0 > >] -> [qf x y -> -]\n",
    )
    .unwrap();
    assert_eq!(m.step(), Ok(()));
    assert_eq!(cells(&m.tapes[0]), vec!["x", "_"]);
    assert_eq!(m.tapes[0].cursor, 1);
    assert_eq!(cells(&m.tapes[1]), vec!["y"]);
    assert_eq!(m.tapes[1].cursor, 0);
    assert!(m.done());
}

#[test]
fn reset_restarts_tapes_but_not_state() {
    let mut m = TuringMachine::parse(INCREMENT).unwrap();
    let mut seeds = vec![String::from("0")];
    m.reset(&mut seeds);
    assert_eq!(m.step(), Ok(()));
    assert_eq!(m.step(), Ok(()));
    assert_eq!(m.current_state, "qf");
    let mut seeds = vec![String::from("0")];
    m.reset(&mut seeds);
    assert_eq!(cells(&m.tapes[0]), vec![">", "0"]);
    assert_eq!(m.tapes[0].cursor, 0);
    assert_eq!(m.current_state, "qf");
}

#[test]
fn comment_lines_are_skipped() {
    let m = TuringMachine::parse("# a comment line\nstates q0(initial)\n").unwrap();
    assert_eq!(m.initial_state, "q0");
}
