use bf_interp::brackets::{build_bracket_map, BracketError};
use bf_interp::engine::{Action, Machine, TAPE_LEN};
use bf_interp::instruction::{filter_commands, Instruction};

fn run_source(source: &str, input: &[u8]) -> (Machine, Vec<u8>) {
    let mut m = Machine::from_source(source.as_bytes()).expect("brackets pair up");
    let out = m.run(input, 10_000_000);
    (m, out)
}

#[test]
fn from_byte_knows_the_eight_commands() {
    assert_eq!(Instruction::from_byte(b'>'), Some(Instruction::MoveRight));
    assert_eq!(Instruction::from_byte(b'<'), Some(Instruction::MoveLeft));
    assert_eq!(Instruction::from_byte(b'+'), Some(Instruction::Increment));
    assert_eq!(Instruction::from_byte(b'-'), Some(Instruction::Decrement));
    assert_eq!(Instruction::from_byte(b'.'), Some(Instruction::Output));
    assert_eq!(Instruction::from_byte(b','), Some(Instruction::Input));
    assert_eq!(Instruction::from_byte(b'['), Some(Instruction::LoopStart));
    assert_eq!(Instruction::from_byte(b']'), Some(Instruction::LoopEnd));
    assert_eq!(Instruction::from_byte(b'a'), None);
    assert_eq!(Instruction::from_byte(b' '), None);
}

#[test]
fn filter_keeps_only_commands_in_order() {
    let p = filter_commands(b"a+ b\n-[x].,<>!");
    assert_eq!(
        p,
        vec![
            Instruction::Increment,
            Instruction::Decrement,
            Instruction::LoopStart,
            Instruction::LoopEnd,
            Instruction::Output,
            Instruction::Input,
            Instruction::MoveLeft,
            Instruction::MoveRight,
        ]
    );
}

#[test]
fn filter_length_counts_command_characters() {
    let src = b"hello + world - [ comment ] . ,";
    let count = src
        .iter()
        .filter(|b| b"><+-.,[]".contains(b))
        .count();
    assert_eq!(filter_commands(src).len(), count);
    assert_eq!(count, 6);
}

#[test]
fn filter_of_empty_and_command_free_text_is_empty() {
    assert!(filter_commands(b"").is_empty());
    assert!(filter_commands(b"no commands here").is_empty());
}

#[test]
fn non_commands_do_not_change_the_program() {
    assert_eq!(filter_commands(b"+[-]."), filter_commands(b"x+ [q-]z.\n"));
}

#[test]
fn bracket_map_pairs_nested_loops() {
    let p = filter_commands(b"[+[-]]");
    let map = build_bracket_map(&p).unwrap();
    assert_eq!(map, vec![Some(5), None, Some(4), None, Some(2), Some(0)]);
}

#[test]
fn bracket_map_is_an_involution() {
    let p = filter_commands(b"++[>[-]<[>+<-]]>[.][[][]]");
    let map = build_bracket_map(&p).unwrap();
    for (i, ins) in p.iter().enumerate() {
        let bracket = matches!(ins, Instruction::LoopStart | Instruction::LoopEnd);
        assert_eq!(map[i].is_some(), bracket);
        if let Some(j) = map[i] {
            assert_eq!(map[j], Some(i));
        }
    }
}

#[test]
fn bracket_map_of_program_without_loops() {
    let p = filter_commands(b"+-.");
    assert_eq!(build_bracket_map(&p), Ok(vec![None, None, None]));
    assert_eq!(build_bracket_map(&[]), Ok(vec![]));
}

#[test]
fn extra_loop_end_is_reported() {
    let p = filter_commands(b"[+]]");
    assert_eq!(build_bracket_map(&p), Err(BracketError::UnmatchedLoopEnd));
    let p = filter_commands(b"][");
    assert_eq!(build_bracket_map(&p), Err(BracketError::UnmatchedLoopEnd));
    assert!(Machine::from_source(b"+]").is_err());
}

#[test]
fn extra_loop_start_is_reported() {
    let p = filter_commands(b"[[+]");
    assert_eq!(build_bracket_map(&p), Err(BracketError::UnmatchedLoopStart));
    assert!(Machine::from_source(b"+[").is_err());
}

#[test]
fn increment_wraps_to_zero() {
    let src = "+".repeat(255);
    let (m, _) = run_source(&src, &[]);
    assert_eq!(m.tape()[0], 255);
    let (m, _) = run_source(&(src + "+"), &[]);
    assert_eq!(m.tape()[0], 0);
}

#[test]
fn decrement_wraps_to_255() {
    let (m, out) = run_source("-.", &[]);
    assert_eq!(m.tape()[0], 255);
    assert_eq!(out, vec![255]);
}

#[test]
fn move_left_saturates_at_first_cell() {
    let (m, _) = run_source("<<<<<+", &[]);
    assert_eq!(m.data_pointer(), 0);
    assert_eq!(m.tape()[0], 1);
}

#[test]
fn move_right_saturates_at_last_cell() {
    let src = ">".repeat(TAPE_LEN + 5) + "+";
    let (m, _) = run_source(&src, &[]);
    assert_eq!(m.data_pointer(), TAPE_LEN - 1);
    assert_eq!(m.tape()[TAPE_LEN - 1], 1);
    assert_eq!(m.tape()[TAPE_LEN - 2], 0);
}

#[test]
fn new_machine_starts_zeroed() {
    let m = Machine::new(vec![Instruction::Output]).unwrap();
    assert_eq!(m.tape().len(), TAPE_LEN);
    assert!(m.tape().iter().all(|&c| c == 0));
    assert_eq!(m.data_pointer(), 0);
    assert_eq!(m.instruction_pointer(), 0);
    assert_eq!(m.program(), &[Instruction::Output]);
    assert!(!m.is_halted());
}

#[test]
fn two_increments_then_output() {
    let (m, out) = run_source("++.", &[]);
    assert_eq!(out, vec![2]);
    assert!(m.is_halted());
}

#[test]
fn loop_clears_cell() {
    let (m, out) = run_source("+[-]", &[]);
    assert!(out.is_empty());
    assert!(m.is_halted());
    assert_eq!(m.tape()[0], 0);
}

#[test]
fn input_is_echoed() {
    let (m, out) = run_source(",.", &[65]);
    assert_eq!(out, vec![65]);
    assert!(m.is_halted());
}

#[test]
fn input_at_end_of_stream_stores_zero() {
    let (m, out) = run_source("+++,.", &[]);
    assert_eq!(out, vec![0]);
    assert_eq!(m.tape()[0], 0);
}

#[test]
fn lone_loop_start_is_rejected() {
    match Machine::from_source(b"[") {
        Err(e) => {
            assert_eq!(e, BracketError::UnmatchedLoopStart);
            assert_eq!(e.message(), "Unmatched '['");
        }
        Ok(_) => panic!("a lone [ must be rejected"),
    }
}

#[test]
fn lone_loop_end_is_rejected() {
    match Machine::from_source(b"]") {
        Err(e) => {
            assert_eq!(e, BracketError::UnmatchedLoopEnd);
            assert_eq!(e.message(), "Unmatched ']'");
        }
        Ok(_) => panic!("a lone ] must be rejected"),
    }
}

#[test]
fn hello_world() {
    let src = "++++++++[>++++[>++>+++>+++>+<<<<-]>+>+>->>+[<]<-]>>.>---.+++++++..+++.>>.<-.<.+++.------.--------.>>+.>++.";
    let (m, out) = run_source(src, &[]);
    assert_eq!(out, b"Hello World!\n".to_vec());
    assert!(m.is_halted());
}

#[test]
fn step_and_feed_drive_input_and_output() {
    let mut m = Machine::from_source(b",+.").unwrap();
    assert_eq!(m.step(), Action::Read);
    assert_eq!(m.instruction_pointer(), 0);
    m.feed(Some(b'a'));
    assert_eq!(m.step(), Action::Continue);
    assert_eq!(m.step(), Action::Write(b'b'));
    assert_eq!(m.step(), Action::Halt);
    assert_eq!(m.step(), Action::Halt);
}

#[test]
fn feed_with_end_of_input_stores_zero() {
    let mut m = Machine::from_source(b"+,").unwrap();
    assert_eq!(m.step(), Action::Continue);
    assert_eq!(m.step(), Action::Read);
    m.feed(None);
    assert_eq!(m.tape()[0], 0);
    assert!(m.is_halted());
}

#[test]
fn loop_start_on_zero_skips_body() {
    let mut m = Machine::from_source(b"[+.]+").unwrap();
    assert_eq!(m.step(), Action::Continue);
    assert_eq!(m.instruction_pointer(), 4);
    let out = m.run(&[], 100);
    assert!(out.is_empty());
    assert_eq!(m.tape()[0], 1);
}

#[test]
fn run_stops_after_step_budget() {
    let mut m = Machine::from_source(b"+[]").unwrap();
    let out = m.run(&[], 50);
    assert!(out.is_empty());
    assert!(!m.is_halted());
    assert_eq!(m.instruction_pointer(), 2);
}

#[test]
fn bracket_error_messages() {
    assert_eq!(BracketError::UnmatchedLoopStart.message(), "Unmatched '['");
    assert_eq!(BracketError::UnmatchedLoopEnd.message(), "Unmatched ']'");
}
