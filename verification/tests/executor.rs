use bf::{is_well_formed, parse_bf, run, Action, Machine, OpCode, RunOutcome};

const HELLO_WORLD: &str = "++++++++[>++++[>++>+++>+++>+<<<<-]>+>+>->>+[<]<-]>>.>---.+++++++..+++.>>.<-.<.+++.------.--------.>>+.>++.";

#[test]
fn empty_program_halts_immediately_with_no_output() {
    let code: Vec<OpCode> = Vec::new();
    let input: Vec<u8> = Vec::new();
    assert_eq!(run(&code, &input, 10), RunOutcome::Done(Vec::new()));
}

#[test]
fn pointer_wraps_backward_from_zero() {
    let code = vec![OpCode::DecPtr];
    let mut m = Machine::new();
    assert_eq!(m.ptr(), 0);
    assert_eq!(m.step(&code), Action::Continue);
    assert_eq!(m.ptr(), 29999);
}

#[test]
fn pointer_wraps_forward_to_zero() {
    let code = vec![OpCode::DecPtr, OpCode::IncPtr];
    let mut m = Machine::new();
    assert_eq!(m.step(&code), Action::Continue);
    assert_eq!(m.ptr(), 29999);
    assert_eq!(m.step(&code), Action::Continue);
    assert_eq!(m.ptr(), 0);
}

#[test]
fn cell_wraps_on_increment_past_255() {
    let code = vec![OpCode::Read, OpCode::IncVal];
    let mut m = Machine::new();
    assert_eq!(m.step(&code), Action::Input);
    m.give_input(&code, 255);
    assert_eq!(m.cell(), 255);
    assert_eq!(m.step(&code), Action::Continue);
    assert_eq!(m.cell(), 0);
}

#[test]
fn cell_wraps_on_decrement_below_zero() {
    let code = vec![OpCode::DecVal];
    let mut m = Machine::new();
    assert_eq!(m.cell(), 0);
    assert_eq!(m.step(&code), Action::Continue);
    assert_eq!(m.cell(), 255);
}

#[test]
fn taken_jump_lands_one_past_its_target() {
    // the cell is zero, so the opener jumps: execution lands just past the
    // closer at position 2, skipping the loop body entirely
    let code = parse_bf("[-]").unwrap();
    let mut m = Machine::new();
    assert_eq!(m.step(&code), Action::Continue);
    assert_eq!(m.pc(), 3);
    assert_eq!(m.step(&code), Action::Halt);
}

#[test]
fn hello_world_prints_exact_text() {
    let code = parse_bf(HELLO_WORLD).unwrap();
    let input: Vec<u8> = Vec::new();
    assert_eq!(run(&code, &input, 10_000_000), RunOutcome::Done(b"Hello World!\n".to_vec()));
}

#[test]
fn echo_copies_one_input_byte_to_output() {
    let code = parse_bf(",.").unwrap();
    let input = vec![b'A'];
    assert_eq!(run(&code, &input, 100), RunOutcome::Done(vec![b'A']));
}

#[test]
fn exhausted_input_fails_with_io_error() {
    let code = parse_bf(",.").unwrap();
    let input: Vec<u8> = Vec::new();
    assert_eq!(run(&code, &input, 100), RunOutcome::IOError);
}

#[test]
fn tight_loop_outlasts_any_budget() {
    let code = parse_bf("+[]").unwrap();
    let input: Vec<u8> = Vec::new();
    assert_eq!(run(&code, &input, 100_000), RunOutcome::Running);
}

#[test]
fn output_streams_in_execution_order() {
    let code = parse_bf("+.+.+.").unwrap();
    let input: Vec<u8> = Vec::new();
    assert_eq!(run(&code, &input, 100), RunOutcome::Done(vec![1, 2, 3]));
}

#[test]
fn well_formedness_accepts_translated_programs() {
    let code = parse_bf("+[>,.<-]").unwrap();
    assert!(is_well_formed(&code));
}

#[test]
fn well_formedness_rejects_a_jump_out_of_range() {
    let code = vec![OpCode::JmpFront(5)];
    assert!(!is_well_formed(&code));
    let code = vec![OpCode::IncVal, OpCode::JmpBack(7)];
    assert!(!is_well_formed(&code));
}
