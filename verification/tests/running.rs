use brainfuck::error::Error;
use brainfuck::interpreter::{Interpreter, INITIAL_CELLS};
use brainfuck::machine::{Signal, Stop};
use brainfuck::opcode::Code;

fn run_on(program: &[u8], input: &[u8], limit: usize) -> (Interpreter, Vec<u8>, Result<Stop, Error>) {
    let mut machine = Interpreter::new();
    let mut output = Vec::new();
    let r = machine.run(program.to_vec(), input, &mut output, limit);
    (machine, output, r)
}

#[test]
fn new_machine_has_ten_zero_cells() {
    let machine = Interpreter::new();
    assert_eq!(INITIAL_CELLS, 10);
    assert_eq!(machine.tape(), &vec![0u8; 10]);
    assert_eq!(machine.cursor(), 0);
    assert_eq!(machine.counter(), 0);
    assert_eq!(machine.cell(), 0);
}

#[test]
fn two_increments_then_output() {
    let (machine, output, r) = run_on(b"++.", b"", 1000);
    assert_eq!(r, Ok(Stop::Halted));
    assert_eq!(output, vec![2u8]);
    assert_eq!(machine.counter(), 3);
    assert_eq!(machine.tape()[0], 2);
}

#[test]
fn loop_body_runs_once_and_clears_cell() {
    let (machine, output, r) = run_on(b"+[-]", b"", 1000);
    assert_eq!(r, Ok(Stop::Halted));
    assert_eq!(output, Vec::<u8>::new());
    assert_eq!(machine.tape()[0], 0);
    assert_eq!(machine.counter(), 4);
    // `+`, `[`, `-`, `]`: four steps, so the body ran once.
    let (_, _, exact) = run_on(b"+[-]", b"", 4);
    assert_eq!(exact, Ok(Stop::Halted));
    let (short, _, early) = run_on(b"+[-]", b"", 3);
    assert_eq!(early, Ok(Stop::LimitReached));
    assert_eq!(short.counter(), 3);
    assert_eq!(short.tape()[0], 0);
}

#[test]
fn input_is_echoed() {
    let (machine, output, r) = run_on(b",.", &[0x41], 1000);
    assert_eq!(r, Ok(Stop::Halted));
    assert_eq!(output, vec![0x41u8]);
    assert_eq!(machine.tape()[0], 0x41);
}

#[test]
fn unmatched_closer_runs_nothing() {
    let mut machine = Interpreter::new();
    let mut output = vec![7u8];
    let r = machine.run(b"+.]".to_vec(), &[], &mut output, 1000);
    assert_eq!(r, Err(Error::UnbalancedBracket));
    assert_eq!(output, vec![7u8]);
    assert_eq!(machine.tape(), &vec![0u8; 10]);
    assert_eq!(machine.cursor(), 0);
    assert_eq!(machine.counter(), 0);

    let (_, output, r) = run_on(b"]", b"", 1000);
    assert_eq!(r, Err(Error::UnbalancedBracket));
    assert_eq!(output, Vec::<u8>::new());
}

#[test]
fn unmatched_opener_runs_nothing() {
    let (machine, output, r) = run_on(b"+.[", b"", 1000);
    assert_eq!(r, Err(Error::UnbalancedBracket));
    assert_eq!(output, Vec::<u8>::new());
    assert_eq!(machine.tape(), &vec![0u8; 10]);
}

#[test]
fn commentary_changes_nothing() {
    let (with, out_with, r_with) = run_on(b"+x+.", b"", 1000);
    let (without, out_without, r_without) = run_on(b"++.", b"", 1000);
    assert_eq!(out_with, vec![2u8]);
    assert_eq!(out_with, out_without);
    assert_eq!(r_with, r_without);
    assert_eq!(with.tape(), without.tape());
    assert_eq!(with.cursor(), without.cursor());
    assert_eq!(with.counter(), without.counter());
}

#[test]
fn increment_wraps_after_255() {
    let program = vec![b'+'; 256];
    let (machine, _, r) = run_on(&program, b"", 1000);
    assert_eq!(r, Ok(Stop::Halted));
    assert_eq!(machine.tape()[0], 0);
    let (machine, _, _) = run_on(&program[..255], b"", 1000);
    assert_eq!(machine.tape()[0], 255);
}

#[test]
fn decrement_wraps_below_zero() {
    let (machine, output, _) = run_on(b"-.", b"", 1000);
    assert_eq!(output, vec![255u8]);
    assert_eq!(machine.tape()[0], 255);
    let (machine, _, _) = run_on(&vec![b'-'; 256], b"", 1000);
    assert_eq!(machine.tape()[0], 0);
}

#[test]
fn increments_and_decrements_cancel() {
    let (machine, output, _) = run_on(b",+++---.---+++.-+.+-.", &[200], 1000);
    assert_eq!(output, vec![200u8, 200, 200, 200]);
    assert_eq!(machine.tape()[0], 200);
    let (_, output, _) = run_on(b"-+.+-.", b"", 1000);
    assert_eq!(output, vec![0u8, 0]);
}

#[test]
fn moving_right_within_the_tape_keeps_its_length() {
    let (machine, _, _) = run_on(b">>>>>>>>>", b"", 1000);
    assert_eq!(machine.cursor(), 9);
    assert_eq!(machine.tape().len(), 10);
}

#[test]
fn moving_right_to_the_end_appends_zero_cells() {
    let (machine, output, r) = run_on(b"+>+>+>+>+>+>+>+>+>+>.", b"", 1000);
    assert_eq!(r, Ok(Stop::Halted));
    assert_eq!(machine.cursor(), 10);
    assert_eq!(machine.tape().len(), 20);
    assert_eq!(output, vec![0u8]);
    let mut expected = vec![1u8; 10];
    expected.extend(vec![0u8; 10]);
    assert_eq!(machine.tape(), &expected);
}

#[test]
fn tape_grows_by_the_initial_length_each_time() {
    let (machine, _, _) = run_on(&vec![b'>'; 20], b"", 1000);
    assert_eq!(machine.cursor(), 20);
    assert_eq!(machine.tape(), &vec![0u8; 30]);
    let (machine, _, _) = run_on(&vec![b'>'; 30], b"", 1000);
    assert_eq!(machine.cursor(), 30);
    assert_eq!(machine.tape(), &vec![0u8; 40]);
}

#[test]
fn moving_left_at_cell_zero_does_nothing() {
    let (machine, output, r) = run_on(b"<<<+.", b"", 1000);
    assert_eq!(r, Ok(Stop::Halted));
    assert_eq!(machine.cursor(), 0);
    assert_eq!(output, vec![1u8]);
    assert_eq!(machine.tape().len(), 10);
    let (machine, _, _) = run_on(b"><<>", b"", 1000);
    assert_eq!(machine.cursor(), 1);
}

#[test]
fn loop_is_skipped_on_zero_cell() {
    let (machine, output, r) = run_on(b"[+.]>+.", b"", 1000);
    assert_eq!(r, Ok(Stop::Halted));
    assert_eq!(output, vec![1u8]);
    assert_eq!(machine.tape()[0], 0);
    assert_eq!(machine.tape()[1], 1);
    assert_eq!(machine.counter(), 7);
}

#[test]
fn loops_multiply() {
    // 6 * 7 into the second cell
    let (machine, output, r) = run_on(b"++++++[>+++++++<-]>.", b"", 10_000);
    assert_eq!(r, Ok(Stop::Halted));
    assert_eq!(output, vec![42u8]);
    assert_eq!(machine.tape()[0], 0);
    assert_eq!(machine.tape()[1], 42);
}

#[test]
fn nested_loops_run() {
    // 3 * 4 * 5 into the third cell
    let (_, output, r) = run_on(b"+++[>++++[>+++++<-]<-]>>.", b"", 10_000);
    assert_eq!(r, Ok(Stop::Halted));
    assert_eq!(output, vec![60u8]);
}

#[test]
fn input_bytes_are_taken_in_turn() {
    let (machine, output, r) = run_on(b",>,>,<<.>.>.", &[3, 2, 1, 9], 1000);
    assert_eq!(r, Ok(Stop::Halted));
    assert_eq!(output, vec![3u8, 2, 1]);
    assert_eq!(&machine.tape()[..3], &[3u8, 2, 1]);
}

#[test]
fn input_exhausted_fails_and_keeps_output() {
    let (machine, output, r) = run_on(b"+.,.", b"", 1000);
    assert_eq!(r, Err(Error::InputExhausted));
    assert_eq!(output, vec![1u8]);
    assert_eq!(machine.counter(), 2);
    assert_eq!(machine.tape()[0], 1);
    let (_, output, r) = run_on(b",.,.", &[5], 1000);
    assert_eq!(r, Err(Error::InputExhausted));
    assert_eq!(output, vec![5u8]);
}

#[test]
fn endless_loop_stops_at_the_limit() {
    let (machine, output, r) = run_on(b"+[]", b"", 101);
    assert_eq!(r, Ok(Stop::LimitReached));
    assert_eq!(output, Vec::<u8>::new());
    assert_eq!(machine.tape()[0], 1);
    let (_, output, r) = run_on(b"+[.]", b"", 7);
    assert_eq!(r, Ok(Stop::LimitReached));
    assert_eq!(output, vec![1u8, 1, 1]);
}

#[test]
fn limit_zero_runs_nothing() {
    let (machine, output, r) = run_on(b"+.", b"", 0);
    assert_eq!(r, Ok(Stop::LimitReached));
    assert_eq!(output, Vec::<u8>::new());
    assert_eq!(machine.tape()[0], 0);
    let (_, _, r) = run_on(b"", b"", 0);
    assert_eq!(r, Ok(Stop::Halted));
    let (_, _, r) = run_on(b"no code here", b"", 0);
    assert_eq!(r, Ok(Stop::Halted));
}

#[test]
fn second_run_starts_over_on_the_same_tape() {
    let mut machine = Interpreter::new();
    let mut output = Vec::new();
    let r = machine.run(b"+++>++".to_vec(), &[], &mut output, 1000);
    assert_eq!(r, Ok(Stop::Halted));
    assert_eq!(machine.cursor(), 1);
    let r = machine.run(b".>.".to_vec(), &[], &mut output, 1000);
    assert_eq!(r, Ok(Stop::Halted));
    assert_eq!(output, vec![3u8, 2]);
}

#[test]
fn step_reports_each_instruction() {
    let code = Code::from(b"+.,[-]<>".to_vec()).ok().unwrap();
    let mut machine = Interpreter::new();
    assert!(!machine.wants_input(&code));
    assert_eq!(machine.step(&code, None), Ok(Signal::Stepped));
    assert_eq!(machine.cell(), 1);
    assert_eq!(machine.step(&code, None), Ok(Signal::Output(1)));
    assert_eq!(machine.counter(), 2);
    assert!(machine.wants_input(&code));
    assert_eq!(machine.step(&code, None), Err(Error::InputExhausted));
    assert_eq!(machine.counter(), 2);
    assert_eq!(machine.cell(), 1);
    assert_eq!(machine.step(&code, Some(2)), Ok(Signal::Stepped));
    assert_eq!(machine.cell(), 2);
    assert_eq!(machine.counter(), 3);
    // `[` on a nonzero cell goes on into the body
    assert_eq!(machine.step(&code, None), Ok(Signal::Stepped));
    assert_eq!(machine.counter(), 4);
    assert_eq!(machine.step(&code, None), Ok(Signal::Stepped));
    assert_eq!(machine.cell(), 1);
    // `]` on a nonzero cell resumes just after the `[`
    assert_eq!(machine.step(&code, None), Ok(Signal::Stepped));
    assert_eq!(machine.counter(), 4);
    assert_eq!(machine.step(&code, None), Ok(Signal::Stepped));
    assert_eq!(machine.cell(), 0);
    // `]` on a zero cell goes on
    assert_eq!(machine.step(&code, None), Ok(Signal::Stepped));
    assert_eq!(machine.counter(), 6);
    assert_eq!(machine.step(&code, None), Ok(Signal::Stepped));
    assert_eq!(machine.cursor(), 0);
    assert_eq!(machine.step(&code, None), Ok(Signal::Stepped));
    assert_eq!(machine.cursor(), 1);
    assert_eq!(machine.counter(), 8);
    assert_eq!(machine.step(&code, None), Ok(Signal::Halted));
    assert_eq!(machine.step(&code, Some(9)), Ok(Signal::Halted));
    assert_eq!(machine.counter(), 8);
    assert_eq!(machine.cursor(), 1);
}

#[test]
fn step_jumps_past_the_closer_on_zero() {
    let code = Code::from(b"[+]+".to_vec()).ok().unwrap();
    let mut machine = Interpreter::new();
    assert_eq!(machine.step(&code, None), Ok(Signal::Stepped));
    assert_eq!(machine.counter(), 3);
    assert_eq!(machine.cell(), 0);
}

#[test]
fn step_ignores_input_it_does_not_need() {
    let code = Code::from(b"+".to_vec()).ok().unwrap();
    let mut machine = Interpreter::new();
    assert_eq!(machine.step(&code, Some(77)), Ok(Signal::Stepped));
    assert_eq!(machine.cell(), 1);
}

#[test]
fn rewind_keeps_the_tape() {
    let code = Code::from(b"+>++".to_vec()).ok().unwrap();
    let mut machine = Interpreter::new();
    while machine.step(&code, None) != Ok(Signal::Halted) {}
    assert_eq!(machine.cursor(), 1);
    assert_eq!(machine.counter(), 4);
    machine.rewind();
    assert_eq!(machine.cursor(), 0);
    assert_eq!(machine.counter(), 0);
    assert_eq!(&machine.tape()[..2], &[1u8, 2]);
}
