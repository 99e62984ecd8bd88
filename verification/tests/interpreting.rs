use bfrun::encoder::parse;
use bfrun::encoder::Operation;
use bfrun::errors::Error;
use bfrun::input::parse_cell_value;
use bfrun::lexer::lex;
use bfrun::machine::cell_dec;
use bfrun::machine::cell_inc;
use bfrun::machine::execute;
use bfrun::machine::interpret;
use bfrun::machine::zero_tape;
use bfrun::machine::RunOutcome;

const BUDGET: u64 = 100_000_000;

fn compile(src: &str) -> Vec<Operation> {
    parse(&lex(&src.as_bytes().to_vec())).unwrap()
}

fn run_program(src: &str, input: Vec<&str>) -> RunOutcome {
    let lines: Vec<Vec<u8>> = input.iter().map(|l| l.as_bytes().to_vec()).collect();
    interpret(&compile(src), &lines, BUDGET)
}

fn expect_output(r: RunOutcome) -> Vec<u8> {
    match r {
        RunOutcome::Done(out) => out,
        RunOutcome::Fail(e) => panic!("program failed: {:?}", e),
        RunOutcome::Running => panic!("step budget ran out"),
    }
}

fn expect_error(r: RunOutcome) -> Error {
    match r {
        RunOutcome::Fail(e) => e,
        RunOutcome::Done(out) => panic!("program finished with {:?}", out),
        RunOutcome::Running => panic!("step budget ran out"),
    }
}

#[test]
fn cell_increment_wraps_at_256() {
    assert_eq!(cell_inc(255, 1), 0);
    assert_eq!(cell_inc(200, 100), 44);
    assert_eq!(cell_inc(0, 256), 0);
}

#[test]
fn cell_decrement_wraps_below_zero() {
    assert_eq!(cell_dec(0, 1), 255);
    assert_eq!(cell_dec(5, 10), 251);
    assert_eq!(cell_dec(7, 256), 7);
}

#[test]
fn increments_wrap_on_the_tape() {
    let mut tape = zero_tape();
    let r = execute(&compile("+".repeat(256).as_str()), &Vec::new(), &mut tape, BUDGET);
    expect_output(r);
    assert_eq!(tape[0], 0);
}

#[test]
fn clearing_loop_zeroes_cell() {
    let mut tape = zero_tape();
    tape[0] = 5;
    let r = execute(&compile("[-]"), &Vec::new(), &mut tape, BUDGET);
    assert_eq!(expect_output(r), Vec::new());
    assert_eq!(tape[0], 0);
}

#[test]
fn hello_world_prints_greeting() {
    let src = "++++++++[>++++[>++>+++>+++>+<<<<-]>+>+>->>+[<]<-]>>.>---.+++++++..+++.>>.<-.<.+++.------.--------.>>+.>++.";
    assert_eq!(expect_output(run_program(src, Vec::new())), b"Hello World!\n".to_vec());
}

#[test]
fn move_left_at_start_underflows() {
    assert_eq!(expect_error(run_program("<", Vec::new())), Error::TapeUnderflow);
}

#[test]
fn move_past_tape_end_overflows() {
    let src = ">".repeat(65535);
    assert_eq!(expect_error(run_program(&src, Vec::new())), Error::TapeOverflow);
}

#[test]
fn malformed_input_line_reports_parse_error() {
    assert_eq!(expect_error(run_program(",", vec!["abc"])), Error::InputParseError);
}

#[test]
fn out_of_range_input_line_reports_parse_error() {
    assert_eq!(expect_error(run_program(",", vec!["256"])), Error::InputParseError);
}

#[test]
fn missing_input_line_reports_eof() {
    assert_eq!(expect_error(run_program(",", Vec::new())), Error::InputEof);
}

#[test]
fn input_lines_feed_cells_in_order() {
    assert_eq!(expect_output(run_program(",.,.", vec![" 65 ", "+66"])), b"AB".to_vec());
}

#[test]
fn repeated_input_keeps_last_line() {
    assert_eq!(expect_output(run_program(",,.", vec!["1", "2"])), vec![2]);
}

#[test]
fn output_repeats_current_cell() {
    let mut tape = zero_tape();
    tape[0] = 65;
    let r = execute(&compile(".."), &Vec::new(), &mut tape, BUDGET);
    assert_eq!(expect_output(r), b"AA".to_vec());
}

#[test]
fn unmatched_loop_end_on_nonzero_cell_fails() {
    assert_eq!(expect_error(run_program("+]", Vec::new())), Error::UnmatchedLoopEnd);
}

#[test]
fn loop_end_on_zero_cell_falls_through() {
    assert_eq!(expect_output(run_program("]", Vec::new())), Vec::new());
}

#[test]
fn exhausted_step_budget_reports_running() {
    let r = interpret(&compile("+[]"), &Vec::new(), 1000);
    assert!(matches!(r, RunOutcome::Running));
}

#[test]
fn input_lines_parse_as_cell_values() {
    assert_eq!(parse_cell_value(&b" 42 \n".to_vec()), Some(42));
    assert_eq!(parse_cell_value(&b"+007".to_vec()), Some(7));
    assert_eq!(parse_cell_value(&b"0".to_vec()), Some(0));
    assert_eq!(parse_cell_value(&b"255".to_vec()), Some(255));
    assert_eq!(parse_cell_value(&b"256".to_vec()), None);
    assert_eq!(parse_cell_value(&b"".to_vec()), None);
    assert_eq!(parse_cell_value(&b"  ".to_vec()), None);
    assert_eq!(parse_cell_value(&b"+".to_vec()), None);
    assert_eq!(parse_cell_value(&b"12a".to_vec()), None);
    assert_eq!(parse_cell_value(&b"-1".to_vec()), None);
    assert_eq!(parse_cell_value(&b"99999999999999999999".to_vec()), None);
}
