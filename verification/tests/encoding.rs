use bfrun::encoder::parse;
use bfrun::encoder::Operation;
use bfrun::errors::Error;
use bfrun::lexer::lex;
use bfrun::lexer::OpCode;

fn expand(ops: &[Operation]) -> Vec<OpCode> {
    let mut out = Vec::new();
    for op in ops {
        for _ in 0..op.times {
            out.push(op.op_code);
        }
    }
    out
}

#[test]
fn parse_collapses_runs() {
    let symbols = lex(&b"++>>++ comment <<".to_vec());
    let ops = parse(&symbols).unwrap();
    assert_eq!(
        ops,
        vec![
            Operation { op_code: OpCode::IncVal, times: 2 },
            Operation { op_code: OpCode::IncPtr, times: 2 },
            Operation { op_code: OpCode::IncVal, times: 2 },
            Operation { op_code: OpCode::DecPtr, times: 2 },
        ]
    );
}

#[test]
fn parse_single_symbol() {
    let ops = parse(&vec![OpCode::Out]).unwrap();
    assert_eq!(ops, vec![Operation { op_code: OpCode::Out, times: 1 }]);
}

#[test]
fn parse_empty_input_reports_empty_program() {
    assert_eq!(parse(&Vec::new()), Err(Error::EmptyProgram));
}

#[test]
fn parse_overlong_run_reports_overflow() {
    let symbols = vec![OpCode::IncVal; 65536];
    assert_eq!(parse(&symbols), Err(Error::RunLengthOverflow));
}

#[test]
fn parse_run_of_exactly_max_length_fits() {
    let symbols = vec![OpCode::IncVal; 65535];
    let ops = parse(&symbols).unwrap();
    assert_eq!(ops, vec![Operation { op_code: OpCode::IncVal, times: 65535 }]);
}

#[test]
fn expanding_encoded_program_reproduces_symbols() {
    let symbols = lex(&b"+++>><<<[->+<]..,,".to_vec());
    let ops = parse(&symbols).unwrap();
    assert_eq!(expand(&ops), symbols);
}

#[test]
fn re_encoding_expanded_program_is_identity() {
    let symbols = lex(&b"++[>-<--]>>>.".to_vec());
    let ops = parse(&symbols).unwrap();
    let again = parse(&expand(&ops)).unwrap();
    assert_eq!(again, ops);
}
