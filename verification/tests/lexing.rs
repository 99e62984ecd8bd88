use bfrun::lexer::lex;
use bfrun::lexer::OpCode;

#[test]
fn lex_maps_each_symbol() {
    let out = lex(&b"><+-.,[]".to_vec());
    assert_eq!(
        out,
        vec![
            OpCode::IncPtr,
            OpCode::DecPtr,
            OpCode::IncVal,
            OpCode::DecVal,
            OpCode::Out,
            OpCode::Inp,
            OpCode::LoopS,
            OpCode::LoopE,
        ]
    );
}

#[test]
fn lex_skips_other_characters() {
    let out = lex(&b"a +\n b - # .".to_vec());
    assert_eq!(out, vec![OpCode::IncVal, OpCode::DecVal, OpCode::Out]);
}

#[test]
fn lex_empty_source_yields_no_symbols() {
    assert_eq!(lex(&Vec::new()), Vec::new());
    assert_eq!(lex(&b"hello world\n".to_vec()), Vec::new());
}

#[test]
fn lex_output_counts_symbol_characters() {
    let src = b"++ add two [>] move \n-".to_vec();
    let n_symbols = src
        .iter()
        .filter(|c| b"><+-.,[]".contains(c))
        .count();
    let out = lex(&src);
    assert_eq!(out.len(), n_symbols);
    assert!(out.len() <= src.len());
}
