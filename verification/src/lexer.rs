//! The lexer: source bytes in, primitive operation symbols out.

use vstd::prelude::*;

verus! {

/// One primitive operation of the language, before run-length compression.
#[derive(Debug, Clone, Copy, PartialEq, Eq, Structural)]
pub enum OpCode {
    /// `>`: move the data pointer right.
    IncPtr,
    /// `<`: move the data pointer left.
    DecPtr,
    /// `+`: increment the current cell, wrapping modulo 256.
    IncVal,
    /// `-`: decrement the current cell, wrapping modulo 256.
    DecVal,
    /// `.`: emit the current cell to the output.
    Out,
    /// `,`: read an input line into the current cell.
    Inp,
    /// `[`: loop start.
    LoopS,
    /// `]`: loop end.
    LoopE,
}

/// The symbol a source byte stands for, if any.
pub open spec fn symbol_of(c: u8) -> Option<OpCode> {
    if c == 62 {
        Some(OpCode::IncPtr)
    } else if c == 60 {
        Some(OpCode::DecPtr)
    } else if c == 43 {
        Some(OpCode::IncVal)
    } else if c == 45 {
        Some(OpCode::DecVal)
    } else if c == 46 {
        Some(OpCode::Out)
    } else if c == 44 {
        Some(OpCode::Inp)
    } else if c == 91 {
        Some(OpCode::LoopS)
    } else if c == 93 {
        Some(OpCode::LoopE)
    } else {
        None
    }
}

/// Whether a source byte is one of the eight symbol characters.
pub open spec fn is_symbol(c: u8) -> bool {
    symbol_of(c) is Some
}

/// The symbol sequence of a source text: each symbol byte contributes its
/// symbol, in order, and every other byte is skipped.
pub open spec fn lex_spec(s: Seq<u8>) -> Seq<OpCode>
    decreases s.len(),
{
    if s.len() == 0 {
        Seq::empty()
    } else {
        lex_spec(s.drop_last()) + match symbol_of(s.last()) {
            Some(op) => seq![op],
            None => Seq::empty(),
        }
    }
}

/// How many bytes of a source text are symbol characters.
pub open spec fn count_symbols(s: Seq<u8>) -> nat
    decreases s.len(),
{
    if s.len() == 0 {
        0
    } else {
        count_symbols(s.drop_last()) + if is_symbol(s.last()) {
            1nat
        } else {
            0nat
        }
    }
}

/// Law: the symbol sequence of a source is exactly as long as the source's
/// count of symbol characters, and so never longer than the source itself.
pub proof fn lemma_lex_len(s: Seq<u8>)
    ensures
        lex_spec(s).len() == count_symbols(s),
        lex_spec(s).len() <= s.len(),
    decreases s.len(),
{
    if s.len() > 0 {
        lemma_lex_len(s.drop_last());
    }
}

/// Scan the source left to right, turning each symbol byte into its symbol
/// and skipping every other byte.
pub fn lex(source: &Vec<u8>) -> (r: Vec<OpCode>)
    ensures
        r@ == lex_spec(source@),
{
    let mut out: Vec<OpCode> = Vec::new();
    let mut i: usize = 0;
    while i < source.len()
        invariant
            i <= source.len(),
            out@ == lex_spec(source@.take(i as int)),
        decreases source.len() - i,
    {
        let c = source[i];
        proof {
            assert(source@.take(i + 1).drop_last() =~= source@.take(i as int));
            assert(source@.take(i + 1).last() == c);
        }
        match symbol_exec(c) {
            Some(op) => {
                out.push(op);
                proof {
                    assert(out@ =~= lex_spec(source@.take(i + 1)));
                }
            },
            None => {
                proof {
                    assert(out@ =~= lex_spec(source@.take(i + 1)));
                }
            },
        }
        i = i + 1;
    }
    proof {
        assert(source@.take(source@.len() as int) =~= source@);
    }
    out
}

/// The lexing table for one byte.
fn symbol_exec(c: u8) -> (r: Option<OpCode>)
    ensures
        r == symbol_of(c),
{
    match c {
        62 => Some(OpCode::IncPtr),
        60 => Some(OpCode::DecPtr),
        43 => Some(OpCode::IncVal),
        45 => Some(OpCode::DecVal),
        46 => Some(OpCode::Out),
        44 => Some(OpCode::Inp),
        91 => Some(OpCode::LoopS),
        93 => Some(OpCode::LoopE),
        _ => None,
    }
}

} // verus!
