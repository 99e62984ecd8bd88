//! Parsing an input line as an unsigned 8-bit cell value.

use vstd::prelude::*;

verus! {

/// Whether a byte is ASCII whitespace (space, tab, line feed, vertical tab,
/// form feed or carriage return).
pub open spec fn is_ws(c: u8) -> bool {
    c == 32 || (9 <= c <= 13)
}

/// Whether a byte is an ASCII decimal digit.
pub open spec fn is_digit(c: u8) -> bool {
    48 <= c <= 57
}

/// The numeric value of a digit byte.
pub open spec fn digit_val(c: u8) -> int {
    c - 48
}

/// Whether every byte of a sequence is a decimal digit.
pub open spec fn all_digits(s: Seq<u8>) -> bool {
    forall|i: int| 0 <= i < s.len() ==> is_digit(#[trigger] s[i])
}

/// The number a digit sequence spells out in decimal.
pub open spec fn digits_val(s: Seq<u8>) -> int
    decreases s.len(),
{
    if s.len() == 0 {
        0
    } else {
        digits_val(s.drop_last()) * 10 + digit_val(s.last())
    }
}

/// A line with surrounding ASCII whitespace removed: the bytes from the
/// first non-whitespace byte through the last one.
pub open spec fn trim_spec(s: Seq<u8>) -> Seq<u8>
    decreases s.len(),
{
    if s.len() == 0 {
        s
    } else if is_ws(s[0]) {
        trim_spec(s.skip(1))
    } else if is_ws(s.last()) {
        trim_spec(s.drop_last())
    } else {
        s
    }
}

/// A trimmed line with one optional leading plus sign removed.
pub open spec fn strip_plus(s: Seq<u8>) -> Seq<u8> {
    if s.len() > 0 && s[0] == 43 {
        s.skip(1)
    } else {
        s
    }
}

/// What an input line means as a cell value: after trimming whitespace and
/// an optional plus sign, a non-empty all-digit body whose decimal value is
/// at most 255; anything else is malformed.
pub open spec fn parse_cell_spec(line: Seq<u8>) -> Option<u8> {
    let body = strip_plus(trim_spec(line));
    if body.len() > 0 && all_digits(body) && digits_val(body) <= 255 {
        Some(digits_val(body) as u8)
    } else {
        None
    }
}

/// The value of an all-digit sequence never shrinks when digits are
/// appended, and is never negative.
proof fn lemma_digits_val_prefix(s: Seq<u8>, i: int)
    requires
        all_digits(s),
        0 <= i <= s.len(),
    ensures
        digits_val(s) >= digits_val(s.take(i)) >= 0,
    decreases s.len() - i,
{
    if i == s.len() {
        assert(s.take(i) =~= s);
        lemma_digits_val_nonneg(s);
    } else {
        lemma_digits_val_prefix(s, i + 1);
        let p = s.take(i);
        let q = s.take(i + 1);
        assert(q.drop_last() =~= p);
        assert(q.last() == s[i]);
        lemma_digits_val_nonneg(p);
        assert(digits_val(q) == digits_val(p) * 10 + digit_val(s[i]));
        assert(digits_val(q) >= digits_val(p));
    }
}

/// An all-digit sequence spells a non-negative number.
proof fn lemma_digits_val_nonneg(s: Seq<u8>)
    requires
        all_digits(s),
    ensures
        digits_val(s) >= 0,
    decreases s.len(),
{
    if s.len() > 0 {
        assert(all_digits(s.drop_last())) by {
            assert(forall|i: int| 0 <= i < s.len() - 1 ==> is_digit(#[trigger] s[i]));
        }
        lemma_digits_val_nonneg(s.drop_last());
    }
}

/// Trimming stops at the first and last non-whitespace bytes.
proof fn lemma_trim_bounds(s: Seq<u8>, lo: int, hi: int)
    requires
        0 <= lo <= hi <= s.len(),
        forall|i: int| 0 <= i < lo ==> is_ws(#[trigger] s[i]),
        forall|i: int| hi <= i < s.len() ==> is_ws(#[trigger] s[i]),
        lo < hi ==> !is_ws(s[lo]) && !is_ws(s[hi - 1]),
    ensures
        trim_spec(s) == s.subrange(lo, hi),
    decreases s.len(),
{
    if lo == hi {
        assert(s.subrange(lo, hi) =~= Seq::<u8>::empty());
        lemma_trim_all_ws(s);
    } else if is_ws(s[0]) {
        let t = s.skip(1);
        assert(forall|i: int| 0 <= i < lo - 1 ==> is_ws(#[trigger] t[i]));
        assert(forall|i: int| hi - 1 <= i < t.len() ==> is_ws(#[trigger] t[i]));
        lemma_trim_bounds(t, lo - 1, hi - 1);
        assert(t.subrange(lo - 1, hi - 1) =~= s.subrange(lo, hi));
    } else if is_ws(s.last()) {
        let t = s.drop_last();
        assert(hi < s.len());
        assert(forall|i: int| 0 <= i < lo ==> is_ws(#[trigger] t[i]));
        assert(forall|i: int| hi <= i < t.len() ==> is_ws(#[trigger] t[i]));
        lemma_trim_bounds(t, lo, hi);
        assert(t.subrange(lo, hi) =~= s.subrange(lo, hi));
    } else {
        assert(lo == 0 && hi == s.len());
        assert(s.subrange(lo, hi) =~= s);
    }
}

/// Trimming an all-whitespace line leaves nothing.
proof fn lemma_trim_all_ws(s: Seq<u8>)
    requires
        forall|i: int| 0 <= i < s.len() ==> is_ws(#[trigger] s[i]),
    ensures
        trim_spec(s) == Seq::<u8>::empty(),
    decreases s.len(),
{
    if s.len() > 0 {
        lemma_trim_all_ws(s.skip(1));
    }
}

/// Read a cell value from one input line: trim ASCII whitespace, allow one
/// leading plus sign, then require decimal digits spelling a number up to
/// 255. Returns `None` exactly on malformed lines.
pub fn parse_cell_value(line: &Vec<u8>) -> (r: Option<u8>)
    ensures
        r == parse_cell_spec(line@),
{
    let ghost s = line@;
    let mut lo: usize = 0;
    let mut hi: usize = line.len();
    while lo < hi && is_ws_exec(line[lo])
        invariant
            0 <= lo <= hi <= line@.len(),
            hi == line@.len(),
            s == line@,
            forall|i: int| 0 <= i < lo ==> is_ws(#[trigger] s[i]),
        decreases hi - lo,
    {
        lo = lo + 1;
    }
    while hi > lo && is_ws_exec(line[hi - 1])
        invariant
            0 <= lo <= hi <= line@.len(),
            s == line@,
            forall|i: int| 0 <= i < lo ==> is_ws(#[trigger] s[i]),
            forall|i: int| hi <= i < line@.len() ==> is_ws(#[trigger] s[i]),
        decreases hi,
    {
        hi = hi - 1;
    }
    proof {
        lemma_trim_bounds(s, lo as int, hi as int);
    }
    let ghost body0 = s.subrange(lo as int, hi as int);
    let mut at: usize = lo;
    if at < hi && line[at] == 43 {
        at = at + 1;
        proof {
            assert(strip_plus(body0) =~= s.subrange(at as int, hi as int));
        }
    } else {
        proof {
            assert(strip_plus(body0) =~= s.subrange(at as int, hi as int));
        }
    }
    let ghost body = s.subrange(at as int, hi as int);
    if at == hi {
        assert(body.len() == 0);
        return None;
    }
    let mut acc: u32 = 0;
    let mut i: usize = at;
    while i < hi
        invariant
            at <= i <= hi <= line@.len(),
            at < hi,
            s == line@,
            body == s.subrange(at as int, hi as int),
            body == strip_plus(trim_spec(s)),
            all_digits(body.take(i - at)),
            acc == digits_val(body.take(i - at)),
            acc <= 255,
        decreases hi - i,
    {
        let c = line[i];
        proof {
            assert(body.len() == hi - at);
            assert(body[i - at] == s[i as int]);
            assert(body[i - at] == c);
            assert(body.take(i + 1 - at).drop_last() =~= body.take(i - at));
            assert(body.take(i + 1 - at).last() == c);
        }
        if c < 48 || c > 57 {
            proof {
                assert(!is_digit(body[i - at]));
                assert(!all_digits(body));
            }
            return None;
        }
        acc = acc * 10 + ((c - 48) as u32);
        if acc > 255 {
            proof {
                assert(digits_val(body.take(i + 1 - at)) == acc);
                if all_digits(body) {
                    lemma_digits_val_prefix(body, i + 1 - at);
                    assert(digits_val(body) >= acc);
                }
            }
            return None;
        }
        i = i + 1;
    }
    proof {
        assert(body.take(hi - at) =~= body);
    }
    Some(acc as u8)
}

/// The whitespace test, executably.
fn is_ws_exec(c: u8) -> (r: bool)
    ensures
        r == is_ws(c),
{
    c == 32 || (9 <= c && c <= 13)
}

} // verus!
