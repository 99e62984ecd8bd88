//! The encoder: collapses maximal runs of identical symbols into
//! (opcode, repeat-count) instructions.

use vstd::prelude::*;
use crate::errors::Error;
use crate::lexer::OpCode;

verus! {

/// The largest repeat count an instruction can hold.
pub const RUN_MAX: u16 = 65535;

/// A run-length-compressed instruction: an opcode and how many times in a
/// row it occurred. A well-formed instruction has `times >= 1`.
#[derive(Debug, Clone, Copy, PartialEq, Eq, Structural)]
pub struct Operation {
    pub op_code: OpCode,
    pub times: u16,
}

/// The run-length encoding of a symbol sequence, with unbounded counts:
/// each maximal run of identical symbols becomes one (symbol, length) pair.
pub open spec fn rle(s: Seq<OpCode>) -> Seq<(OpCode, nat)>
    decreases s.len(),
{
    if s.len() == 0 {
        Seq::empty()
    } else {
        let prefix = rle(s.drop_last());
        let c = s.last();
        if prefix.len() > 0 && prefix.last().0 == c {
            prefix.update(prefix.len() - 1, (c, (prefix.last().1 + 1) as nat))
        } else {
            prefix.push((c, 1nat))
        }
    }
}

/// The runs an instruction sequence spells out.
pub open spec fn runs_of(ops: Seq<Operation>) -> Seq<(OpCode, nat)> {
    Seq::new(ops.len(), |i: int| (ops[i].op_code, ops[i].times as nat))
}

/// Whether every maximal run of a symbol sequence fits in a repeat count.
pub open spec fn runs_fit(s: Seq<OpCode>) -> bool {
    forall|i: int| 0 <= i < rle(s).len() ==> (#[trigger] rle(s)[i]).1 <= RUN_MAX
}

/// `n` copies of one symbol.
pub open spec fn repeat_op(c: OpCode, n: nat) -> Seq<OpCode> {
    Seq::new(n, |i: int| c)
}

/// What a run sequence expands back into: each run contributes its symbol,
/// repeated its count many times, in order.
pub open spec fn expand_runs(runs: Seq<(OpCode, nat)>) -> Seq<OpCode>
    decreases runs.len(),
{
    if runs.len() == 0 {
        Seq::empty()
    } else {
        expand_runs(runs.drop_last()) + repeat_op(runs.last().0, runs.last().1)
    }
}

/// Whether a run sequence is maximal: every count is at least one and no two
/// adjacent runs share a symbol.
pub open spec fn wf_runs(runs: Seq<(OpCode, nat)>) -> bool {
    &&& forall|i: int| 0 <= i < runs.len() ==> (#[trigger] runs[i]).1 >= 1
    &&& forall|i: int| 0 <= i < runs.len() - 1 ==> (#[trigger] runs[i]).0 != runs[i + 1].0
}

/// The run-length encoding of any sequence is maximal, is empty only for the
/// empty sequence, and ends with the sequence's last symbol.
pub proof fn lemma_rle_wf(s: Seq<OpCode>)
    ensures
        wf_runs(rle(s)),
        rle(s).len() == 0 <==> s.len() == 0,
        s.len() > 0 ==> rle(s).last().0 == s.last(),
    decreases s.len(),
{
    if s.len() > 0 {
        lemma_rle_wf(s.drop_last());
    }
}

/// Law: expanding the run-length encoding of a symbol sequence reproduces
/// that sequence exactly. With the encoder's contract this is the round
/// trip: encode, then expand, and the input comes back.
pub proof fn lemma_encode_round_trip(s: Seq<OpCode>)
    ensures
        expand_runs(rle(s)) == s,
    decreases s.len(),
{
    if s.len() > 0 {
        let s0 = s.drop_last();
        let c = s.last();
        lemma_encode_round_trip(s0);
        lemma_rle_wf(s0);
        let prefix = rle(s0);
        if prefix.len() > 0 && prefix.last().0 == c {
            let k = prefix.last().1;
            let r = prefix.update(prefix.len() - 1, (c, (k + 1) as nat));
            assert(r.drop_last() =~= prefix.drop_last());
            assert(repeat_op(c, (k + 1) as nat) =~= repeat_op(c, k).push(c));
            assert(expand_runs(r) =~= expand_runs(prefix.drop_last()) + repeat_op(c, k) + seq![c]);
            assert(expand_runs(prefix) =~= expand_runs(prefix.drop_last()) + repeat_op(c, k));
            assert(expand_runs(r) =~= s0 + seq![c]);
            assert(s0 + seq![c] =~= s);
        } else {
            let r = prefix.push((c, 1nat));
            assert(r.drop_last() =~= prefix);
            assert(repeat_op(c, 1nat) =~= seq![c]);
            assert(expand_runs(r) =~= s0 + seq![c]);
            assert(s0 + seq![c] =~= s);
        }
    }
}

/// A maximal run sequence expands to something that ends with its last
/// symbol and is at least as long as one run.
proof fn lemma_expand_last(runs: Seq<(OpCode, nat)>)
    requires
        wf_runs(runs),
        runs.len() > 0,
    ensures
        expand_runs(runs).len() > 0,
        expand_runs(runs).last() == runs.last().0,
{
    let e = expand_runs(runs.drop_last());
    let rep = repeat_op(runs.last().0, runs.last().1);
    assert(runs.last().1 >= 1);
    assert(rep.len() >= 1);
    assert((e + rep).last() == rep.last());
}

/// Appending a run of a fresh symbol to a sequence appends one run to its
/// encoding.
proof fn lemma_rle_append_run(s: Seq<OpCode>, c: OpCode, n: nat)
    requires
        n >= 1,
        s.len() == 0 || s.last() != c,
    ensures
        rle(s + repeat_op(c, n)) == rle(s).push((c, n)),
    decreases n,
{
    lemma_rle_wf(s);
    if n == 1 {
        let t = s + repeat_op(c, 1nat);
        assert(t.drop_last() =~= s);
        assert(t.last() == c);
        if s.len() > 0 {
            assert(rle(s).last().0 == s.last());
        }
        assert(rle(t) =~= rle(s).push((c, 1nat)));
    } else {
        lemma_rle_append_run(s, c, (n - 1) as nat);
        let t0 = s + repeat_op(c, (n - 1) as nat);
        let t = s + repeat_op(c, n);
        assert(t.drop_last() =~= t0);
        assert(t.last() == c);
        let prefix = rle(t0);
        assert(prefix == rle(s).push((c, (n - 1) as nat)));
        assert(prefix.len() > 0 && prefix.last().0 == c);
        assert(prefix.last().1 == n - 1);
        assert(rle(t) == prefix.update(prefix.len() - 1, (c, n)));
        assert(prefix.update(prefix.len() - 1, (c, n)) =~= rle(s).push((c, n)));
    }
}

/// Law: run-length encoding is idempotent. Expanding a maximal run sequence
/// and encoding the result yields the identical run sequence.
pub proof fn lemma_encode_idempotent(runs: Seq<(OpCode, nat)>)
    requires
        wf_runs(runs),
    ensures
        rle(expand_runs(runs)) == runs,
    decreases runs.len(),
{
    if runs.len() > 0 {
        let r0 = runs.drop_last();
        let c = runs.last().0;
        let n = runs.last().1;
        assert(wf_runs(r0)) by {
            assert(forall|i: int| 0 <= i < r0.len() ==> (#[trigger] r0[i]).1 >= 1);
            assert(forall|i: int| 0 <= i < r0.len() - 1 ==> (#[trigger] r0[i]).0 != r0[i + 1].0);
        }
        lemma_encode_idempotent(r0);
        let e0 = expand_runs(r0);
        if r0.len() > 0 {
            lemma_expand_last(r0);
            assert(e0.last() == r0.last().0);
            assert(r0.last().0 != c);
        }
        lemma_rle_append_run(e0, c, n);
        assert(rle(e0).push((c, n)) =~= runs);
    }
}

/// Domination: the encoding of a prefix has no more runs than the encoding
/// of the whole, and each of its runs has the same symbol and a count no
/// larger than the corresponding run of the whole.
proof fn lemma_rle_prefix(s: Seq<OpCode>, i: int)
    requires
        0 <= i <= s.len(),
    ensures
        rle(s.take(i)).len() <= rle(s).len(),
        forall|j: int| 0 <= j < rle(s.take(i)).len() ==> (#[trigger] rle(s)[j]).0 == rle(
            s.take(i),
        )[j].0 && rle(s)[j].1 >= rle(s.take(i))[j].1,
    decreases s.len() - i,
{
    if i == s.len() {
        assert(s.take(i) =~= s);
    } else {
        lemma_rle_prefix(s, i + 1);
        assert(s.take(i + 1).drop_last() =~= s.take(i));
        assert(s.take(i + 1).last() == s[i]);
        let p = rle(s.take(i));
        let q = rle(s.take(i + 1));
        if p.len() > 0 && p.last().0 == s[i] {
            assert(q == p.update(p.len() - 1, (s[i], (p.last().1 + 1) as nat)));
            assert(forall|j: int| 0 <= j < p.len() ==> (#[trigger] q[j]).0 == p[j].0 && q[j].1
                >= p[j].1);
        } else {
            assert(q == p.push((s[i], 1nat)));
            assert(forall|j: int| 0 <= j < p.len() ==> (#[trigger] q[j]).0 == p[j].0 && q[j].1
                >= p[j].1);
        }
    }
}

/// Collapse every maximal run of identical adjacent symbols into one
/// instruction carrying the run's length.
///
/// Succeeds exactly when the input is non-empty and no run is longer than a
/// repeat count can hold; the result then spells out precisely the input's
/// run-length encoding. An empty input reports `EmptyProgram`; a run longer
/// than `RUN_MAX` reports `RunLengthOverflow`.
pub fn parse(inp: &Vec<OpCode>) -> (r: Result<Vec<Operation>, Error>)
    ensures
        match r {
            Ok(ops) => inp@.len() > 0 && runs_of(ops@) == rle(inp@),
            Err(e) => match e {
                Error::EmptyProgram => inp@.len() == 0,
                Error::RunLengthOverflow => inp@.len() > 0 && !runs_fit(inp@),
                _ => false,
            },
        },
        r is Ok <==> (inp@.len() > 0 && runs_fit(inp@)),
{
    if inp.len() == 0 {
        return Err(Error::EmptyProgram);
    }
    let mut out: Vec<Operation> = Vec::new();
    let mut count: u16 = 1;
    let mut n: usize = 0;
    proof {
        let t1 = inp@.take(1);
        assert(t1.len() == 1);
        assert(t1.drop_last() =~= Seq::<OpCode>::empty());
        assert(rle(Seq::<OpCode>::empty()) =~= Seq::<(OpCode, nat)>::empty());
        assert(t1.last() == inp@[0]);
        assert(rle(t1) == rle(t1.drop_last()).push((inp@[0], 1nat)));
        assert(rle(t1) =~= runs_of(out@) + seq![(inp@[0], 1nat)]);
    }
    while n < inp.len() - 1
        invariant
            inp@.len() > 0,
            n < inp@.len(),
            1 <= count <= RUN_MAX,
            runs_of(out@) + seq![(inp@[n as int], count as nat)] == rle(inp@.take(n + 1)),
        decreases inp@.len() - n,
    {
        proof {
            assert(inp@.take(n + 2).drop_last() =~= inp@.take(n + 1));
            assert(inp@.take(n + 2).last() == inp@[n + 1]);
        }
        let ghost prefix = rle(inp@.take(n + 1));
        proof {
            assert(prefix.len() == runs_of(out@).len() + 1);
            assert(prefix.last() == (inp@[n as int], count as nat));
        }
        if inp[n] == inp[n + 1] {
            if count == RUN_MAX {
                proof {
                    let j = prefix.len() - 1;
                    assert(rle(inp@.take(n + 2)) == prefix.update(j, (inp@[n + 1], (count + 1) as nat)));
                    assert(rle(inp@.take(n + 2))[j].1 == count + 1);
                    lemma_rle_prefix(inp@, n + 2);
                    assert(rle(inp@)[j].1 >= count + 1);
                    assert(!runs_fit(inp@));
                }
                return Err(Error::RunLengthOverflow);
            }
            count = count + 1;
            proof {
                assert(runs_of(out@) + seq![(inp@[n + 1], count as nat)] =~= prefix.update(
                    prefix.len() - 1,
                    (inp@[n + 1], count as nat),
                ));
            }
        } else {
            out.push(Operation { op_code: inp[n], times: count });
            proof {
                assert(runs_of(out@) =~= prefix);
                assert(runs_of(out@) + seq![(inp@[n + 1], 1nat)] =~= prefix.push((
                    inp@[n + 1],
                    1nat,
                )));
            }
            count = 1;
        }
        n = n + 1;
    }
    out.push(Operation { op_code: inp[n], times: count });
    proof {
        assert(inp@.take(n + 1) =~= inp@);
        assert(runs_of(out@) =~= rle(inp@));
        assert forall|j: int| 0 <= j < rle(inp@).len() implies (#[trigger] rle(inp@)[j]).1
            <= RUN_MAX by {
            assert(rle(inp@)[j] == runs_of(out@)[j]);
            assert(out@[j].times <= RUN_MAX);
        }
    }
    Ok(out)
}

} // verus!
