use vstd::prelude::*;
use std::collections::HashMap;
use crate::error::Error;
use crate::opcode::Opcode;

verus! {

/// How many brackets are open after the first `k` instructions: the number
/// of `[` among them less the number of `]`.
pub open spec fn depth(ops: Seq<Opcode>, k: int) -> int
    decreases k,
{
    if k <= 0 {
        0
    } else {
        depth(ops, k - 1) + match ops[k - 1] {
            Opcode::LB => 1int,
            Opcode::RB => -1int,
            _ => 0int,
        }
    }
}

/// The brackets pair up: no `]` comes while nothing is open, and nothing is
/// open at the end.
pub open spec fn balanced(ops: Seq<Opcode>) -> bool {
    &&& forall|k: int| 0 <= k <= ops.len() ==> #[trigger] depth(ops, k) >= 0
    &&& depth(ops, ops.len() as int) == 0
}

/// The `[` at `i` and the `]` at `j` are a pair: `j` is the first place
/// after `i` at which the bracket opened at `i` is closed again.
pub open spec fn matched(ops: Seq<Opcode>, i: int, j: int) -> bool {
    &&& 0 <= i < j < ops.len()
    &&& ops[i] == Opcode::LB
    &&& ops[j] == Opcode::RB
    &&& depth(ops, j + 1) == depth(ops, i)
    &&& forall|k: int| i < k <= j ==> #[trigger] depth(ops, k) > depth(ops, i)
}

/// The entry of `jt` at the bracket `k` names the bracket paired with `k`,
/// and the entry at that bracket names `k`.
pub open spec fn paired(ops: Seq<Opcode>, jt: Map<usize, usize>, k: usize) -> bool {
    let p = jt[k];
    &&& jt.contains_key(p)
    &&& jt[p] == k
    &&& if ops[k as int] == Opcode::LB {
        matched(ops, k as int, p as int)
    } else {
        matched(ops, p as int, k as int)
    }
}

/// `jt` is the jump table of `ops`: the brackets of `ops` pair up, `jt` has
/// an entry at each bracket and nowhere else, and each entry names the
/// paired bracket.
pub open spec fn is_jump_table(ops: Seq<Opcode>, jt: Map<usize, usize>) -> bool {
    &&& balanced(ops)
    &&& forall|k: usize| #[trigger]
        jt.contains_key(k) <==> (k < ops.len() && ops[k as int].is_bracket())
    &&& forall|k: usize| #[trigger] jt.contains_key(k) ==> paired(ops, jt, k)
}

/// The jump table of a program whose brackets pair up.
pub open spec fn jump_table(ops: Seq<Opcode>) -> Map<usize, usize> {
    choose|jt: Map<usize, usize>| is_jump_table(ops, jt)
}

/// In a jump table the pairing goes both ways: the entry at a bracket is
/// another bracket of the opposite kind, the `[` before the `]`, and the
/// entry there leads back.
pub proof fn lemma_pairing_symmetric(ops: Seq<Opcode>, jt: Map<usize, usize>, i: usize)
    requires
        is_jump_table(ops, jt),
        jt.contains_key(i),
    ensures
        jt.contains_key(jt[i]),
        jt[jt[i]] == i,
        jt[i] < ops.len(),
        ops[i as int] == Opcode::LB ==> ops[jt[i] as int] == Opcode::RB && i < jt[i],
        ops[i as int] == Opcode::RB ==> ops[jt[i] as int] == Opcode::LB && jt[i] < i,
{
    assert(paired(ops, jt, i));
}

/// A `]` closes the `[` that was opened last and is still open: every `[`
/// between a `[` and its `]` is closed before that `]`, and every `]`
/// between them closes a `[` that was opened after that `[`.
pub proof fn lemma_pairs_nest(ops: Seq<Opcode>, jt: Map<usize, usize>, i: usize, k: usize)
    requires
        is_jump_table(ops, jt),
        jt.contains_key(i),
        ops[i as int] == Opcode::LB,
        jt.contains_key(k),
        i < k < jt[i],
    ensures
        i < jt[k] < jt[i],
{
    let j = jt[i];
    let p = jt[k];
    assert(paired(ops, jt, i));
    assert(paired(ops, jt, k));
    assert(matched(ops, i as int, j as int));
    assert(depth(ops, k as int) > depth(ops, i as int));
    if ops[k as int] == Opcode::LB {
        assert(matched(ops, k as int, p as int));
        if p >= j {
            assert(depth(ops, j + 1) > depth(ops, k as int));
        }
    } else {
        assert(matched(ops, p as int, k as int));
        assert(depth(ops, k + 1) >= depth(ops, i as int)) by {
            if k + 1 <= j {
                assert(depth(ops, k + 1) > depth(ops, i as int));
            }
        }
        if p < i {
            assert(depth(ops, i as int) > depth(ops, p as int));
        }
    }
}

/// A program has one jump table at most, and [`jump_table`] is that table.
pub proof fn lemma_jump_table_unique(ops: Seq<Opcode>, a: Map<usize, usize>, b: Map<usize, usize>)
    requires
        is_jump_table(ops, a),
        is_jump_table(ops, b),
    ensures
        a == b,
        a == jump_table(ops),
{
    lemma_same_entries(ops, a, b);
    lemma_same_entries(ops, a, jump_table(ops));
}

proof fn lemma_same_entries(ops: Seq<Opcode>, a: Map<usize, usize>, b: Map<usize, usize>)
    requires
        is_jump_table(ops, a),
        is_jump_table(ops, b),
    ensures
        a == b,
{
    assert forall|k: usize| a.contains_key(k) implies #[trigger] a[k] == b[k] by {
        assert(b.contains_key(k));
        assert(paired(ops, a, k));
        assert(paired(ops, b, k));
        let x = a[k];
        let y = b[k];
        if ops[k as int] == Opcode::LB {
            if x < y {
                assert(depth(ops, x + 1) > depth(ops, k as int));
            } else if y < x {
                assert(depth(ops, y + 1) > depth(ops, k as int));
            }
        } else {
            if x < y {
                assert(depth(ops, y as int) > depth(ops, x as int));
            } else if y < x {
                assert(depth(ops, x as int) > depth(ops, y as int));
            }
        }
    }
    assert(a =~= b);
}

/// Pairs the brackets of `instrs` in one pass from left to right, keeping
/// the positions of the open `[` on a stack. Fails exactly when the brackets
/// do not pair up.
pub fn build_jump_table(instrs: &Vec<Opcode>) -> (r: Result<HashMap<usize, usize>, Error>)
    ensures
        r is Ok <==> balanced(instrs@),
        match r {
            Ok(jt) => is_jump_table(instrs@, jt@) && jt@ == jump_table(instrs@),
            Err(e) => e == Error::UnbalancedBracket,
        },
{
    broadcast use vstd::std_specs::hash::group_hash_axioms;

    let ghost ops = instrs@;
    let mut jstack: Vec<usize> = Vec::new();
    let mut jtable: HashMap<usize, usize> = HashMap::new();
    let n = instrs.len();
    let mut i: usize = 0;
    while i < n
        invariant
            ops == instrs@,
            n == ops.len(),
            i <= n,
            forall|k: int| 0 <= k <= i ==> #[trigger] depth(ops, k) >= 0,
            jstack@.len() == depth(ops, i as int),
            forall|t: int|
                0 <= t < jstack@.len() ==> {
                    &&& (#[trigger] jstack@[t]) < i
                    &&& ops[jstack@[t] as int] == Opcode::LB
                    &&& depth(ops, jstack@[t] as int) == t
                    &&& !jtable@.contains_key(jstack@[t])
                    &&& forall|k: int|
                        jstack@[t] < k <= i ==> #[trigger] depth(ops, k) > t
                },
            forall|k: usize| #[trigger]
                jtable@.contains_key(k) ==> k < i && ops[k as int].is_bracket() && paired(
                    ops,
                    jtable@,
                    k,
                ),
            forall|k: usize|
                k < i && ops[k as int] == Opcode::RB ==> #[trigger] jtable@.contains_key(k),
            forall|k: usize|
                k < i && ops[k as int] == Opcode::LB ==> #[trigger] jtable@.contains_key(k) || (
                depth(ops, k as int) < jstack@.len() && jstack@[depth(ops, k as int)] == k),
        decreases n - i,
    {
        let e = instrs[i];
        if e == Opcode::LB {
            jstack.push(i);
        } else if e == Opcode::RB {
            match jstack.pop() {
                None => {
                    proof {
                        assert(depth(ops, i + 1) < 0);
                    }
                    return Err(Error::UnbalancedBracket);
                },
                Some(j) => {
                    let ghost before = jtable@;
                    jtable.insert(j, i);
                    jtable.insert(i, j);
                    proof {
                        assert(depth(ops, i + 1) == depth(ops, j as int));
                        assert(matched(ops, j as int, i as int));
                        assert(jtable@ == before.insert(j, i).insert(i, j));
                        assert(paired(ops, jtable@, j));
                        assert(paired(ops, jtable@, i));
                        assert forall|k: usize| #[trigger] jtable@.contains_key(k) implies k < i
                            + 1 && ops[k as int].is_bracket() && paired(ops, jtable@, k) by {
                            if k != i && k != j {
                                assert(before.contains_key(k));
                                assert(paired(ops, before, k));
                                assert(before.contains_key(before[k]));
                            }
                        }
                    }
                },
            }
        }
        i += 1;
    }
    if jstack.len() != 0 {
        proof {
            assert(depth(ops, n as int) > 0);
        }
        return Err(Error::UnbalancedBracket);
    }
    proof {
        lemma_jump_table_unique(ops, jtable@, jtable@);
    }
    Ok(jtable)
}

} // verus!
