//! Optimization passes over a body of IR: dead blocks, dead values, jump threading, phi
//! threading, return sinking and constant folding.
use vstd::prelude::*;

use crate::constant::Constant;
use crate::ids::{BlockId, InstId};
use crate::ops::{spec_eval_int, Scalar};
use crate::ir::{body_wf, is_root, jump_target_of, operands, successors, Block, Body, Inst};

verus! {

broadcast use vstd::seq_lib::group_seq_properties;

/// Control can pass from block `a` to block `c` directly: an instruction of `a` names `c`.
pub open spec fn edge(b: Body, a: int, c: int) -> bool {
    exists|k: int, j: int|
        #![trigger b.blocks@[a].stream@[k], successors(b.instructions@[b.blocks@[a].stream@[k].0 as int])[j]]
        0 <= k < b.blocks@[a].stream@.len() && 0 <= j < successors(
            b.instructions@[b.blocks@[a].stream@[k].0 as int],
        ).len() && successors(b.instructions@[b.blocks@[a].stream@[k].0 as int])[j].0 == c
}

/// A walk through the blocks of `b` from the entry block, one edge at a time.
pub open spec fn is_path(b: Body, p: Seq<int>) -> bool {
    &&& p.len() >= 1
    &&& p[0] == 0
    &&& forall|i: int| 0 <= i < p.len() ==> 0 <= #[trigger] p[i] < b.blocks@.len()
    &&& forall|i: int| 0 <= i < p.len() - 1 ==> edge(b, #[trigger] p[i], p[i + 1])
}

/// Block `c` can run: some walk from the entry block ends there.
pub open spec fn reachable(b: Body, c: int) -> bool {
    exists|p: Seq<int>| #[trigger] is_path(b, p) && p.last() == c
}

/// How many entries of `s` are false.
pub open spec fn count_false(s: Seq<bool>) -> nat
    decreases s.len(),
{
    if s.len() == 0 {
        0
    } else {
        count_false(s.drop_last()) + if s.last() {
            0nat
        } else {
            1nat
        }
    }
}

pub proof fn lemma_count_false_set(s: Seq<bool>, i: int)
    requires
        0 <= i < s.len(),
        !s[i],
    ensures
        count_false(s.update(i, true)) + 1 == count_false(s),
    decreases s.len(),
{
    if i < s.len() - 1 {
        assert(s.update(i, true).drop_last() =~= s.drop_last().update(i, true));
        lemma_count_false_set(s.drop_last(), i);
    } else {
        assert(s.update(i, true).drop_last() =~= s.drop_last());
    }
}

/// The entry block can run.
proof fn lemma_entry_reachable(b: Body)
    requires
        b.blocks@.len() >= 1,
    ensures
        reachable(b, 0),
{
    let p = seq![0int];
    assert(is_path(b, p));
}

/// A block that an edge leaves from a reachable block can run too.
proof fn lemma_reachable_step(b: Body, a: int, c: int)
    requires
        reachable(b, a),
        edge(b, a, c),
        0 <= c < b.blocks@.len(),
    ensures
        reachable(b, c),
{
    let p = choose|p: Seq<int>| #[trigger] is_path(b, p) && p.last() == a;
    let q = p.push(c);
    assert forall|i: int| 0 <= i < q.len() - 1 implies edge(b, #[trigger] q[i], q[i + 1]) by {
        if i < p.len() - 1 {
            assert(q[i] == p[i] && q[i + 1] == p[i + 1]);
        } else {
            assert(q[i] == a);
        }
    }
    assert(is_path(b, q));
}

/// A set of blocks that holds the entry and is closed under edges holds every block of a walk
/// from the entry.
proof fn lemma_closed_holds_path(b: Body, seen: Seq<bool>, p: Seq<int>, i: int)
    requires
        seen.len() == b.blocks@.len(),
        seen[0],
        forall|a: int, d: int|
            0 <= a < seen.len() && 0 <= d < seen.len() && seen[a] && #[trigger] edge(b, a, d)
                ==> seen[d],
        is_path(b, p),
        0 <= i < p.len(),
    ensures
        seen[p[i]],
    decreases i,
{
    if i > 0 {
        lemma_closed_holds_path(b, seen, p, i - 1);
        assert(edge(b, p[i - 1], p[i]));
        assert(0 <= p[i] < b.blocks@.len());
    }
}

/// A set of blocks that holds the entry and is closed under edges holds every block that can
/// run.
proof fn lemma_closed_holds_reachable(b: Body, seen: Seq<bool>, c: int)
    requires
        seen.len() == b.blocks@.len(),
        seen[0],
        forall|a: int, d: int|
            0 <= a < seen.len() && 0 <= d < seen.len() && seen[a] && #[trigger] edge(b, a, d)
                ==> seen[d],
        reachable(b, c),
    ensures
        seen[c],
{
    let p = choose|p: Seq<int>| #[trigger] is_path(b, p) && p.last() == c;
    lemma_closed_holds_path(b, seen, p, p.len() - 1);
}

/// Marks every block of `body` that can run.
pub fn reachable_blocks(body: &Body) -> (seen: Vec<bool>)
    requires
        body_wf(*body),
    ensures
        seen@.len() == body.blocks@.len(),
        forall|c: int| 0 <= c < seen@.len() ==> seen@[c] == reachable(*body, c),
{
    let n = body.blocks.len();
    let mut seen: Vec<bool> = Vec::new();
    while seen.len() < n
        invariant
            seen@.len() <= n,
            forall|c: int| 0 <= c < seen@.len() ==> !seen@[c],
        decreases n - seen@.len(),
    {
        seen.push(false);
    }
    let mut work: Vec<BlockId> = vec![BlockId(0)];
    proof {
        lemma_entry_reachable(*body);
        assert(work@[0] == BlockId(0));
    }
    while work.len() > 0
        invariant
            body_wf(*body),
            n == body.blocks@.len(),
            seen@.len() == n,
            forall|c: int| 0 <= c < n && #[trigger] seen@[c] ==> reachable(*body, c),
            forall|k: int|
                0 <= k < work@.len() ==> (#[trigger] work@[k]).0 < n && reachable(
                    *body,
                    work@[k].0 as int,
                ),
            seen@[0] || work@.contains(BlockId(0)),
            forall|a: int, c: int|
                0 <= a < n && 0 <= c < n && seen@[a] && #[trigger] edge(*body, a, c) ==> seen@[c]
                    || work@.contains(BlockId(c as u32)),
        decreases count_false(seen@), work@.len(),
    {
        let ghost work0 = work@;
        let b = work.pop().unwrap();
        proof {
            assert(work0 =~= work@.push(b));
            assert(work0[work0.len() - 1] == b);
        }
        let bi = b.0 as usize;
        if seen[bi] {
            proof {
                assert forall|c: int| 0 <= c < n && work0.contains(BlockId(c as u32)) implies seen@[c]
                    || work@.contains(BlockId(c as u32)) by {
                    {
                        let k = choose|k: int| 0 <= k < work0.len() && work0[k] == BlockId(c as u32);
                        if k < work@.len() {
                            assert(work@[k] == BlockId(c as u32));
                        } else {
                            assert(b == BlockId(c as u32));
                        }
                    }
                }
            }
            continue;
        }
        let ghost seen0 = seen@;
        proof {
            lemma_count_false_set(seen@, bi as int);
        }
        seen.set(bi, true);
        let stream = &body.blocks[bi].stream;
        let mut k: usize = 0;
        while k < stream.len()
            invariant
                body_wf(*body),
                n == body.blocks@.len(),
                bi < n,
                b.0 == bi,
                reachable(*body, bi as int),
                *stream == body.blocks@[bi as int].stream,
                k <= stream@.len(),
                seen@.len() == n,
                seen@ == seen0.update(bi as int, true),
                forall|kk: int|
                    0 <= kk < work@.len() ==> (#[trigger] work@[kk]).0 < n && reachable(
                        *body,
                        work@[kk].0 as int,
                    ),
                forall|x: BlockId| work0.contains(x) ==> x == b || work@.contains(x),
                forall|k2: int, j: int|
                    0 <= k2 < k && 0 <= j < successors(
                        body.instructions@[stream@[k2].0 as int],
                    ).len() ==> work@.contains(
                        #[trigger] successors(body.instructions@[stream@[k2].0 as int])[j],
                    ),
            decreases stream@.len() - k,
        {
            let iid = stream[k];
            proof {
                assert(iid.0 < body.instructions@.len());
            }
            let ghost work_k = work@;
            match &body.instructions[iid.0 as usize] {
                Inst::Jump { target } | Inst::JumpIfFalse { target, .. } | Inst::ForNext {
                    target,
                    ..
                } => {
                    proof {
                        let succ = successors(body.instructions@[iid.0 as int]);
                        assert(succ[0] == *target);
                        assert(edge(*body, bi as int, target.0 as int));
                        lemma_reachable_step(*body, bi as int, target.0 as int);
                    }
                    work.push(*target);
                },
                Inst::Switch { table, default, .. } => {
                    let ghost succ = successors(body.instructions@[iid.0 as int]);
                    assert(succ == table@.push(*default));
                    let mut t: usize = 0;
                    while t < table.len()
                        invariant
                            body_wf(*body),
                            n == body.blocks@.len(),
                            bi < n,
                            reachable(*body, bi as int),
                            *stream == body.blocks@[bi as int].stream,
                            k < stream@.len(),
                            iid == stream@[k as int],
                            succ == successors(body.instructions@[iid.0 as int]),
                            succ == table@.push(*default),
                            t <= table@.len(),
                            work@.len() == work_k.len() + t,
                            forall|kk: int| 0 <= kk < work_k.len() ==> work@[kk] == work_k[kk],
                            forall|j: int| 0 <= j < t ==> work@[work_k.len() + j] == table@[j],
                            forall|kk: int|
                                0 <= kk < work@.len() ==> (#[trigger] work@[kk]).0 < n
                                    && reachable(*body, work@[kk].0 as int),
                        decreases table@.len() - t,
                    {
                        proof {
                            assert(succ[t as int] == table@[t as int]);
                            assert(edge(*body, bi as int, table@[t as int].0 as int));
                            lemma_reachable_step(*body, bi as int, table@[t as int].0 as int);
                        }
                        work.push(table[t]);
                        t += 1;
                    }
                    proof {
                        assert(succ[table@.len() as int] == *default);
                        assert(edge(*body, bi as int, default.0 as int));
                        lemma_reachable_step(*body, bi as int, default.0 as int);
                    }
                    work.push(*default);
                    proof {
                        assert forall|j: int| 0 <= j < succ.len() implies work@.contains(
                            #[trigger] succ[j],
                        ) by {
                            if j < table@.len() {
                                assert(work@[work_k.len() + j] == succ[j]);
                            } else {
                                assert(work@[work@.len() - 1] == succ[j]);
                            }
                        }
                    }
                },
                _ => {},
            }
            proof {
                assert forall|x: BlockId| work_k.contains(x) implies work@.contains(x) by {
                    let kk = choose|kk: int| 0 <= kk < work_k.len() && work_k[kk] == x;
                    assert(work@[kk] == x);
                }
                let succ = successors(body.instructions@[iid.0 as int]);
                if let Inst::Jump { target } | Inst::JumpIfFalse { target, .. } | Inst::ForNext {
                    target,
                    ..
                } = body.instructions@[iid.0 as int] {
                    assert(work@[work@.len() - 1] == succ[0]);
                }
            }
            k += 1;
        }
        proof {
            assert forall|a: int, c: int|
                0 <= a < n && 0 <= c < n && seen@[a] && #[trigger] edge(*body, a, c) implies seen@[c]
                    || work@.contains(BlockId(c as u32)) by {
                if a == bi {
                    let (k2, j) = choose|k2: int, j: int|
                        #![trigger body.blocks@[a].stream@[k2], successors(body.instructions@[body.blocks@[a].stream@[k2].0 as int])[j]]
                        0 <= k2 < body.blocks@[a].stream@.len() && 0 <= j < successors(
                            body.instructions@[body.blocks@[a].stream@[k2].0 as int],
                        ).len() && successors(
                            body.instructions@[body.blocks@[a].stream@[k2].0 as int],
                        )[j].0 == c;
                    let x = successors(body.instructions@[stream@[k2].0 as int])[j];
                    assert(work@.contains(x));
                    assert(x == BlockId(c as u32));
                } else {
                    assert(seen0[a]);
                    if !seen0[c] {
                        assert(work0.contains(BlockId(c as u32)));
                        if BlockId(c as u32) != b {
                            assert(work@.contains(BlockId(c as u32)));
                        }
                    }
                }
            }
            if !seen0[0] && 0 != bi {
                assert(work0.contains(BlockId(0)));
            }
        }
    }
    proof {
        assert forall|c: int| 0 <= c < seen@.len() implies seen@[c] == reachable(*body, c) by {
            if reachable(*body, c) {
                lemma_closed_holds_reachable(*body, seen@, c);
            }
        }
    }
    seen
}

/// Prunes dead code: every block that no walk from the entry block reaches has its stream
/// cleared. Returns whether a stream was actually emptied.
pub fn dce(body: &mut Body) -> (modified: bool)
    requires
        body_wf(*old(body)),
    ensures
        body_wf(*final(body)),
        placed_once(*old(body)) ==> placed_once(*final(body)),
        dce_step(*old(body), *final(body), modified),
{
    proof {
        reveal(dce_step);
    }
    let seen = reachable_blocks(body);
    let ghost before = *body;
    let mut modified = false;
    let mut i: usize = 0;
    while i < body.blocks.len()
        invariant
            body_wf(*body),
            seen@.len() == before.blocks@.len(),
            forall|c: int| 0 <= c < seen@.len() ==> seen@[c] == reachable(before, c),
            body.instructions@ == before.instructions@,
            body.blocks@.len() == before.blocks@.len(),
            body.params == before.params,
            body.captures == before.captures,
            body.current_block == before.current_block,
            body.loop_stack == before.loop_stack,
            body.locs == before.locs,
            body.artifacts == before.artifacts,
            i <= body.blocks@.len(),
            forall|c: int|
                0 <= c < i ==> (#[trigger] body.blocks@[c]).stream@ == if reachable(before, c) {
                    before.blocks@[c].stream@
                } else {
                    Seq::empty()
                },
            forall|c: int| i <= c < body.blocks@.len() ==> #[trigger] body.blocks@[c] == before.blocks@[c],
            modified == exists|c: int|
                0 <= c < i && !reachable(before, c) && #[trigger] before.blocks@[c].stream@.len() > 0,
            !modified ==> *body == before,
        decreases body.blocks@.len() - i,
    {
        if !seen[i] && body.blocks[i].stream.len() > 0 {
            body.blocks.set(i, Block::new());
            modified = true;
        }
        proof {
            assert forall|bi: int, k: int|
                0 <= bi < body.blocks@.len() && 0 <= k < body.blocks@[bi].stream@.len() implies (
                #[trigger] body.blocks@[bi].stream@[k]).0 < body.instructions@.len() by {
                if bi != i {
                    assert(body.blocks@[bi].stream@[k] == before.blocks@[bi].stream@[k] || bi < i);
                }
            }
        }
        i += 1;
    }
    proof {
        if placed_once(before) {
            assert forall|bi: int| 0 <= bi < body.blocks@.len() implies (#[trigger] body.blocks@[bi]).stream@.no_duplicates() by {
                assert(before.blocks@[bi].stream@.no_duplicates());
            }
            assert forall|b1: int, b2: int, k1: int, k2: int|
                0 <= b1 < body.blocks@.len() && 0 <= b2 < body.blocks@.len() && b1 != b2 && 0 <= k1
                    < body.blocks@[b1].stream@.len() && 0 <= k2 < body.blocks@[b2].stream@.len() implies #[trigger] body.blocks@[b1].stream@[k1]
                    != #[trigger] body.blocks@[b2].stream@[k2] by {
                assert(body.blocks@[b1].stream@ == before.blocks@[b1].stream@);
                assert(body.blocks@[b2].stream@ == before.blocks@[b2].stream@);
                assert(before.blocks@[b1].stream@[k1] != before.blocks@[b2].stream@[k2]);
            }
        }
    }
    modified
}

/// Instruction `i` is a root that a block runs: it must run whatever uses its value.
pub open spec fn runs_root(b: Body, i: int) -> bool {
    exists|bi: int, k: int|
        0 <= bi < b.blocks@.len() && 0 <= k < b.blocks@[bi].stream@.len() && (
        #[trigger] b.blocks@[bi].stream@[k]).0 == i && is_root(b.instructions@[i])
}

/// Instruction `x` uses the value of instruction `y`.
pub open spec fn uses_value(b: Body, x: int, y: int) -> bool {
    exists|k: int|
        0 <= k < operands(b.instructions@[x]).len() && (#[trigger] operands(
            b.instructions@[x],
        )[k]).0 == y
}

/// A chain of uses from a root that runs: each instruction uses the value of the next.
pub open spec fn is_use_chain(b: Body, p: Seq<int>) -> bool {
    &&& p.len() >= 1
    &&& runs_root(b, p[0])
    &&& forall|j: int| 0 <= j < p.len() ==> 0 <= #[trigger] p[j] < b.instructions@.len()
    &&& forall|j: int| 0 <= j < p.len() - 1 ==> uses_value(b, #[trigger] p[j], p[j + 1])
}

/// Instruction `i` is live: a root that runs, or a value some live instruction uses.
pub open spec fn live(b: Body, i: int) -> bool {
    exists|p: Seq<int>| #[trigger] is_use_chain(b, p) && p.last() == i
}

proof fn lemma_root_live(b: Body, i: int)
    requires
        runs_root(b, i),
        0 <= i < b.instructions@.len(),
    ensures
        live(b, i),
{
    let p = seq![i];
    assert(is_use_chain(b, p));
}

proof fn lemma_live_step(b: Body, x: int, y: int)
    requires
        live(b, x),
        uses_value(b, x, y),
        0 <= y < b.instructions@.len(),
    ensures
        live(b, y),
{
    let p = choose|p: Seq<int>| #[trigger] is_use_chain(b, p) && p.last() == x;
    let q = p.push(y);
    assert forall|j: int| 0 <= j < q.len() - 1 implies uses_value(b, #[trigger] q[j], q[j + 1]) by {
        if j < p.len() - 1 {
            assert(q[j] == p[j] && q[j + 1] == p[j + 1]);
        } else {
            assert(q[j] == x);
        }
    }
    assert(is_use_chain(b, q));
}

proof fn lemma_closed_holds_chain(b: Body, marked: Seq<bool>, p: Seq<int>, j: int)
    requires
        marked.len() == b.instructions@.len(),
        forall|i: int| 0 <= i < marked.len() && runs_root(b, i) ==> #[trigger] marked[i],
        forall|x: int, y: int|
            0 <= x < marked.len() && 0 <= y < marked.len() && marked[x] && #[trigger] uses_value(b, x, y)
                ==> marked[y],
        is_use_chain(b, p),
        0 <= j < p.len(),
    ensures
        marked[p[j]],
    decreases j,
{
    if j > 0 {
        lemma_closed_holds_chain(b, marked, p, j - 1);
        assert(uses_value(b, p[j - 1], p[j]));
        assert(0 <= p[j] < b.instructions@.len());
    } else {
        assert(0 <= p[0] < b.instructions@.len());
    }
}

/// Marks every live instruction of `body`.
pub fn live_insts(body: &Body) -> (marked: Vec<bool>)
    requires
        body_wf(*body),
    ensures
        marked@.len() == body.instructions@.len(),
        forall|i: int| 0 <= i < marked@.len() ==> marked@[i] == live(*body, i),
{
    let n = body.instructions.len();
    let mut marked: Vec<bool> = Vec::new();
    while marked.len() < n
        invariant
            marked@.len() <= n,
            forall|c: int| 0 <= c < marked@.len() ==> !marked@[c],
        decreases n - marked@.len(),
    {
        marked.push(false);
    }
    let mut work: Vec<InstId> = Vec::new();
    let mut bi: usize = 0;
    while bi < body.blocks.len()
        invariant
            body_wf(*body),
            n == body.instructions@.len(),
            bi <= body.blocks@.len(),
            forall|k: int|
                0 <= k < work@.len() ==> (#[trigger] work@[k]).0 < n && live(*body, work@[k].0 as int),
            forall|b2: int, k: int|
                0 <= b2 < bi && 0 <= k < body.blocks@[b2].stream@.len() && is_root(
                    body.instructions@[body.blocks@[b2].stream@[k].0 as int],
                ) ==> work@.contains(#[trigger] body.blocks@[b2].stream@[k]),
        decreases body.blocks@.len() - bi,
    {
        let stream = &body.blocks[bi].stream;
        let ghost work_b = work@;
        let mut k: usize = 0;
        while k < stream.len()
            invariant
                body_wf(*body),
                n == body.instructions@.len(),
                bi < body.blocks@.len(),
                *stream == body.blocks@[bi as int].stream,
                k <= stream@.len(),
                forall|kk: int|
                    0 <= kk < work@.len() ==> (#[trigger] work@[kk]).0 < n && live(
                        *body,
                        work@[kk].0 as int,
                    ),
                forall|x: InstId| work_b.contains(x) ==> work@.contains(x),
                forall|k2: int|
                    0 <= k2 < k && is_root(body.instructions@[stream@[k2].0 as int]) ==> work@.contains(
                        #[trigger] stream@[k2],
                    ),
            decreases stream@.len() - k,
        {
            let iid = stream[k];
            let ghost work_k = work@;
            if body.instructions[iid.0 as usize].is_root() {
                proof {
                    assert(runs_root(*body, iid.0 as int)) by {
                        assert(body.blocks@[bi as int].stream@[k as int] == iid);
                    }
                    lemma_root_live(*body, iid.0 as int);
                }
                work.push(iid);
                assert(work@[work@.len() - 1] == iid);
            }
            proof {
                assert forall|x: InstId| work_k.contains(x) implies work@.contains(x) by {
                    let kk = choose|kk: int| 0 <= kk < work_k.len() && work_k[kk] == x;
                    assert(work@[kk] == x);
                }
            }
            k += 1;
        }
        bi += 1;
    }
    proof {
        assert forall|i: int| 0 <= i < n && runs_root(*body, i) implies marked@[i] || work@.contains(
            InstId(i as u32),
        ) by {
            let (b2, k) = choose|b2: int, k: int|
                0 <= b2 < body.blocks@.len() && 0 <= k < body.blocks@[b2].stream@.len() && (
                #[trigger] body.blocks@[b2].stream@[k]).0 == i && is_root(body.instructions@[i]);
            assert(body.blocks@[b2].stream@[k] == InstId(i as u32));
        }
    }
    while work.len() > 0
        invariant
            body_wf(*body),
            n == body.instructions@.len(),
            marked@.len() == n,
            forall|c: int| 0 <= c < n && #[trigger] marked@[c] ==> live(*body, c),
            forall|k: int|
                0 <= k < work@.len() ==> (#[trigger] work@[k]).0 < n && live(
                    *body,
                    work@[k].0 as int,
                ),
            forall|i: int|
                0 <= i < n && #[trigger] runs_root(*body, i) ==> marked@[i] || work@.contains(
                    InstId(i as u32),
                ),
            forall|x: int, y: int|
                0 <= x < n && 0 <= y < n && marked@[x] && #[trigger] uses_value(*body, x, y)
                    ==> marked@[y] || work@.contains(InstId(y as u32)),
        decreases count_false(marked@), work@.len(),
    {
        let ghost work0 = work@;
        let x = work.pop().unwrap();
        proof {
            assert(work0 =~= work@.push(x));
            assert(work0[work0.len() - 1] == x);
            assert forall|c: InstId| work0.contains(c) implies c == x || work@.contains(c) by {
                let k = choose|k: int| 0 <= k < work0.len() && work0[k] == c;
                if k < work@.len() {
                    assert(work@[k] == c);
                }
            }
        }
        let xi = x.0 as usize;
        if marked[xi] {
            continue;
        }
        let ghost marked0 = marked@;
        proof {
            lemma_count_false_set(marked@, xi as int);
        }
        marked.set(xi, true);
        let us = crate::ir::uses(&body.instructions[xi]);
        let ghost work_k = work@;
        let mut j: usize = 0;
        while j < us.len()
            invariant
                body_wf(*body),
                n == body.instructions@.len(),
                xi < n,
                live(*body, xi as int),
                forall|y: InstId| us@.contains(y) <==> operands(body.instructions@[xi as int]).contains(y),
                j <= us@.len(),
                work@.len() == work_k.len() + j,
                forall|kk: int| 0 <= kk < work_k.len() ==> work@[kk] == work_k[kk],
                forall|jj: int| 0 <= jj < j ==> work@[work_k.len() + jj] == us@[jj],
                forall|kk: int|
                    0 <= kk < work@.len() ==> (#[trigger] work@[kk]).0 < n && live(
                        *body,
                        work@[kk].0 as int,
                    ),
            decreases us@.len() - j,
        {
            proof {
                let y = us@[j as int];
                assert(us@.contains(y));
                let k = choose|k: int|
                    0 <= k < operands(body.instructions@[xi as int]).len()
                        && operands(body.instructions@[xi as int])[k] == y;
                assert(uses_value(*body, xi as int, y.0 as int));
                assert(y.0 < n);
                lemma_live_step(*body, xi as int, y.0 as int);
            }
            work.push(us[j]);
            j += 1;
        }
        proof {
            assert forall|c: InstId| work_k.contains(c) implies work@.contains(c) by {
                let kk = choose|kk: int| 0 <= kk < work_k.len() && work_k[kk] == c;
                assert(work@[kk] == c);
            }
            assert forall|a: int, c: int|
                0 <= a < n && 0 <= c < n && marked@[a] && #[trigger] uses_value(*body, a, c) implies marked@[c]
                    || work@.contains(InstId(c as u32)) by {
                if a == xi {
                    let k = choose|k: int|
                        0 <= k < operands(body.instructions@[a]).len() && (#[trigger] operands(
                            body.instructions@[a],
                        )[k]).0 == c;
                    let y = operands(body.instructions@[a])[k];
                    assert(us@.contains(y));
                    let jj = choose|jj: int| 0 <= jj < us@.len() && us@[jj] == y;
                    assert(work@[work_k.len() + jj] == y);
                    assert(y == InstId(c as u32));
                } else {
                    assert(marked0[a]);
                    if !marked0[c] {
                        assert(work0.contains(InstId(c as u32)));
                        if InstId(c as u32) != x {
                            assert(work@.contains(InstId(c as u32)));
                        }
                    }
                }
            }
            assert forall|i: int|
                0 <= i < n && #[trigger] runs_root(*body, i) implies marked@[i] || work@.contains(
                InstId(i as u32),
            ) by {
                if !marked0[i] {
                    assert(work0.contains(InstId(i as u32)));
                    if InstId(i as u32) != x {
                        assert(work@.contains(InstId(i as u32)));
                    }
                }
            }
        }
    }
    proof {
        assert forall|i: int| 0 <= i < marked@.len() implies marked@[i] == live(*body, i) by {
            if live(*body, i) {
                let p = choose|p: Seq<int>| #[trigger] is_use_chain(*body, p) && p.last() == i;
                lemma_closed_holds_chain(*body, marked@, p, p.len() - 1);
            }
        }
    }
    marked
}

/// The instructions of a stream that are live in `b`, in order.
pub open spec fn live_stream(b: Body, s: Seq<InstId>) -> Seq<InstId> {
    s.filter(|x: InstId| live(b, x.0 as int))
}

/// Prunes unused values: each stream keeps only its live instructions, in order. Returns
/// whether any stream got shorter.
pub fn dve(body: &mut Body) -> (modified: bool)
    requires
        body_wf(*old(body)),
    ensures
        body_wf(*final(body)),
        placed_once(*old(body)) ==> placed_once(*final(body)),
        dve_step(*old(body), *final(body), modified),
{
    proof {
        reveal(dve_step);
    }
    let marked = live_insts(body);
    let ghost before = *body;
    let mut modified = false;
    let mut i: usize = 0;
    while i < body.blocks.len()
        invariant
            body_wf(*body),
            marked@.len() == before.instructions@.len(),
            forall|c: int| 0 <= c < marked@.len() ==> marked@[c] == live(before, c),
            body_wf(before),
            body.instructions@ == before.instructions@,
            body.blocks@.len() == before.blocks@.len(),
            body.params == before.params,
            body.captures == before.captures,
            body.current_block == before.current_block,
            body.loop_stack == before.loop_stack,
            body.locs == before.locs,
            body.artifacts == before.artifacts,
            i <= body.blocks@.len(),
            forall|c: int|
                0 <= c < i ==> (#[trigger] body.blocks@[c]).stream@ == live_stream(
                    before,
                    before.blocks@[c].stream@,
                ),
            forall|c: int| i <= c < body.blocks@.len() ==> #[trigger] body.blocks@[c] == before.blocks@[c],
            modified == exists|c: int|
                0 <= c < i && #[trigger] live_stream(before, before.blocks@[c].stream@).len()
                    != before.blocks@[c].stream@.len(),
            !modified ==> *body == before,
        decreases body.blocks@.len() - i,
    {
        let kept = keep_live(&body.blocks[i].stream, &marked, Ghost(before));
        let changed = kept.len() != body.blocks[i].stream.len();
        if changed {
            body.blocks.set(i, Block { stream: kept });
        } else {
            proof {
                lemma_filter_full(before.blocks@[i as int].stream@, |x: InstId| live(before, x.0 as int));
            }
        }
        modified = modified || changed;
        proof {
            assert forall|bi: int, k: int|
                0 <= bi < body.blocks@.len() && 0 <= k < body.blocks@[bi].stream@.len() implies (
                #[trigger] body.blocks@[bi].stream@[k]).0 < body.instructions@.len() by {
                if bi == i {
                    let s = before.blocks@[bi].stream@;
                    let pred = |x: InstId| live(before, x.0 as int);
                    s.filter_lemma(pred);
                    let y = body.blocks@[bi].stream@[k];
                    assert(s.filter(pred).contains(y));
                    reveal(Seq::filter);
                    lemma_filter_subset(s, pred, y);
                }
            }
        }
        i += 1;
    }
    proof {
        if placed_once(before) {
            let pred = |x: InstId| live(before, x.0 as int);
            assert forall|bi: int| 0 <= bi < body.blocks@.len() implies (#[trigger] body.blocks@[bi]).stream@.no_duplicates() by {
                lemma_filter_no_dup(before.blocks@[bi].stream@, pred);
            }
            assert forall|b1: int, b2: int, k1: int, k2: int|
                0 <= b1 < body.blocks@.len() && 0 <= b2 < body.blocks@.len() && b1 != b2 && 0 <= k1
                    < body.blocks@[b1].stream@.len() && 0 <= k2 < body.blocks@[b2].stream@.len() implies #[trigger] body.blocks@[b1].stream@[k1]
                    != #[trigger] body.blocks@[b2].stream@[k2] by {
                lemma_filter_has(before.blocks@[b1].stream@, pred, k1);
                lemma_filter_has(before.blocks@[b2].stream@, pred, k2);
                let j1 = choose|j: int| 0 <= j < before.blocks@[b1].stream@.len() && before.blocks@[b1].stream@[j] == body.blocks@[b1].stream@[k1];
                let j2 = choose|j: int| 0 <= j < before.blocks@[b2].stream@.len() && before.blocks@[b2].stream@[j] == body.blocks@[b2].stream@[k2];
                assert(before.blocks@[b1].stream@[j1] != before.blocks@[b2].stream@[j2]);
            }
        }
    }
    modified
}

/// A filter that keeps as many items as there are keeps them all.
proof fn lemma_filter_full<A>(s: Seq<A>, pred: spec_fn(A) -> bool)
    ensures
        s.filter(pred).len() <= s.len(),
        s.filter(pred).len() == s.len() ==> s.filter(pred) == s,
    decreases s.len(),
{
    reveal(Seq::filter);
    if s.len() > 0 {
        lemma_filter_full(s.drop_last(), pred);
        if s.filter(pred).len() == s.len() {
            assert(s.drop_last().push(s.last()) =~= s);
        }
    }
}

/// A filter of a sequence without repeats has no repeats.
proof fn lemma_filter_no_dup<A>(s: Seq<A>, pred: spec_fn(A) -> bool)
    requires
        s.no_duplicates(),
    ensures
        s.filter(pred).no_duplicates(),
    decreases s.len(),
{
    reveal(Seq::filter);
    if s.len() > 0 {
        let init = s.drop_last();
        assert(init.no_duplicates()) by {
            assert forall|i: int, j: int| 0 <= i < init.len() && 0 <= j < init.len() && i != j implies init[i] != init[j] by {
                assert(init[i] == s[i] && init[j] == s[j]);
            }
        }
        lemma_filter_no_dup(init, pred);
        let rest = init.filter(pred);
        if pred(s.last()) {
            assert forall|k: int| 0 <= k < rest.len() implies rest[k] != s.last() by {
                lemma_filter_has(init, pred, k);
                let j = choose|j: int| 0 <= j < init.len() && init[j] == rest[k];
                assert(s[j] == init[j]);
            }
            let out = rest.push(s.last());
            assert forall|i: int, j: int| 0 <= i < out.len() && 0 <= j < out.len() && i != j implies out[i] != out[j] by {
                if i < rest.len() && j < rest.len() {
                    assert(out[i] == rest[i] && out[j] == rest[j]);
                } else if i < rest.len() {
                    assert(out[i] == rest[i]);
                } else if j < rest.len() {
                    assert(out[j] == rest[j]);
                }
            }
        }
    }
}

/// What a filter keeps was already there.
proof fn lemma_filter_subset(s: Seq<InstId>, pred: spec_fn(InstId) -> bool, y: InstId)
    requires
        s.filter(pred).contains(y),
    ensures
        s.contains(y),
    decreases s.len(),
{
    reveal(Seq::filter);
    if s.len() > 0 {
        let rest = s.drop_last().filter(pred);
        if rest.contains(y) {
            lemma_filter_subset(s.drop_last(), pred, y);
            let k = choose|k: int| 0 <= k < s.drop_last().len() && s.drop_last()[k] == y;
            assert(s[k] == y);
        } else {
            assert(y == s.last());
        }
    }
}

/// The ids of `s` that `marked` marks, in order.
fn keep_live(s: &Vec<InstId>, marked: &Vec<bool>, Ghost(b): Ghost<Body>) -> (kept: Vec<InstId>)
    requires
        marked@.len() == b.instructions@.len(),
        forall|c: int| 0 <= c < marked@.len() ==> marked@[c] == live(b, c),
        forall|k: int| 0 <= k < s@.len() ==> (#[trigger] s@[k]).0 < marked@.len(),
    ensures
        kept@ == live_stream(b, s@),
{
    let ghost pred = |x: InstId| live(b, x.0 as int);
    let mut kept: Vec<InstId> = Vec::new();
    let mut k: usize = 0;
    while k < s.len()
        invariant
            k <= s@.len(),
            marked@.len() == b.instructions@.len(),
            forall|c: int| 0 <= c < marked@.len() ==> marked@[c] == live(b, c),
            forall|kk: int| 0 <= kk < s@.len() ==> (#[trigger] s@[kk]).0 < marked@.len(),
            pred == (|x: InstId| live(b, x.0 as int)),
            kept@ == s@.take(k as int).filter(pred),
        decreases s@.len() - k,
    {
        let x = s[k];
        proof {
            reveal(Seq::filter);
            assert(s@.take(k + 1).drop_last() =~= s@.take(k as int));
            assert(s@.take(k + 1).last() == x);
        }
        if marked[x.0 as usize] {
            kept.push(x);
        }
        k += 1;
    }
    assert(s@.take(k as int) =~= s@);
    kept
}

/// If block `bid` is a forwarder, exactly one unconditional jump, the block it jumps to.
pub open spec fn forwarder(b: Body, bid: int) -> Option<BlockId> {
    let s = b.blocks@[bid].stream@;
    if s.len() == 1 {
        match b.instructions@[s[0].0 as int] {
            Inst::Jump { target } => Some(target),
            _ => None,
        }
    } else {
        None
    }
}

/// Whether block `t`'s first instruction is a phi.
pub open spec fn opens_with_phi(b: Body, t: int) -> bool {
    b.blocks@[t].stream@.len() > 0 && b.instructions@[b.blocks@[t].stream@[0].0 as int] is Phi
}

/// Where following forwarders from `t` leads, taking at most `fuel` jumps.
pub open spec fn chase(b: Body, t: BlockId, fuel: nat) -> BlockId
    decreases fuel,
{
    if fuel == 0 {
        t
    } else {
        match forwarder(b, t.0 as int) {
            Some(n) => chase(b, n, (fuel - 1) as nat),
            None => t,
        }
    }
}

/// Where jumps to forwarder `bid` can go instead: the end of its chain of forwarders (followed
/// at most once per block), unless that is `bid` itself or a block opening with a phi.
pub open spec fn redirection(b: Body, bid: int) -> Option<BlockId> {
    if forwarder(b, bid) is Some {
        let t = chase(b, BlockId(bid as u32), b.blocks@.len());
        if t.0 != bid && !opens_with_phi(b, t.0 as int) {
            Some(t)
        } else {
            None
        }
    } else {
        None
    }
}

/// A jump target after threading.
pub open spec fn threaded(b: Body, t: BlockId) -> BlockId {
    match redirection(b, t.0 as int) {
        Some(r) => r,
        None => t,
    }
}

/// `new` is `old` with each jump target threaded through `b`'s forwarders.
pub open spec fn retargeted(b: Body, old: Inst, new: Inst) -> bool {
    match old {
        Inst::Jump { target } => new == Inst::Jump { target: threaded(b, target) },
        Inst::JumpIfFalse { condition, target } => new == Inst::JumpIfFalse {
            condition,
            target: threaded(b, target),
        },
        Inst::ForNext { idx, bound, target } => new == Inst::ForNext {
            idx,
            bound,
            target: threaded(b, target),
        },
        Inst::Switch { scrut, base, table, default } => match new {
            Inst::Switch { scrut: s2, base: b2, table: t2, default: d2 } => s2 == scrut && b2 == base
                && t2@ == table@.map_values(|t: BlockId| threaded(b, t)) && d2 == threaded(b, default),
            _ => false,
        },
        _ => new == old,
    }
}

/// Whether threading changes one of an instruction's jump targets.
pub open spec fn threads(b: Body, i: Inst) -> bool {
    exists|k: int| 0 <= k < successors(i).len() && redirection(b, #[trigger] successors(i)[k].0 as int) is Some
}

/// If block `bid` is a forwarder, exactly one unconditional jump, returns its target.
pub fn forwarder_target(body: &Body, bid: BlockId) -> (r: Option<BlockId>)
    requires
        body_wf(*body),
        bid.0 < body.blocks@.len(),
    ensures
        r == forwarder(*body, bid.0 as int),
        r matches Some(t) ==> t.0 < body.blocks@.len(),
{
    let s = &body.blocks[bid.0 as usize].stream;
    if s.len() == 1 {
        let only = s[0];
        match &body.instructions[only.0 as usize] {
            Inst::Jump { target } => {
                proof {
                    assert(successors(body.instructions@[only.0 as int])[0] == *target);
                }
                Some(*target)
            },
            _ => None,
        }
    } else {
        None
    }
}

/// Whether block `t` opens with a phi.
fn starts_with_phi(body: &Body, t: BlockId) -> (r: bool)
    requires
        body_wf(*body),
        t.0 < body.blocks@.len(),
    ensures
        r == opens_with_phi(*body, t.0 as int),
{
    let s = &body.blocks[t.0 as usize].stream;
    if s.len() == 0 {
        false
    } else {
        match &body.instructions[s[0].0 as usize] {
            Inst::Phi(_) => true,
            _ => false,
        }
    }
}

/// Computes [`redirection`] for every block.
fn redirections(body: &Body) -> (r: Vec<Option<BlockId>>)
    requires
        body_wf(*body),
    ensures
        r@.len() == body.blocks@.len(),
        forall|c: int| 0 <= c < r@.len() ==> #[trigger] r@[c] == redirection(*body, c),
        forall|c: int| 0 <= c < r@.len() ==> (#[trigger] r@[c] matches Some(t) ==> t.0 < body.blocks@.len()),
{
    let n = body.blocks.len();
    let mut r: Vec<Option<BlockId>> = Vec::new();
    let mut bi: usize = 0;
    while bi < n
        invariant
            body_wf(*body),
            n == body.blocks@.len(),
            bi <= n,
            r@.len() == bi,
            forall|c: int| 0 <= c < bi ==> #[trigger] r@[c] == redirection(*body, c),
            forall|c: int| 0 <= c < bi ==> (#[trigger] r@[c] matches Some(t) ==> t.0 < n),
        decreases n - bi,
    {
        let bid = BlockId(bi as u32);
        let entry = match forwarder_target(body, bid) {
            None => None,
            Some(_) => {
                let mut t = bid;
                let mut step: usize = 0;
                while step < n
                    invariant
                        body_wf(*body),
                        n == body.blocks@.len(),
                        step <= n,
                        t.0 < n,
                        chase(*body, bid, n as nat) == chase(*body, t, (n - step) as nat),
                    ensures
                        t.0 < n,
                        chase(*body, bid, n as nat) == t,
                    decreases n - step,
                {
                    match forwarder_target(body, t) {
                        Some(x) => {
                            t = x;
                        },
                        None => {
                            assert(chase(*body, t, (n - step) as nat) == t);
                            break;
                        },
                    }
                    step += 1;
                }
                if t.0 as usize != bi && !starts_with_phi(body, t) {
                    Some(t)
                } else {
                    None
                }
            },
        };
        r.push(entry);
        bi += 1;
    }
    r
}

/// The target `t` threaded through the redirections `r`.
fn thread_target(r: &Vec<Option<BlockId>>, t: BlockId, Ghost(b): Ghost<Body>) -> (out: (BlockId, bool))
    requires
        r@.len() == b.blocks@.len(),
        forall|c: int| 0 <= c < r@.len() ==> #[trigger] r@[c] == redirection(b, c),
        t.0 < r@.len(),
    ensures
        out.0 == threaded(b, t),
        out.1 == redirection(b, t.0 as int) is Some,
{
    match r[t.0 as usize] {
        Some(x) => (x, true),
        None => (t, false),
    }
}

/// Skips forwarders: each jump to a block that is only an unconditional jump goes straight to
/// the end of the chain of such blocks, unless that end opens with a phi. Returns whether a jump
/// target was rewritten.
pub fn thread_jumps(body: &mut Body) -> (modified: bool)
    requires
        body_wf(*old(body)),
    ensures
        body_wf(*final(body)),
        placed_once(*old(body)) ==> placed_once(*final(body)),
        thread_jumps_step(*old(body), *final(body), modified),
{
    proof {
        reveal(thread_jumps_step);
    }
    let ghost before = *body;
    let r = redirections(body);
    let mut modified = false;
    let mut i: usize = 0;
    while i < body.instructions.len()
        invariant
            body_wf(before),
            r@.len() == before.blocks@.len(),
            forall|c: int| 0 <= c < r@.len() ==> #[trigger] r@[c] == redirection(before, c),
            forall|c: int| 0 <= c < r@.len() ==> (#[trigger] r@[c] matches Some(t) ==> t.0 < before.blocks@.len()),
            body.blocks == before.blocks,
            body.instructions@.len() == before.instructions@.len(),
            body.params == before.params,
            body.captures == before.captures,
            body.current_block == before.current_block,
            body.loop_stack == before.loop_stack,
            body.locs == before.locs,
            body.artifacts == before.artifacts,
            i <= body.instructions@.len(),
            forall|j: int|
                0 <= j < i ==> retargeted(before, before.instructions@[j], #[trigger] body.instructions@[j]),
            forall|j: int| i <= j < body.instructions@.len() ==> #[trigger] body.instructions@[j] == before.instructions@[j],
            modified == exists|j: int| 0 <= j < i && #[trigger] threads(before, before.instructions@[j]),
            !modified ==> *body == before,
        decreases body.instructions@.len() - i,
    {
        let ghost old_i = before.instructions@[i as int];
        proof {
            assert forall|k: int| 0 <= k < successors(old_i).len() implies (#[trigger] successors(old_i)[k]).0
                < before.blocks@.len() by {
                assert(successors(before.instructions@[i as int])[k].0 < before.blocks@.len());
            }
        }
        let (new_inst, changed) = match &body.instructions[i] {
            Inst::Jump { target } => {
                assert(successors(old_i)[0] == *target);
                let (t, c) = thread_target(&r, *target, Ghost(before));
                (Some(Inst::Jump { target: t }), c)
            },
            Inst::JumpIfFalse { condition, target } => {
                assert(successors(old_i)[0] == *target);
                let (t, c) = thread_target(&r, *target, Ghost(before));
                (Some(Inst::JumpIfFalse { condition: *condition, target: t }), c)
            },
            Inst::ForNext { idx, bound, target } => {
                assert(successors(old_i)[0] == *target);
                let (t, c) = thread_target(&r, *target, Ghost(before));
                (Some(Inst::ForNext { idx: *idx, bound: *bound, target: t }), c)
            },
            Inst::Switch { scrut, base, table, default } => {
                let mut t2: Vec<BlockId> = Vec::new();
                let mut c = false;
                let mut k: usize = 0;
                while k < table.len()
                    invariant
                        r@.len() == before.blocks@.len(),
                        forall|cc: int| 0 <= cc < r@.len() ==> #[trigger] r@[cc] == redirection(before, cc),
                        successors(old_i) == table@.push(*default),
                        forall|kk: int| 0 <= kk < successors(old_i).len() ==> (#[trigger] successors(old_i)[kk]).0 < before.blocks@.len(),
                        k <= table@.len(),
                        t2@ == table@.take(k as int).map_values(|t: BlockId| threaded(before, t)),
                        c == exists|kk: int| 0 <= kk < k && redirection(before, (#[trigger] table@[kk]).0 as int) is Some,
                    decreases table@.len() - k,
                {
                    assert(successors(old_i)[k as int] == table@[k as int]);
                    let (t, ck) = thread_target(&r, table[k], Ghost(before));
                    t2.push(t);
                    c = c || ck;
                    assert(table@.take(k + 1).map_values(|t: BlockId| threaded(before, t)) =~= table@.take(
                        k as int,
                    ).map_values(|t: BlockId| threaded(before, t)).push(threaded(before, table@[k as int])));
                    k += 1;
                }
                assert(table@.take(k as int) =~= table@);
                assert(successors(old_i)[table@.len() as int] == *default);
                let (d, cd) = thread_target(&r, *default, Ghost(before));
                proof {
                    let pushed = table@.push(*default);
                    assert((c || cd) == exists|kk: int| 0 <= kk < pushed.len() && redirection(before, (#[trigger] pushed[kk]).0 as int) is Some) by {
                        if c {
                            let kk = choose|kk: int| 0 <= kk < k && redirection(before, (#[trigger] table@[kk]).0 as int) is Some;
                            assert(pushed[kk] == table@[kk]);
                        }
                        if cd {
                            assert(pushed[table@.len() as int] == *default);
                        }
                        if exists|kk: int| 0 <= kk < pushed.len() && redirection(before, (#[trigger] pushed[kk]).0 as int) is Some {
                            let kk = choose|kk: int| 0 <= kk < pushed.len() && redirection(before, (#[trigger] pushed[kk]).0 as int) is Some;
                            if kk < table@.len() {
                                assert(pushed[kk] == table@[kk]);
                            }
                        }
                    }
                }
                (Some(Inst::Switch { scrut: *scrut, base: *base, table: t2, default: d }), c || cd)
            },
            _ => (None, false),
        };
        proof {
            if new_inst is None {
                assert(successors(old_i) =~= Seq::<BlockId>::empty());
            }
            assert(changed == threads(before, old_i));
        }
        if changed {
            match new_inst {
                Some(x) => {
                    body.instructions.set(i, x);
                },
                None => {},
            }
        } else {
            proof {
                lemma_unthreaded_keeps(before, old_i);
            }
        }
        modified = modified || changed;
        i += 1;
    }
    proof {
        assert forall|ii: int, k: int|
            0 <= ii < body.instructions@.len() && 0 <= k < successors(body.instructions@[ii]).len() implies (
            #[trigger] successors(body.instructions@[ii])[k]).0 < body.blocks@.len() by {
            lemma_retarget_in_range(before, before.instructions@[ii], body.instructions@[ii], k);
        }
        assert forall|ii: int, k: int|
            0 <= ii < body.instructions@.len() && 0 <= k < operands(body.instructions@[ii]).len() implies (
            #[trigger] operands(body.instructions@[ii])[k]).0 < body.instructions@.len() by {
            lemma_retarget_operands(before, before.instructions@[ii], body.instructions@[ii]);
            assert(operands(before.instructions@[ii])[k].0 < before.instructions@.len());
        }
    }
    modified
}

/// An instruction none of whose targets is redirected comes out of threading as it was.
proof fn lemma_unthreaded_keeps(b: Body, i: Inst)
    requires
        !threads(b, i),
    ensures
        retargeted(b, i, i),
{
    match i {
        Inst::Jump { target } => {
            assert(successors(i)[0] == target);
        },
        Inst::JumpIfFalse { target, .. } => {
            assert(successors(i)[0] == target);
        },
        Inst::ForNext { target, .. } => {
            assert(successors(i)[0] == target);
        },
        Inst::Switch { table, default, .. } => {
            assert forall|k: int| 0 <= k < table@.len() implies threaded(b, #[trigger] table@[k]) == table@[k] by {
                assert(successors(i)[k] == table@[k]);
            }
            assert(table@.map_values(|t: BlockId| threaded(b, t)) =~= table@);
            assert(successors(i)[table@.len() as int] == default);
        },
        _ => {},
    }
}

/// Threading keeps what an instruction uses.
proof fn lemma_retarget_operands(b: Body, old: Inst, new: Inst)
    requires
        retargeted(b, old, new),
    ensures
        operands(new) == operands(old),
{
}

/// A threaded target stays a block of the body.
proof fn lemma_threaded_in_range(b: Body, t: BlockId)
    requires
        body_wf(b),
        t.0 < b.blocks@.len(),
    ensures
        threaded(b, t).0 < b.blocks@.len(),
{
    if redirection(b, t.0 as int) is Some {
        lemma_chase_in_range(b, BlockId(t.0), b.blocks@.len());
    }
}

/// Following forwarders stays among the body's blocks.
proof fn lemma_chase_in_range(b: Body, t: BlockId, fuel: nat)
    requires
        body_wf(b),
        t.0 < b.blocks@.len(),
    ensures
        chase(b, t, fuel).0 < b.blocks@.len(),
    decreases fuel,
{
    if fuel > 0 {
        if let Some(n) = forwarder(b, t.0 as int) {
            let only = b.blocks@[t.0 as int].stream@[0];
            assert(only.0 < b.instructions@.len());
            assert(successors(b.instructions@[only.0 as int])[0] == n);
            lemma_chase_in_range(b, n, (fuel - 1) as nat);
        }
    }
}

/// The targets of a threaded instruction stay blocks of the body.
proof fn lemma_retarget_in_range(b: Body, old: Inst, new: Inst, k: int)
    requires
        body_wf(b),
        retargeted(b, old, new),
        forall|j: int| 0 <= j < successors(old).len() ==> (#[trigger] successors(old)[j]).0 < b.blocks@.len(),
        0 <= k < successors(new).len(),
    ensures
        successors(new)[k].0 < b.blocks@.len(),
{
    match old {
        Inst::Jump { target } | Inst::JumpIfFalse { target, .. } | Inst::ForNext { target, .. } => {
            assert(successors(old)[0] == target);
            lemma_threaded_in_range(b, target);
        },
        Inst::Switch { table, default, .. } => {
            assert(successors(old) == table@.push(default));
            if let Inst::Switch { table: t2, default: d2, .. } = new {
                if k < t2@.len() {
                    assert(successors(old)[k] == table@[k]);
                    lemma_threaded_in_range(b, table@[k]);
                } else {
                    assert(successors(old)[table@.len() as int] == default);
                    lemma_threaded_in_range(b, default);
                }
            }
        },
        _ => {},
    }
}

/// What folding an instruction of `b` gives: for a binary operation on two integer constants,
/// the integer or bool it evaluates to. Operations that fault, and the float results of true
/// division, are not folded here.
pub open spec fn int_fold(b: Body, i: Inst) -> Option<Scalar> {
    match i {
        Inst::BinOp { left, op, right, .. } => match (
            b.instructions@[left.0 as int],
            b.instructions@[right.0 as int],
        ) {
            (Inst::Constant(Constant::Int(x)), Inst::Constant(Constant::Int(y))) => match spec_eval_int(
                op,
                x,
                y,
            ) {
                Ok(Scalar::Int(v)) => Some(Scalar::Int(v)),
                Ok(Scalar::Bool(v)) => Some(Scalar::Bool(v)),
                _ => None,
            },
            _ => None,
        },
        _ => None,
    }
}

/// The constant instruction a fold gives.
pub open spec fn folded_inst(s: Scalar) -> Inst {
    match s {
        Scalar::Int(v) => Inst::Constant(Constant::Int(v)),
        Scalar::Bool(v) => Inst::Constant(Constant::Bool(v)),
        Scalar::Quotient(..) => Inst::Panic,
    }
}

/// The fold of one instruction, read from the body as it stands.
fn int_fold_of(body: &Body, i: usize) -> (r: Option<Scalar>)
    requires
        body_wf(*body),
        i < body.instructions@.len(),
    ensures
        r == int_fold(*body, body.instructions@[i as int]),
{
    match &body.instructions[i] {
        Inst::BinOp { left, op, right, .. } => {
            proof {
                assert(operands(body.instructions@[i as int])[0] == *left);
                assert(operands(body.instructions@[i as int])[1] == *right);
            }
            match (&body.instructions[left.0 as usize], &body.instructions[right.0 as usize]) {
                (Inst::Constant(Constant::Int(x)), Inst::Constant(Constant::Int(y))) => {
                    match op.eval_int(*x, *y) {
                        Ok(Scalar::Int(v)) => Some(Scalar::Int(v)),
                        Ok(Scalar::Bool(v)) => Some(Scalar::Bool(v)),
                        _ => None,
                    }
                },
                _ => None,
            }
        },
        _ => None,
    }
}

/// Folds binary operations on integer constants into the constant they evaluate to. Every fold
/// is worked out from the body as it was before any of them. Returns whether any instruction
/// was folded.
pub fn fold_constants(body: &mut Body) -> (modified: bool)
    requires
        body_wf(*old(body)),
    ensures
        body_wf(*final(body)),
        placed_once(*old(body)) ==> placed_once(*final(body)),
        fold_constants_step(*old(body), *final(body), modified),
{
    proof {
        reveal(fold_constants_step);
    }
    let ghost before = *body;
    let n = body.instructions.len();
    let mut plan: Vec<Option<Scalar>> = Vec::new();
    let mut i: usize = 0;
    while i < n
        invariant
            *body == before,
            body_wf(before),
            n == before.instructions@.len(),
            i <= n,
            plan@.len() == i,
            forall|j: int| 0 <= j < i ==> #[trigger] plan@[j] == int_fold(before, before.instructions@[j]),
        decreases n - i,
    {
        let f = int_fold_of(body, i);
        plan.push(f);
        i += 1;
    }
    let mut modified = false;
    let mut i: usize = 0;
    while i < n
        invariant
            body_wf(before),
            n == before.instructions@.len(),
            plan@.len() == n,
            forall|j: int| 0 <= j < n ==> #[trigger] plan@[j] == int_fold(before, before.instructions@[j]),
            forall|j: int| 0 <= j < n ==> (#[trigger] plan@[j] matches Some(s) ==> s !is Quotient),
            body.blocks == before.blocks,
            body.instructions@.len() == n,
            body.params == before.params,
            body.captures == before.captures,
            body.current_block == before.current_block,
            body.loop_stack == before.loop_stack,
            body.locs == before.locs,
            body.artifacts == before.artifacts,
            i <= n,
            forall|j: int|
                0 <= j < i ==> #[trigger] body.instructions@[j] == match int_fold(
                    before,
                    before.instructions@[j],
                ) {
                    Some(s) => folded_inst(s),
                    None => before.instructions@[j],
                },
            forall|j: int| i <= j < n ==> #[trigger] body.instructions@[j] == before.instructions@[j],
            modified == exists|j: int| 0 <= j < i && #[trigger] int_fold(before, before.instructions@[j]) is Some,
            !modified ==> *body == before,
        decreases n - i,
    {
        match plan[i] {
            Some(Scalar::Int(v)) => {
                body.instructions.set(i, Inst::Constant(Constant::Int(v)));
                modified = true;
            },
            Some(Scalar::Bool(v)) => {
                body.instructions.set(i, Inst::Constant(Constant::Bool(v)));
                modified = true;
            },
            _ => {},
        }
        i += 1;
    }
    proof {
        assert forall|ii: int, k: int|
            0 <= ii < body.instructions@.len() && 0 <= k < successors(body.instructions@[ii]).len() implies (
            #[trigger] successors(body.instructions@[ii])[k]).0 < body.blocks@.len() by {
            if int_fold(before, before.instructions@[ii]) is None {
                assert(successors(before.instructions@[ii])[k].0 < before.blocks@.len());
            }
        }
        assert forall|ii: int, k: int|
            0 <= ii < body.instructions@.len() && 0 <= k < operands(body.instructions@[ii]).len() implies (
            #[trigger] operands(body.instructions@[ii])[k]).0 < body.instructions@.len() by {
            if int_fold(before, before.instructions@[ii]) is None {
                assert(operands(before.instructions@[ii])[k].0 < before.instructions@.len());
            }
        }
    }
    modified
}

/// Every instruction sits in at most one place: no stream names an instruction twice, and no
/// two blocks name the same one (lowering pushes each instruction into one block, once).
pub open spec fn placed_once(b: Body) -> bool {
    &&& forall|bi: int| 0 <= bi < b.blocks@.len() ==> (#[trigger] b.blocks@[bi]).stream@.no_duplicates()
    &&& forall|b1: int, b2: int, k1: int, k2: int|
        0 <= b1 < b.blocks@.len() && 0 <= b2 < b.blocks@.len() && b1 != b2 && 0 <= k1
            < b.blocks@[b1].stream@.len() && 0 <= k2 < b.blocks@[b2].stream@.len() ==> #[trigger] b.blocks@[b1].stream@[k1]
            != #[trigger] b.blocks@[b2].stream@[k2]
}

/// The branches of a phi; nothing for another instruction.
pub open spec fn phi_branches(i: Inst) -> Seq<(BlockId, InstId)> {
    match i {
        Inst::Phi(v) => v@,
        _ => Seq::empty(),
    }
}

/// The instructions of block `p` that jump to a single target.
pub open spec fn jumps_in(b: Body, p: int) -> Seq<InstId> {
    b.blocks@[p].stream@.filter(|x: InstId| jump_target_of(b.instructions@[x.0 as int]) is Some)
}

/// Block `m` is a merge that only returns its phi: a phi, then a jump to a block that is only
/// `return` of that phi.
pub open spec fn is_return_merge(b: Body, m: int) -> bool {
    let s = b.blocks@[m].stream@;
    &&& s.len() == 2
    &&& b.instructions@[s[0].0 as int] is Phi
    &&& b.instructions@[s[1].0 as int] matches Inst::Jump { target: r } && b.blocks@[r.0 as int].stream@.len()
        == 1 && b.instructions@[b.blocks@[r.0 as int].stream@[0].0 as int] == Inst::Return(s[0])
}

/// Whether block `p` can return directly instead of jumping into a return merge: its one
/// jump is an unconditional jump to such a merge. Gives the merge and that jump.
pub open spec fn sink_of(b: Body, p: int) -> Option<(int, InstId)> {
    if jumps_in(b, p).len() == 1 {
        let e = jumps_in(b, p)[0];
        match b.instructions@[e.0 as int] {
            Inst::Jump { target: m } => if is_return_merge(b, m.0 as int) {
                Some((m.0 as int, e))
            } else {
                None
            },
            _ => None,
        }
    } else {
        None
    }
}

/// Block `p` returns directly instead of jumping into merge `m`.
pub open spec fn sinks_into(b: Body, p: int, m: int) -> bool {
    0 <= p < b.blocks@.len() && match sink_of(b, p) {
        Some((m2, _)) => m2 == m,
        None => false,
    }
}

/// The jump that block `p` would replace with a return, if it returns directly.
pub open spec fn sink_edge(b: Body, p: int) -> Option<int> {
    match sink_of(b, p) {
        Some((_, e)) => Some(e.0 as int),
        None => None,
    }
}

/// The phi of merge `m`.
pub open spec fn merge_phi(b: Body, m: int) -> InstId {
    b.blocks@[m].stream@[0]
}

/// Entry `k` of `bs` is the first one from block `p`.
pub open spec fn first_from(bs: Seq<(BlockId, InstId)>, p: BlockId, k: int) -> bool {
    0 <= k < bs.len() && bs[k].0 == p && forall|j: int| 0 <= j < k ==> (#[trigger] bs[j]).0 != p
}

/// Some entry of `bs` comes from block `p`.
pub open spec fn has_from(bs: Seq<(BlockId, InstId)>, p: BlockId) -> bool {
    exists|k: int| 0 <= k < bs.len() && (#[trigger] bs[k]).0 == p
}

/// The branches of merge `m`'s phi that stay: all but the first entry from each block that
/// returns directly instead.
pub open spec fn kept_branches(b: Body, m: int, bs: Seq<(BlockId, InstId)>) -> Seq<(BlockId, InstId)>
    decreases bs.len(),
{
    if bs.len() == 0 {
        bs
    } else {
        let rest = kept_branches(b, m, bs.drop_last());
        let p = bs.last().0;
        if sinks_into(b, p.0 as int, m) && !has_from(bs.drop_last(), p) {
            rest
        } else {
            rest.push(bs.last())
        }
    }
}

/// Where no block returns directly instead of jumping into merge `m`, its phi keeps every
/// branch.
proof fn lemma_kept_all(b: Body, m: int, bs: Seq<(BlockId, InstId)>, full: Seq<(BlockId, InstId)>)
    requires
        0 <= m < b.blocks@.len(),
        full == phi_branches(b.instructions@[merge_phi(b, m).0 as int]),
        bs.len() <= full.len(),
        bs == full.take(bs.len() as int),
        forall|p: int| 0 <= p < b.blocks@.len() ==> !#[trigger] sinks_now(b, p),
    ensures
        kept_branches(b, m, bs) == bs,
    decreases bs.len(),
{
    if bs.len() > 0 {
        let init = bs.drop_last();
        assert(init =~= full.take(init.len() as int));
        lemma_kept_all(b, m, init, full);
        let p = bs.last().0;
        if sinks_into(b, p.0 as int, m) {
            assert(full[bs.len() - 1] == bs.last());
            assert(BlockId((p.0 as int) as u32) == p);
            assert(has_from(full, p));
            assert(sinks_now(b, p.0 as int));
        }
        assert(init.push(bs.last()) =~= bs);
    }
}

/// Instruction `i` is one that sinking rewrites: the jump of a block that returns directly, or
/// the phi of a return merge.
pub open spec fn sink_touches(b: Body, i: int) -> bool {
    ||| exists|p: int| 0 <= p < b.blocks@.len() && #[trigger] sink_edge(b, p) == Some(i)
    ||| exists|m: int| 0 <= m < b.blocks@.len() && #[trigger] is_return_merge(b, m) && merge_phi(b, m).0 == i
}

/// After sinking, what block `p`'s jump `new` is: a return of the value its entry in the merge's
/// phi carried, or, with no such entry, the jump as it was.
pub open spec fn edge_after(b: Body, p: int, new: Inst) -> bool {
    match sink_of(b, p) {
        Some((m, e)) => {
            let bs = phi_branches(b.instructions@[merge_phi(b, m).0 as int]);
            &&& forall|k: int| #[trigger] first_from(bs, BlockId(p as u32), k) ==> new == Inst::Return(bs[k].1)
            &&& !has_from(bs, BlockId(p as u32)) ==> new == b.instructions@[e.0 as int]
        },
        None => true,
    }
}

/// Block `p` returns directly, and the merge's phi has an entry for it.
pub open spec fn sinks_now(b: Body, p: int) -> bool {
    match sink_of(b, p) {
        Some((m, _)) => has_from(phi_branches(b.instructions@[merge_phi(b, m).0 as int]), BlockId(p as u32)),
        None => false,
    }
}

/// What a filter keeps was already there.
proof fn lemma_filter_has<A>(s: Seq<A>, pred: spec_fn(A) -> bool, k: int)
    requires
        0 <= k < s.filter(pred).len(),
    ensures
        s.contains(s.filter(pred)[k]),
        pred(s.filter(pred)[k]),
    decreases s.len(),
{
    reveal(Seq::filter);
    let rest = s.drop_last().filter(pred);
    if k < rest.len() {
        lemma_filter_has(s.drop_last(), pred, k);
        let j = choose|j: int| 0 <= j < s.drop_last().len() && s.drop_last()[j] == rest[k];
        assert(s[j] == rest[k]);
        if pred(s.last()) {
            assert(s.filter(pred)[k] == rest[k]);
        }
    } else {
        assert(s[s.len() - 1] == s.filter(pred)[k]);
    }
}

/// The jump that block `p` would replace with a return.
pub open spec fn sink_jump(b: Body, p: int) -> InstId {
    match sink_of(b, p) {
        Some((_, e)) => e,
        None => InstId(0),
    }
}

/// The jump a block would replace is one of its own instructions, and a jump.
proof fn lemma_sink_edge_facts(b: Body, p: int)
    requires
        body_wf(b),
        0 <= p < b.blocks@.len(),
        sink_of(b, p) is Some,
    ensures
        b.blocks@[p].stream@.contains(sink_jump(b, p)),
        sink_jump(b, p).0 < b.instructions@.len(),
        b.instructions@[sink_jump(b, p).0 as int] == (Inst::Jump { target: BlockId(sink_merge(b, p) as u32) }),
        0 <= sink_merge(b, p) < b.blocks@.len(),
        is_return_merge(b, sink_merge(b, p)),
        merge_phi(b, sink_merge(b, p)).0 < b.instructions@.len(),
{
    let pred = |x: InstId| jump_target_of(b.instructions@[x.0 as int]) is Some;
    lemma_filter_has(b.blocks@[p].stream@, pred, 0);
    let e = sink_jump(b, p);
    let k = choose|k: int| 0 <= k < b.blocks@[p].stream@.len() && b.blocks@[p].stream@[k] == e;
    assert(b.blocks@[p].stream@[k].0 < b.instructions@.len());
    assert(successors(b.instructions@[e.0 as int])[0].0 < b.blocks@.len());
    let m = sink_merge(b, p);
    assert(b.blocks@[m].stream@[0].0 < b.instructions@.len());
}

/// Different blocks never share the jump they would replace, and that jump is never a merge's
/// phi.
proof fn lemma_sink_edges_apart(b: Body, p1: int, p2: int, m: int)
    requires
        body_wf(b),
        placed_once(b),
        0 <= p1 < b.blocks@.len(),
        0 <= p2 < b.blocks@.len(),
        0 <= m < b.blocks@.len(),
        sink_of(b, p1) is Some,
    ensures
        p1 != p2 && sink_of(b, p2) is Some ==> sink_jump(b, p1) != sink_jump(b, p2),
        is_return_merge(b, m) ==> sink_jump(b, p1) != merge_phi(b, m),
{
    lemma_sink_edge_facts(b, p1);
    if p1 != p2 && sink_of(b, p2) is Some {
        lemma_sink_edge_facts(b, p2);
        let e1 = sink_jump(b, p1);
        let e2 = sink_jump(b, p2);
        let k1 = choose|k: int| 0 <= k < b.blocks@[p1].stream@.len() && b.blocks@[p1].stream@[k] == e1;
        let k2 = choose|k: int| 0 <= k < b.blocks@[p2].stream@.len() && b.blocks@[p2].stream@[k] == e2;
        assert(b.blocks@[p1].stream@[k1] != b.blocks@[p2].stream@[k2]);
    }
}

/// Merges with different blocks have different phis.
proof fn lemma_merge_phis_apart(b: Body, m1: int, m2: int)
    requires
        placed_once(b),
        0 <= m1 < b.blocks@.len(),
        0 <= m2 < b.blocks@.len(),
        m1 != m2,
        is_return_merge(b, m1),
        is_return_merge(b, m2),
    ensures
        merge_phi(b, m1) != merge_phi(b, m2),
{
    assert(b.blocks@[m1].stream@[0] != b.blocks@[m2].stream@[0]);
}

/// Block `p`'s single jump to a single target, if it has exactly one.
fn sole_jump(body: &Body, p: usize) -> (r: Option<InstId>)
    requires
        body_wf(*body),
        p < body.blocks@.len(),
    ensures
        r == (if jumps_in(*body, p as int).len() == 1 {
            Some(jumps_in(*body, p as int)[0])
        } else {
            None
        }),
{
    let ghost pred = |x: InstId| jump_target_of(body.instructions@[x.0 as int]) is Some;
    let s = &body.blocks[p].stream;
    let mut count: usize = 0;
    let mut first: Option<InstId> = None;
    let mut k: usize = 0;
    while k < s.len()
        invariant
            body_wf(*body),
            p < body.blocks@.len(),
            *s == body.blocks@[p as int].stream,
            pred == (|x: InstId| jump_target_of(body.instructions@[x.0 as int]) is Some),
            k <= s@.len(),
            count == s@.take(k as int).filter(pred).len(),
            count == 0 ==> first is None,
            count > 0 ==> first == Some(s@.take(k as int).filter(pred)[0]),
        decreases s@.len() - k,
    {
        let x = s[k];
        proof {
            reveal(Seq::filter);
            assert(s@.take(k + 1).drop_last() =~= s@.take(k as int));
            assert(s@.take(k + 1).last() == x);
        }
        if body.instructions[x.0 as usize].jump_target().is_some() {
            if count == 0 {
                first = Some(x);
            }
            count = count + 1;
        }
        k += 1;
    }
    assert(s@.take(k as int) =~= s@);
    if count == 1 {
        first
    } else {
        None
    }
}

/// The phi of block `m` when it is a return merge.
fn return_merge_phi(body: &Body, m: usize) -> (r: Option<InstId>)
    requires
        body_wf(*body),
        m < body.blocks@.len(),
    ensures
        r is Some <==> is_return_merge(*body, m as int),
        r matches Some(x) ==> x == merge_phi(*body, m as int),
{
    let s = &body.blocks[m].stream;
    if s.len() != 2 {
        return None;
    }
    let phi = s[0];
    let jmp = s[1];
    if !matches!(&body.instructions[phi.0 as usize], Inst::Phi(_)) {
        return None;
    }
    match &body.instructions[jmp.0 as usize] {
        Inst::Jump { target } => {
            proof {
                assert(successors(body.instructions@[jmp.0 as int])[0] == *target);
            }
            let rs = &body.blocks[target.0 as usize].stream;
            if rs.len() != 1 {
                return None;
            }
            match &body.instructions[rs[0].0 as usize] {
                Inst::Return(v) => {
                    if *v == phi {
                        Some(phi)
                    } else {
                        None
                    }
                },
                _ => None,
            }
        },
        _ => None,
    }
}

/// [`sink_of`] for block `p`.
fn sink_of_block(body: &Body, p: usize) -> (r: Option<(usize, InstId)>)
    requires
        body_wf(*body),
        p < body.blocks@.len(),
    ensures
        match (r, sink_of(*body, p as int)) {
            (Some((m, e)), Some((m2, e2))) => m == m2 && e == e2 && m < body.blocks@.len(),
            (None, None) => true,
            _ => false,
        },
{
    match sole_jump(body, p) {
        Some(e) => {
            proof {
                let pred = |x: InstId| jump_target_of(body.instructions@[x.0 as int]) is Some;
                lemma_filter_has(body.blocks@[p as int].stream@, pred, 0);
                let k = choose|k: int|
                    0 <= k < body.blocks@[p as int].stream@.len() && body.blocks@[p as int].stream@[k] == e;
                assert(body.blocks@[p as int].stream@[k].0 < body.instructions@.len());
            }
            match &body.instructions[e.0 as usize] {
                Inst::Jump { target } => {
                    proof {
                        assert(successors(body.instructions@[e.0 as int])[0] == *target);
                    }
                    match return_merge_phi(body, target.0 as usize) {
                        Some(_) => Some((target.0 as usize, e)),
                        None => None,
                    }
                },
                _ => None,
            }
        },
        None => None,
    }
}

/// `sinks` holds [`sink_of`] of every block of `b`.
pub open spec fn sinks_agree(b: Body, sinks: Seq<Option<(usize, InstId)>>) -> bool {
    &&& sinks.len() == b.blocks@.len()
    &&& forall|p: int|
        0 <= p < sinks.len() ==> match (#[trigger] sinks[p], sink_of(b, p)) {
            (Some((m1, e1)), Some((m2, e2))) => m1 == m2 && e1 == e2 && m1 < sinks.len(),
            (None, None) => true,
            _ => false,
        }
}

/// The merge that block `p` returns directly instead of jumping into.
pub open spec fn sink_merge(b: Body, p: int) -> int {
    match sink_of(b, p) {
        Some((m, _)) => m,
        None => 0,
    }
}

/// The first entry of `bs` from block `p`.
fn first_from_index(bs: &Vec<(BlockId, InstId)>, p: BlockId) -> (r: Option<usize>)
    ensures
        r matches Some(k) ==> first_from(bs@, p, k as int),
        r is None <==> !has_from(bs@, p),
{
    let mut k: usize = 0;
    while k < bs.len()
        invariant
            k <= bs@.len(),
            forall|j: int| 0 <= j < k ==> (#[trigger] bs@[j]).0 != p,
        decreases bs@.len() - k,
    {
        if bs[k].0 == p {
            return Some(k);
        }
        k += 1;
    }
    None
}

/// The branches of return merge `m`'s phi that stay, given [`sink_of`] of every block.
fn kept_of(m: usize, bs: &Vec<(BlockId, InstId)>, sinks: &Vec<Option<(usize, InstId)>>, Ghost(b): Ghost<Body>) -> (v: Vec<
    (BlockId, InstId),
>)
    requires
        sinks_agree(b, sinks@),
    ensures
        v@ == kept_branches(b, m as int, bs@),
{
    let mut v: Vec<(BlockId, InstId)> = Vec::new();
    let mut k: usize = 0;
    while k < bs.len()
        invariant
            k <= bs@.len(),
            sinks_agree(b, sinks@),
            v@ == kept_branches(b, m as int, bs@.take(k as int)),
        decreases bs@.len() - k,
    {
        let entry = bs[k];
        let p = entry.0;
        let mut seen = false;
        let mut j: usize = 0;
        while j < k
            invariant
                j <= k < bs@.len(),
                seen == exists|jj: int| 0 <= jj < j && (#[trigger] bs@[jj]).0 == p,
            decreases k - j,
        {
            if bs[j].0 == p {
                seen = true;
            }
            j += 1;
        }
        let into = if (p.0 as usize) < sinks.len() {
            match sinks[p.0 as usize] {
                Some((m2, _)) => m2 == m,
                None => false,
            }
        } else {
            false
        };
        proof {
            let pre = bs@.take(k + 1);
            assert(pre.drop_last() =~= bs@.take(k as int));
            assert(pre.last() == entry);
            assert(seen == has_from(pre.drop_last(), p)) by {
                if seen {
                    let jj = choose|jj: int| 0 <= jj < k && (#[trigger] bs@[jj]).0 == p;
                    assert(pre.drop_last()[jj] == bs@[jj]);
                }
                if has_from(pre.drop_last(), p) {
                    let jj = choose|jj: int| 0 <= jj < pre.drop_last().len() && (#[trigger] pre.drop_last()[jj]).0 == p;
                    assert(bs@[jj] == pre.drop_last()[jj]);
                }
            }
            assert(into == sinks_into(b, p.0 as int, m as int));
        }
        if !(into && !seen) {
            v.push(entry);
        }
        k += 1;
    }
    assert(bs@.take(k as int) =~= bs@);
    v
}

/// Everything [`kept_branches`] keeps is an entry of `bs`.
proof fn lemma_kept_from(b: Body, m: int, bs: Seq<(BlockId, InstId)>, k: int)
    requires
        0 <= k < kept_branches(b, m, bs).len(),
    ensures
        bs.contains(kept_branches(b, m, bs)[k]),
    decreases bs.len(),
{
    let rest = kept_branches(b, m, bs.drop_last());
    if k < rest.len() {
        lemma_kept_from(b, m, bs.drop_last(), k);
        let j = choose|j: int| 0 <= j < bs.drop_last().len() && bs.drop_last()[j] == rest[k];
        assert(bs[j] == rest[k]);
    } else {
        assert(bs[bs.len() - 1] == kept_branches(b, m, bs)[k]);
    }
}

/// Sinks returns into the blocks that feed a merge which only returns its phi: a block whose one
/// jump is an unconditional jump into such a merge returns its phi entry's value itself, and the
/// phi drops that entry. Returns whether a jump was replaced.
pub fn sink_returns(body: &mut Body) -> (modified: bool)
    requires
        body_wf(*old(body)),
        placed_once(*old(body)),
    ensures
        body_wf(*final(body)),
        placed_once(*old(body)) ==> placed_once(*final(body)),
        sink_returns_step(*old(body), *final(body), modified),
{
    proof {
        reveal(sink_returns_step);
    }
    let ghost before = *body;
    let n = body.blocks.len();
    let mut sinks: Vec<Option<(usize, InstId)>> = Vec::new();
    let mut phis: Vec<Option<InstId>> = Vec::new();
    let mut p: usize = 0;
    while p < n
        invariant
            *body == before,
            body_wf(before),
            n == before.blocks@.len(),
            p <= n,
            sinks@.len() == p,
            phis@.len() == p,
            forall|q: int|
                0 <= q < p ==> match (#[trigger] sinks@[q], sink_of(before, q)) {
                    (Some((m1, e1)), Some((m2, e2))) => m1 == m2 && e1 == e2 && m1 < n,
                    (None, None) => true,
                    _ => false,
                },
            forall|q: int|
                0 <= q < p ==> (#[trigger] phis@[q] is Some <==> is_return_merge(before, q)) && (
                phis@[q] matches Some(x) ==> x == merge_phi(before, q)),
        decreases n - p,
    {
        sinks.push(sink_of_block(body, p));
        phis.push(return_merge_phi(body, p));
        p += 1;
    }
    assert(sinks_agree(before, sinks@));
    let mut modified = false;
    let mut p: usize = 0;
    while p < n
        invariant
            body_wf(before),
            placed_once(before),
            n == before.blocks@.len(),
            sinks_agree(before, sinks@),
            body.blocks == before.blocks,
            body.instructions@.len() == before.instructions@.len(),
            body.params == before.params,
            body.captures == before.captures,
            body.current_block == before.current_block,
            body.loop_stack == before.loop_stack,
            body.locs == before.locs,
            body.artifacts == before.artifacts,
            p <= n,
            forall|q: int|
                0 <= q < p && #[trigger] sink_of(before, q) is Some ==> edge_after(
                    before,
                    q,
                    body.instructions@[sink_jump(before, q).0 as int],
                ),
            forall|i: int|
                0 <= i < before.instructions@.len() && !(exists|q: int|
                    0 <= q < p && #[trigger] sink_edge(before, q) == Some(i)) ==> #[trigger] body.instructions@[i]
                    == before.instructions@[i],
            modified == exists|q: int| 0 <= q < p && #[trigger] sinks_now(before, q),
            !modified ==> *body == before,
        decreases n - p,
    {
        let ghost prev = body.instructions@;
        let ghost was = modified;
        assert(sinks@[p as int] matches Some(_) <==> sink_of(before, p as int) is Some);
        match sinks[p] {
            Some((m, e)) => {
                proof {
                    lemma_sink_edge_facts(before, p as int);
                    assert(e == sink_jump(before, p as int));
                    assert(m == sink_merge(before, p as int));
                    assert forall|q: int| 0 <= q < p implies #[trigger] sink_edge(before, q) != Some(e.0 as int) by {
                        if sink_of(before, q) is Some {
                            lemma_sink_edges_apart(before, q, p as int, m as int);
                        }
                    }
                    assert(body.instructions@[e.0 as int] == before.instructions@[e.0 as int]);
                    lemma_sink_edges_apart(before, p as int, p as int, m as int);
                    assert forall|q: int| 0 <= q < p implies #[trigger] sink_edge(before, q) != Some(
                        merge_phi(before, m as int).0 as int,
                    ) by {
                        if sink_of(before, q) is Some {
                            lemma_sink_edges_apart(before, q, p as int, m as int);
                        }
                    }
                }
                let phi = body.blocks[m].stream[0];
                let ghost bs = phi_branches(before.instructions@[phi.0 as int]);
                assert(body.instructions@[phi.0 as int] == before.instructions@[phi.0 as int]);
                let found = match &body.instructions[phi.0 as usize] {
                    Inst::Phi(v) => match first_from_index(v, BlockId(p as u32)) {
                        Some(k) => {
                            assert(v@ == bs);
                            Some(v[k].1)
                        },
                        None => None,
                    },
                    _ => None,
                };
                proof {
                    assert forall|k1: int, k2: int|
                        #[trigger] first_from(bs, BlockId(p as u32), k1) && #[trigger] first_from(bs, BlockId(p as u32), k2) implies k1 == k2 by {
                        if k1 < k2 {
                            assert(bs[k1].0 != BlockId(p as u32));
                        } else if k2 < k1 {
                            assert(bs[k2].0 != BlockId(p as u32));
                        }
                    }
                    assert(found matches Some(v) ==> exists|k: int| first_from(bs, BlockId(p as u32), k) && v == bs[k].1);
                    assert(found is Some <==> sinks_now(before, p as int));
                }
                match found {
                    Some(v) => {
                        body.instructions.set(e.0 as usize, Inst::Return(v));
                        modified = true;
                    },
                    None => {},
                }
                proof {
                    assert(edge_after(before, p as int, body.instructions@[e.0 as int]));
                    assert forall|q: int| 0 <= q < p && #[trigger] sink_of(before, q) is Some implies sink_jump(before, q) != e by {
                        lemma_sink_edges_apart(before, q, p as int, m as int);
                    }
                }
            },
            None => {
                assert(!sinks_now(before, p as int));
            },
        }
        assert(forall|i: int|
            0 <= i < body.instructions@.len() && sink_edge(before, p as int) != Some(i) ==> #[trigger] body.instructions@[i]
                == prev[i]);
        proof {
            assert forall|q: int|
                0 <= q < p + 1 && #[trigger] sink_of(before, q) is Some implies edge_after(
                before,
                q,
                body.instructions@[sink_jump(before, q).0 as int],
            ) by {
                if q < p {
                    lemma_sink_edge_facts(before, q);
                    if sink_of(before, p as int) is Some {
                        lemma_sink_edges_apart(before, q, p as int, 0);
                    }
                    assert(body.instructions@[sink_jump(before, q).0 as int] == prev[sink_jump(before, q).0 as int]);
                    assert(edge_after(before, q, prev[sink_jump(before, q).0 as int]));
                }
            }
            assert forall|i: int|
                0 <= i < before.instructions@.len() && !(exists|q: int|
                    0 <= q < p + 1 && #[trigger] sink_edge(before, q) == Some(i)) implies #[trigger] body.instructions@[i]
                == before.instructions@[i] by {
                assert(!(exists|q: int| 0 <= q < p && #[trigger] sink_edge(before, q) == Some(i))) by {
                    if exists|q: int| 0 <= q < p && #[trigger] sink_edge(before, q) == Some(i) {
                        let q = choose|q: int| 0 <= q < p && #[trigger] sink_edge(before, q) == Some(i);
                        assert(0 <= q < p + 1 && sink_edge(before, q) == Some(i));
                    }
                }
                assert(sink_edge(before, p as int) != Some(i));
            }
            assert(modified == exists|q: int| 0 <= q < p + 1 && #[trigger] sinks_now(before, q)) by {
                if exists|q: int| 0 <= q < p + 1 && #[trigger] sinks_now(before, q) {
                    let q = choose|q: int| 0 <= q < p + 1 && #[trigger] sinks_now(before, q);
                    if q < p {
                        assert(exists|q2: int| 0 <= q2 < p && #[trigger] sinks_now(before, q2));
                    }
                }
                if was {
                    let q = choose|q: int| 0 <= q < p && #[trigger] sinks_now(before, q);
                    assert(0 <= q < p + 1 && sinks_now(before, q));
                }
            }
        }
        p += 1;
    }
    let ghost mid = body.instructions@;
    proof {
        assert forall|q: int| 0 <= q < n && #[trigger] is_return_merge(before, q) implies mid[merge_phi(before, q).0 as int]
            == before.instructions@[merge_phi(before, q).0 as int] by {
            assert forall|pp: int| 0 <= pp < n implies #[trigger] sink_edge(before, pp) != Some(merge_phi(before, q).0 as int) by {
                if sink_of(before, pp) is Some {
                    lemma_sink_edges_apart(before, pp, pp, q);
                }
            }
        }
    }
    let mut m: usize = 0;
    while m < n
        invariant
            body_wf(before),
            placed_once(before),
            n == before.blocks@.len(),
            sinks_agree(before, sinks@),
            phis@.len() == n,
            forall|q: int|
                0 <= q < n ==> (#[trigger] phis@[q] is Some <==> is_return_merge(before, q)) && (
                phis@[q] matches Some(x) ==> x == merge_phi(before, q)),
            body.blocks == before.blocks,
            body.instructions@.len() == before.instructions@.len(),
            body.params == before.params,
            body.captures == before.captures,
            body.current_block == before.current_block,
            body.loop_stack == before.loop_stack,
            body.locs == before.locs,
            body.artifacts == before.artifacts,
            m <= n,
            modified == exists|q: int| 0 <= q < n && #[trigger] sinks_now(before, q),
            !modified ==> *body == before,
            forall|q: int|
                0 <= q < m && #[trigger] is_return_merge(before, q) ==> {
                    let phi = merge_phi(before, q).0 as int;
                    &&& body.instructions@[phi] is Phi
                    &&& phi_branches(body.instructions@[phi]) == kept_branches(
                        before,
                        q,
                        phi_branches(before.instructions@[phi]),
                    )
                },
            forall|i: int|
                0 <= i < before.instructions@.len() && !(exists|q: int|
                    0 <= q < m && #[trigger] is_return_merge(before, q) && merge_phi(before, q).0 == i)
                    ==> #[trigger] body.instructions@[i] == mid[i],
            forall|q: int|
                0 <= q < n && #[trigger] is_return_merge(before, q) ==> mid[merge_phi(before, q).0 as int]
                    == before.instructions@[merge_phi(before, q).0 as int],
        decreases n - m,
    {
        let ghost prev = body.instructions@;
        match phis[m] {
            Some(phi) => {
                proof {
                    assert(before.blocks@[m as int].stream@[0].0 < before.instructions@.len());
                    assert forall|q: int| 0 <= q < m && #[trigger] is_return_merge(before, q) implies merge_phi(before, q).0 != phi.0 by {
                        lemma_merge_phis_apart(before, q, m as int);
                    }
                    assert(body.instructions@[phi.0 as int] == before.instructions@[phi.0 as int]);
                }
                let ghost bs = phi_branches(before.instructions@[phi.0 as int]);
                let kept = match &body.instructions[phi.0 as usize] {
                    Inst::Phi(v) => kept_of(m, v, &sinks, Ghost(before)),
                    _ => Vec::new(),
                };
                proof {
                    assert(kept@ == kept_branches(before, m as int, bs));
                    assert forall|k: int| 0 <= k < kept@.len() implies (#[trigger] kept@[k]).1.0 < before.instructions@.len() by {
                        lemma_kept_from(before, m as int, bs, k);
                        let j = choose|j: int| 0 <= j < bs.len() && bs[j] == kept@[k];
                        assert(operands(before.instructions@[phi.0 as int])[j] == bs[j].1);
                    }
                }
                if modified {
                    body.instructions.set(phi.0 as usize, Inst::Phi(kept));
                } else {
                    proof {
                        lemma_kept_all(before, m as int, bs, bs);
                    }
                }
                proof {
                    assert forall|q: int|
                        0 <= q < m + 1 && #[trigger] is_return_merge(before, q) implies ({
                        let ph = merge_phi(before, q).0 as int;
                        &&& body.instructions@[ph] is Phi
                        &&& phi_branches(body.instructions@[ph]) == kept_branches(before, q, phi_branches(before.instructions@[ph]))
                    }) by {
                        if q < m {
                            lemma_merge_phis_apart(before, q, m as int);
                        }
                    }
                }
            },
            None => {},
        }
        proof {
            assert forall|i: int|
                0 <= i < before.instructions@.len() && !(exists|q: int|
                    0 <= q < m + 1 && #[trigger] is_return_merge(before, q) && merge_phi(before, q).0 == i)
                    implies #[trigger] body.instructions@[i] == mid[i] by {
                if exists|q: int| 0 <= q < m && #[trigger] is_return_merge(before, q) && merge_phi(before, q).0 == i {
                    let q = choose|q: int| 0 <= q < m && #[trigger] is_return_merge(before, q) && merge_phi(before, q).0 == i;
                    assert(0 <= q < m + 1 && is_return_merge(before, q) && merge_phi(before, q).0 == i);
                }
            }
        }
        m += 1;
    }
    proof {
        assert forall|q: int|
            0 <= q < n && #[trigger] sink_of(before, q) is Some implies edge_after(
            before,
            q,
            body.instructions@[sink_jump(before, q).0 as int],
        ) by {
            lemma_sink_edge_facts(before, q);
            let e = sink_jump(before, q).0 as int;
            assert(!(exists|mm: int| 0 <= mm < n && #[trigger] is_return_merge(before, mm) && merge_phi(before, mm).0 == e)) by {
                if exists|mm: int| 0 <= mm < n && #[trigger] is_return_merge(before, mm) && merge_phi(before, mm).0 == e {
                    let mm = choose|mm: int| 0 <= mm < n && #[trigger] is_return_merge(before, mm) && merge_phi(before, mm).0 == e;
                    lemma_sink_edges_apart(before, q, q, mm);
                }
            }
        }
        assert forall|i: int|
            0 <= i < before.instructions@.len() && !#[trigger] sink_touches(before, i) implies body.instructions@[i]
            == before.instructions@[i] by {
            assert(!(exists|q: int| 0 <= q < n && #[trigger] sink_edge(before, q) == Some(i)));
            assert(!(exists|q: int| 0 <= q < n && #[trigger] is_return_merge(before, q) && merge_phi(before, q).0 == i));
        }
        assert forall|ii: int|
            0 <= ii < body.instructions@.len() && sink_touches(before, ii) implies successors(
            #[trigger] body.instructions@[ii]).len() == 0 || body.instructions@[ii] == before.instructions@[ii] by {
            if exists|q: int| 0 <= q < n && #[trigger] sink_edge(before, q) == Some(ii) {
                let q = choose|q: int| 0 <= q < n && #[trigger] sink_edge(before, q) == Some(ii);
                lemma_sink_edge_facts(before, q);
                let mq = sink_merge(before, q);
                let bs = phi_branches(before.instructions@[merge_phi(before, mq).0 as int]);
                if has_from(bs, BlockId(q as u32)) {
                    let j = choose|j: int| 0 <= j < bs.len() && (#[trigger] bs[j]).0 == BlockId(q as u32);
                    let j0 = lemma_first_exists(bs, BlockId(q as u32), j);
                    assert(first_from(bs, BlockId(q as u32), j0));
                }
            } else {
                let mm = choose|mm: int| 0 <= mm < n && #[trigger] is_return_merge(before, mm) && merge_phi(before, mm).0 == ii;
                assert(body.instructions@[ii] is Phi);
            }
        }
        assert forall|ii: int, k: int|
            0 <= ii < body.instructions@.len() && 0 <= k < successors(body.instructions@[ii]).len() implies (
            #[trigger] successors(body.instructions@[ii])[k]).0 < body.blocks@.len() by {
            assert(successors(before.instructions@[ii]).len() > k ==> successors(before.instructions@[ii])[k].0
                < before.blocks@.len());
        }
        assert forall|ii: int, k: int|
            0 <= ii < body.instructions@.len() && 0 <= k < operands(body.instructions@[ii]).len() implies (
            #[trigger] operands(body.instructions@[ii])[k]).0 < body.instructions@.len() by {
            if !sink_touches(before, ii) {
                assert(operands(before.instructions@[ii])[k].0 < before.instructions@.len());
            } else if exists|q: int| 0 <= q < n && #[trigger] sink_edge(before, q) == Some(ii) {
                let q = choose|q: int| 0 <= q < n && #[trigger] sink_edge(before, q) == Some(ii);
                lemma_sink_edge_facts(before, q);
                let mq = sink_merge(before, q);
                let phi = merge_phi(before, mq).0 as int;
                let bs = phi_branches(before.instructions@[phi]);
                if has_from(bs, BlockId(q as u32)) {
                    let j = choose|j: int| 0 <= j < bs.len() && (#[trigger] bs[j]).0 == BlockId(q as u32);
                    let j0 = lemma_first_exists(bs, BlockId(q as u32), j);
                    assert(operands(before.instructions@[phi])[j0] == bs[j0].1);
                    assert(body.instructions@[ii] == Inst::Return(bs[j0].1));
                } else {
                    assert(operands(before.instructions@[ii])[k].0 < before.instructions@.len());
                }
            } else {
                let mm = choose|mm: int| 0 <= mm < n && #[trigger] is_return_merge(before, mm) && merge_phi(before, mm).0 == ii;
                let bs = phi_branches(before.instructions@[ii]);
                let kept = phi_branches(body.instructions@[ii]);
                assert(operands(body.instructions@[ii]) == kept.map_values(|b: (BlockId, InstId)| b.1));
                lemma_kept_from(before, mm, bs, k);
                let j = choose|j: int| 0 <= j < bs.len() && bs[j] == kept[k];
                assert(operands(before.instructions@[ii])[j] == bs[j].1);
            }
        }
    }
    modified
}

/// When `bs` has an entry from `p` at `j`, it has a first one, at or before `j`.
proof fn lemma_first_exists(bs: Seq<(BlockId, InstId)>, p: BlockId, j: int) -> (k: int)
    requires
        0 <= j < bs.len(),
        bs[j].0 == p,
    ensures
        first_from(bs, p, k),
        k <= j,
    decreases j,
{
    if exists|i: int| 0 <= i < j && (#[trigger] bs[i]).0 == p {
        let i = choose|i: int| 0 <= i < j && (#[trigger] bs[i]).0 == p;
        lemma_first_exists(bs, p, i)
    } else {
        j
    }
}

/// How many single-target jumps of block `p` go to `t`.
pub open spec fn jumps_to_count(b: Body, p: int, t: BlockId) -> nat {
    b.blocks@[p].stream@.filter(|x: InstId| jump_target_of(b.instructions@[x.0 as int]) == Some(t)).len()
}

/// The blocks among the first `j` that jump to `t`, once per such jump, in block order.
pub open spec fn preds_upto(b: Body, t: BlockId, j: int) -> Seq<BlockId>
    decreases j,
{
    if j <= 0 {
        Seq::empty()
    } else {
        preds_upto(b, t, j - 1) + Seq::new(jumps_to_count(b, j - 1, t), |_i: int| BlockId((j - 1) as u32))
    }
}

/// The blocks that jump to `t`, once per such jump, in block order.
pub open spec fn preds(b: Body, t: BlockId) -> Seq<BlockId> {
    preds_upto(b, t, b.blocks@.len() as int)
}

/// Some switch that a block runs names `c` as an arm or as its default.
pub open spec fn switch_target(b: Body, c: BlockId) -> bool {
    exists|bi: int, k: int|
        0 <= bi < b.blocks@.len() && 0 <= k < b.blocks@[bi].stream@.len() && switch_names(
            #[trigger] b.instructions@[b.blocks@[bi].stream@[k].0 as int],
            c,
        )
}

/// Instruction `i` is a switch naming `c`.
pub open spec fn switch_names(i: Inst, c: BlockId) -> bool {
    match i {
        Inst::Switch { table, default, .. } => table@.contains(c) || default == c,
        _ => false,
    }
}

/// Instruction `i` reaches `bid` by a conditional jump or a loop step.
pub open spec fn conditional_to(i: Inst, bid: BlockId) -> bool {
    match i {
        Inst::JumpIfFalse { target, .. } => target == bid,
        Inst::ForNext { target, .. } => target == bid,
        _ => false,
    }
}

/// Predecessor `p` of forwarder `bid` (which jumps to `t`) rules out folding the forwarder: it
/// already jumps to `t`, reaches `bid` conditionally, or is a forwarder itself.
pub open spec fn risky_pred(b: Body, p: int, bid: BlockId, t: BlockId) -> bool {
    ||| forwarder(b, p) is Some
    ||| exists|k: int|
        0 <= k < b.blocks@[p].stream@.len() && {
            let i = #[trigger] b.instructions@[b.blocks@[p].stream@[k].0 as int];
            jump_target_of(i) == Some(t) || conditional_to(i, bid)
        }
}

/// Forwarder `bid` is folded into the phi block it jumps to: no switch names it, its target
/// opens with a phi, and none of its predecessors is risky.
pub open spec fn planned(b: Body, bid: int) -> bool {
    match forwarder(b, bid) {
        Some(t) => !switch_target(b, BlockId(bid as u32)) && opens_with_phi(b, t.0 as int) && !exists|j: int|
            0 <= j < preds(b, BlockId(bid as u32)).len() && risky_pred(
                b,
                (#[trigger] preds(b, BlockId(bid as u32))[j]).0 as int,
                BlockId(bid as u32),
                t,
            ),
        None => false,
    }
}

/// The first entry of `bs` from `bid`, when there is one.
pub open spec fn first_index(bs: Seq<(BlockId, InstId)>, bid: BlockId) -> int {
    choose|k: int| first_from(bs, bid, k)
}

/// A phi's branches after forwarder `bid` is folded away: its entry from `bid` gives way to one
/// entry per predecessor `ps` of `bid`, carrying the same value.
pub open spec fn rethread(bs: Seq<(BlockId, InstId)>, bid: BlockId, ps: Seq<BlockId>) -> Seq<(BlockId, InstId)> {
    if has_from(bs, bid) {
        let k = first_index(bs, bid);
        bs.remove(k) + ps.map_values(|p: BlockId| (p, bs[k].1))
    } else {
        bs
    }
}

/// The branches of a phi in block `t` after the planned forwarders among the first `j` blocks
/// that jump to `t` are folded, in block order.
pub open spec fn phis_upto(b: Body, t: int, bs: Seq<(BlockId, InstId)>, j: int) -> Seq<(BlockId, InstId)>
    decreases j,
{
    if j <= 0 {
        bs
    } else {
        let prev = phis_upto(b, t, bs, j - 1);
        if planned(b, j - 1) && forwarder(b, j - 1) == Some(BlockId(t as u32)) {
            rethread(prev, BlockId((j - 1) as u32), preds(b, BlockId((j - 1) as u32)))
        } else {
            prev
        }
    }
}

/// An instruction with its single jump target replaced by `to`.
pub open spec fn redirected(i: Inst, to: BlockId) -> Inst {
    match i {
        Inst::Jump { .. } => Inst::Jump { target: to },
        Inst::JumpIfFalse { condition, .. } => Inst::JumpIfFalse { condition, target: to },
        Inst::ForNext { idx, bound, .. } => Inst::ForNext { idx, bound, target: to },
        _ => i,
    }
}

/// Instruction `i` is run by block `bi`.
pub open spec fn in_block(b: Body, bi: int, i: int) -> bool {
    exists|k: int| 0 <= k < b.blocks@[bi].stream@.len() && (#[trigger] b.blocks@[bi].stream@[k]).0 == i
}

/// Instruction `i` is run by some block.
pub open spec fn in_some_block(b: Body, i: int) -> bool {
    exists|bi: int| 0 <= bi < b.blocks@.len() && #[trigger] in_block(b, bi, i)
}

/// The predecessors of `t`, once per jump, in block order.
fn preds_of(body: &Body, t: BlockId) -> (v: Vec<BlockId>)
    requires
        body_wf(*body),
    ensures
        v@ == preds(*body, t),
{
    let n = body.blocks.len();
    let mut v: Vec<BlockId> = Vec::new();
    let mut p: usize = 0;
    while p < n
        invariant
            body_wf(*body),
            n == body.blocks@.len(),
            p <= n,
            v@ == preds_upto(*body, t, p as int),
        decreases n - p,
    {
        let ghost pred = |x: InstId| jump_target_of(body.instructions@[x.0 as int]) == Some(t);
        let ghost v0 = v@;
        let s = &body.blocks[p].stream;
        let mut k: usize = 0;
        while k < s.len()
            invariant
                body_wf(*body),
                p < n == body.blocks@.len(),
                *s == body.blocks@[p as int].stream,
                pred == (|x: InstId| jump_target_of(body.instructions@[x.0 as int]) == Some(t)),
                k <= s@.len(),
                v@ == v0 + Seq::new(s@.take(k as int).filter(pred).len(), |_i: int| BlockId(p as u32)),
            decreases s@.len() - k,
        {
            let x = s[k];
            proof {
                reveal(Seq::filter);
                assert(s@.take(k + 1).drop_last() =~= s@.take(k as int));
                assert(s@.take(k + 1).last() == x);
            }
            let hit = match body.instructions[x.0 as usize].jump_target() {
                Some(y) => y == t,
                None => false,
            };
            if hit {
                v.push(BlockId(p as u32));
            }
            proof {
                assert(v@ =~= v0 + Seq::new(s@.take(k + 1).filter(pred).len(), |_i: int| BlockId(p as u32)));
            }
            k += 1;
        }
        proof {
            assert(s@.take(k as int) =~= s@);
            assert(v@ =~= preds_upto(*body, t, p + 1));
        }
        p += 1;
    }
    v
}

/// Every predecessor among the first `j` blocks is one of them.
proof fn lemma_preds_range(b: Body, t: BlockId, j: int)
    requires
        body_wf(b),
        0 <= j <= b.blocks@.len(),
    ensures
        forall|k: int| 0 <= k < preds_upto(b, t, j).len() ==> (#[trigger] preds_upto(b, t, j)[k]).0 < j,
    decreases j,
{
    if j > 0 {
        lemma_preds_range(b, t, j - 1);
        let prev = preds_upto(b, t, j - 1);
        assert forall|k: int| 0 <= k < preds_upto(b, t, j).len() implies (#[trigger] preds_upto(b, t, j)[k]).0 < j by {
            if k < prev.len() {
                assert(preds_upto(b, t, j)[k] == prev[k]);
            }
        }
    }
}

/// Whether some switch that a block runs names `c`.
fn is_switch_target(body: &Body, c: BlockId) -> (r: bool)
    requires
        body_wf(*body),
    ensures
        r == switch_target(*body, c),
{
    let mut bi: usize = 0;
    while bi < body.blocks.len()
        invariant
            body_wf(*body),
            bi <= body.blocks@.len(),
            forall|b2: int, k: int|
                0 <= b2 < bi && 0 <= k < body.blocks@[b2].stream@.len() ==> !switch_names(
                    #[trigger] body.instructions@[body.blocks@[b2].stream@[k].0 as int],
                    c,
                ),
        decreases body.blocks@.len() - bi,
    {
        let s = &body.blocks[bi].stream;
        let mut k: usize = 0;
        while k < s.len()
            invariant
                body_wf(*body),
                bi < body.blocks@.len(),
                *s == body.blocks@[bi as int].stream,
                k <= s@.len(),
                forall|k2: int| 0 <= k2 < k ==> !switch_names(#[trigger] body.instructions@[s@[k2].0 as int], c),
            decreases s@.len() - k,
        {
            match &body.instructions[s[k].0 as usize] {
                Inst::Switch { table, default, .. } => {
                    proof {
                        assert(s@[k as int] == body.blocks@[bi as int].stream@[k as int]);
                    }
                    if *default == c {
                        assert(switch_names(body.instructions@[body.blocks@[bi as int].stream@[k as int].0 as int], c));
                        return true;
                    }
                    let mut t: usize = 0;
                    while t < table.len()
                        invariant
                            body_wf(*body),
                            bi < body.blocks@.len(),
                            k < s@.len(),
                            *s == body.blocks@[bi as int].stream,
                            forall|x: BlockId| table@.contains(x) ==> switch_names(body.instructions@[s@[k as int].0 as int], x),
                            t <= table@.len(),
                            forall|t2: int| 0 <= t2 < t ==> table@[t2] != c,
                        decreases table@.len() - t,
                    {
                        if table[t] == c {
                            assert(table@[t as int] == c);
                            assert(table@.contains(c));
                            assert(switch_names(body.instructions@[body.blocks@[bi as int].stream@[k as int].0 as int], c));
                            return true;
                        }
                        t += 1;
                    }
                },
                _ => {},
            }
            k += 1;
        }
        bi += 1;
    }
    false
}

/// Whether predecessor `p` of forwarder `bid`, which jumps to `t`, is risky.
fn is_risky_pred(body: &Body, p: usize, bid: BlockId, t: BlockId) -> (r: bool)
    requires
        body_wf(*body),
        p < body.blocks@.len(),
    ensures
        r == risky_pred(*body, p as int, bid, t),
{
    if forwarder_target(body, BlockId(p as u32)).is_some() {
        return true;
    }
    let s = &body.blocks[p].stream;
    let mut k: usize = 0;
    while k < s.len()
        invariant
            body_wf(*body),
            p < body.blocks@.len(),
            *s == body.blocks@[p as int].stream,
            forwarder(*body, p as int) is None,
            k <= s@.len(),
            forall|k2: int| 0 <= k2 < k ==> {
                let i = #[trigger] body.instructions@[s@[k2].0 as int];
                !(jump_target_of(i) == Some(t) || conditional_to(i, bid))
            },
        decreases s@.len() - k,
    {
        let inst = &body.instructions[s[k].0 as usize];
        let jt = match inst.jump_target() {
            Some(y) => y == t,
            None => false,
        };
        let cond = match inst {
            Inst::JumpIfFalse { target, .. } => *target == bid,
            Inst::ForNext { target, .. } => *target == bid,
            _ => false,
        };
        if jt || cond {
            return true;
        }
        k += 1;
    }
    false
}

/// Where forwarder `bid` goes when it is [`planned`] to be folded.
fn plan_entry(body: &Body, bi: usize) -> (r: Option<BlockId>)
    requires
        body_wf(*body),
        bi < body.blocks@.len(),
    ensures
        r == (if planned(*body, bi as int) {
            forwarder(*body, bi as int)
        } else {
            None
        }),
        r matches Some(t) ==> t.0 < body.blocks@.len(),
{
    let bid = BlockId(bi as u32);
    let t = match forwarder_target(body, bid) {
        Some(t) => t,
        None => return None,
    };
    if is_switch_target(body, bid) {
        return None;
    }
    if !starts_with_phi(body, t) {
        return None;
    }
    let ps = preds_of(body, bid);
    proof {
        lemma_preds_range(*body, bid, body.blocks@.len() as int);
    }
    let mut j: usize = 0;
    while j < ps.len()
        invariant
            body_wf(*body),
            bi < body.blocks@.len(),
            bid == BlockId(bi as u32),
            forwarder(*body, bi as int) == Some(t),
            ps@ == preds(*body, bid),
            j <= ps@.len(),
            forall|j2: int| 0 <= j2 < j ==> !risky_pred(*body, (#[trigger] ps@[j2]).0 as int, bid, t),
            forall|j2: int| 0 <= j2 < ps@.len() ==> (#[trigger] ps@[j2]).0 < body.blocks@.len(),
        decreases ps@.len() - j,
    {
        if is_risky_pred(body, ps[j].0 as usize, bid, t) {
            assert(preds(*body, bid)[j as int] == ps@[j as int]);
            return None;
        }
        j += 1;
    }
    Some(t)
}

/// The entries of `bs` from `bid` replaced as [`rethread`] says.
fn rethread_branches(bs: &Vec<(BlockId, InstId)>, bid: BlockId, ps: &Vec<BlockId>) -> (v: Vec<(BlockId, InstId)>)
    ensures
        v@ == rethread(bs@, bid, ps@),
{
    let mut v: Vec<(BlockId, InstId)> = Vec::new();
    match first_from_index(bs, bid) {
        None => {
            let mut j: usize = 0;
            while j < bs.len()
                invariant
                    j <= bs@.len(),
                    v@ == bs@.take(j as int),
                decreases bs@.len() - j,
            {
                v.push(bs[j]);
                assert(bs@.take(j + 1) =~= bs@.take(j as int).push(bs@[j as int]));
                j += 1;
            }
            assert(bs@.take(j as int) =~= bs@);
            v
        },
        Some(k) => {
            proof {
                assert forall|k2: int| #[trigger] first_from(bs@, bid, k2) implies k2 == k by {
                    if k2 < k {
                        assert(bs@[k2].0 != bid);
                    } else if k < k2 {
                        assert(bs@[k as int].0 != bid);
                    }
                }
                assert(first_index(bs@, bid) == k);
            }
            let value = bs[k].1;
            let mut j: usize = 0;
            while j < bs.len()
                invariant
                    k < bs@.len(),
                    j <= bs@.len(),
                    v@ == bs@.remove(k as int).take(if j <= k { j as int } else { j - 1 }),
                decreases bs@.len() - j,
            {
                if j != k {
                    proof {
                        let r = bs@.remove(k as int);
                        let jj = if j < k { j as int } else { j - 1 };
                        assert(r[jj] == bs@[j as int]);
                        assert(r.take(jj + 1) =~= r.take(jj).push(r[jj]));
                    }
                    v.push(bs[j]);
                }
                j += 1;
            }
            assert(bs@.remove(k as int).take(bs@.len() - 1) =~= bs@.remove(k as int));
            let ghost base = v@;
            let mut q: usize = 0;
            while q < ps.len()
                invariant
                    q <= ps@.len(),
                    v@ == base + ps@.take(q as int).map_values(|p: BlockId| (p, value)),
                decreases ps@.len() - q,
            {
                v.push((ps[q], value));
                assert(ps@.take(q + 1).map_values(|p: BlockId| (p, value)) =~= ps@.take(q as int).map_values(
                    |p: BlockId| (p, value),
                ).push((ps@[q as int], value)));
                q += 1;
            }
            assert(ps@.take(q as int) =~= ps@);
            v
        },
    }
}

/// Where jumps of instruction `i` go after phi threading: the target of the planned forwarder
/// it jumps to, when it is run by some block.
pub open spec fn phi_redirect(b: Body, i: int) -> Option<BlockId> {
    if in_some_block(b, i) {
        match jump_target_of(b.instructions@[i]) {
            Some(bid) => if bid.0 < b.blocks@.len() && planned(b, bid.0 as int) {
                forwarder(b, bid.0 as int)
            } else {
                None
            },
            None => None,
        }
    } else {
        None
    }
}

/// For each instruction, the block that runs it, if any.
fn homes(body: &Body) -> (h: Vec<Option<usize>>)
    requires
        body_wf(*body),
        placed_once(*body),
    ensures
        h@.len() == body.instructions@.len(),
        forall|i: int| 0 <= i < h@.len() ==> (#[trigger] h@[i] matches Some(t) ==> t < body.blocks@.len() && in_block(*body, t as int, i)),
        forall|i: int, t: int| 0 <= i < h@.len() && 0 <= t < body.blocks@.len() && #[trigger] in_block(*body, t, i) ==> h@[i] == Some(t as usize),
{
    let n = body.instructions.len();
    let mut h: Vec<Option<usize>> = Vec::new();
    while h.len() < n
        invariant
            h@.len() <= n,
            forall|i: int| 0 <= i < h@.len() ==> h@[i] is None,
        decreases n - h@.len(),
    {
        h.push(None);
    }
    let mut bi: usize = 0;
    while bi < body.blocks.len()
        invariant
            body_wf(*body),
            placed_once(*body),
            n == body.instructions@.len(),
            h@.len() == n,
            bi <= body.blocks@.len(),
            forall|i: int| 0 <= i < n ==> (#[trigger] h@[i] matches Some(t) ==> t < bi && in_block(*body, t as int, i)),
            forall|b2: int, k: int|
                0 <= b2 < bi && 0 <= k < body.blocks@[b2].stream@.len() ==> h@[(#[trigger] body.blocks@[b2].stream@[k]).0 as int]
                    == Some(b2 as usize),
        decreases body.blocks@.len() - bi,
    {
        let s = &body.blocks[bi].stream;
        let mut k: usize = 0;
        while k < s.len()
            invariant
                body_wf(*body),
                placed_once(*body),
                n == body.instructions@.len(),
                h@.len() == n,
                bi < body.blocks@.len(),
                *s == body.blocks@[bi as int].stream,
                k <= s@.len(),
                forall|i: int| 0 <= i < n ==> (#[trigger] h@[i] matches Some(t) ==> t <= bi && in_block(*body, t as int, i)),
                forall|b2: int, k2: int|
                    0 <= b2 < bi && 0 <= k2 < body.blocks@[b2].stream@.len() ==> h@[(#[trigger] body.blocks@[b2].stream@[k2]).0 as int]
                        == Some(b2 as usize),
                forall|k2: int| 0 <= k2 < k ==> h@[(#[trigger] s@[k2]).0 as int] == Some(bi),
            decreases s@.len() - k,
        {
            let x = s[k];
            proof {
                assert(x.0 < n);
                assert forall|b2: int, k2: int|
                    0 <= b2 < bi && 0 <= k2 < body.blocks@[b2].stream@.len() implies (#[trigger] body.blocks@[b2].stream@[k2]) != x by {
                    assert(body.blocks@[b2].stream@[k2] != body.blocks@[bi as int].stream@[k as int]);
                }
                assert(in_block(*body, bi as int, x.0 as int)) by {
                    assert(body.blocks@[bi as int].stream@[k as int] == x);
                }
            }
            h.set(x.0 as usize, Some(bi));
            k += 1;
        }
        bi += 1;
    }
    proof {
        assert forall|i: int, t: int| 0 <= i < h@.len() && 0 <= t < body.blocks@.len() && #[trigger] in_block(*body, t, i) implies h@[i] == Some(t as usize) by {
            let k = choose|k: int| 0 <= k < body.blocks@[t].stream@.len() && (#[trigger] body.blocks@[t].stream@[k]).0 == i;
            assert(h@[body.blocks@[t].stream@[k].0 as int] == Some(t as usize));
        }
    }
    h
}

/// A phi's branches in block `t` once every planned forwarder jumping to `t` is folded.
fn fold_phi(
    bs: &Vec<(BlockId, InstId)>,
    t: usize,
    plan: &Vec<Option<BlockId>>,
    predss: &Vec<Vec<BlockId>>,
    Ghost(b): Ghost<Body>,
) -> (v: Vec<(BlockId, InstId)>)
    requires
        plan@.len() == b.blocks@.len(),
        predss@.len() == b.blocks@.len(),
        b.blocks@.len() <= u32::MAX,
        t < b.blocks@.len(),
        forall|c: int| 0 <= c < plan@.len() ==> #[trigger] plan@[c] == (if planned(b, c) {
            forwarder(b, c)
        } else {
            None
        }),
        forall|c: int| 0 <= c < predss@.len() && #[trigger] planned(b, c) ==> predss@[c]@ == preds(b, BlockId(c as u32)),
    ensures
        v@ == phis_upto(b, t as int, bs@, b.blocks@.len() as int),
{
    let mut cur = copy_branches(bs);
    let n = plan.len();
    let mut c: usize = 0;
    while c < n
        invariant
            n == plan@.len() == b.blocks@.len(),
            predss@.len() == b.blocks@.len(),
            b.blocks@.len() <= u32::MAX,
            t < b.blocks@.len(),
            forall|cc: int| 0 <= cc < plan@.len() ==> #[trigger] plan@[cc] == (if planned(b, cc) {
                forwarder(b, cc)
            } else {
                None
            }),
            forall|cc: int| 0 <= cc < predss@.len() && #[trigger] planned(b, cc) ==> predss@[cc]@ == preds(b, BlockId(cc as u32)),
            c <= n,
            cur@ == phis_upto(b, t as int, bs@, c as int),
        decreases n - c,
    {
        let hit = match plan[c] {
            Some(x) => x.0 as usize == t,
            None => false,
        };
        proof {
            assert(hit == (planned(b, c as int) && forwarder(b, c as int) == Some(BlockId(t as u32))));
        }
        if hit {
            cur = rethread_branches(&cur, BlockId(c as u32), &predss[c]);
        }
        c += 1;
    }
    cur
}

/// A copy of a phi's branches.
fn copy_branches(bs: &Vec<(BlockId, InstId)>) -> (v: Vec<(BlockId, InstId)>)
    ensures
        v@ == bs@,
{
    let mut v: Vec<(BlockId, InstId)> = Vec::new();
    let mut j: usize = 0;
    while j < bs.len()
        invariant
            j <= bs@.len(),
            v@ == bs@.take(j as int),
        decreases bs@.len() - j,
    {
        v.push(bs[j]);
        assert(bs@.take(j + 1) =~= bs@.take(j as int).push(bs@[j as int]));
        j += 1;
    }
    assert(bs@.take(j as int) =~= bs@);
    v
}
/// Folds forwarders into the phi blocks they jump to: each planned forwarder's predecessors jump
/// straight to its target, and the target's phis trade the forwarder's entry for one entry per
/// predecessor. Returns whether any forwarder was folded.
pub fn thread_phis(body: &mut Body) -> (modified: bool)
    requires
        body_wf(*old(body)),
        placed_once(*old(body)),
    ensures
        body_wf(*final(body)),
        placed_once(*old(body)) ==> placed_once(*final(body)),
        thread_phis_step(*old(body), *final(body), modified),
{
    proof {
        reveal(thread_phis_step);
    }
    let ghost before = *body;
    let n = body.blocks.len();
    let home = homes(body);
    let mut plan: Vec<Option<BlockId>> = Vec::new();
    let mut predss: Vec<Vec<BlockId>> = Vec::new();
    let mut modified = false;
    let mut c: usize = 0;
    while c < n
        invariant
            *body == before,
            body_wf(before),
            n == before.blocks@.len(),
            c <= n,
            plan@.len() == c,
            predss@.len() == c,
            forall|cc: int| 0 <= cc < c ==> #[trigger] plan@[cc] == (if planned(before, cc) {
                forwarder(before, cc)
            } else {
                None
            }),
            forall|cc: int| 0 <= cc < c ==> (#[trigger] plan@[cc] matches Some(t) ==> t.0 < n),
            forall|cc: int| 0 <= cc < c && #[trigger] planned(before, cc) ==> predss@[cc]@ == preds(before, BlockId(cc as u32)),
            modified == exists|cc: int| 0 <= cc < c && #[trigger] planned(before, cc),
        decreases n - c,
    {
        let e = plan_entry(body, c);
        let ps = if e.is_some() {
            preds_of(body, BlockId(c as u32))
        } else {
            Vec::new()
        };
        proof {
            if planned(before, c as int) {
                assert(forwarder(before, c as int) is Some);
            }
        }
        modified = modified || e.is_some();
        plan.push(e);
        predss.push(ps);
        c += 1;
    }
    let len = body.instructions.len();
    let mut i: usize = 0;
    while i < len
        invariant
            body_wf(before),
            placed_once(before),
            n == before.blocks@.len(),
            len == before.instructions@.len(),
            plan@.len() == n,
            predss@.len() == n,
            forall|cc: int| 0 <= cc < n ==> #[trigger] plan@[cc] == (if planned(before, cc) {
                forwarder(before, cc)
            } else {
                None
            }),
            forall|cc: int| 0 <= cc < n ==> (#[trigger] plan@[cc] matches Some(t) ==> t.0 < n),
            forall|cc: int| 0 <= cc < n && #[trigger] planned(before, cc) ==> predss@[cc]@ == preds(before, BlockId(cc as u32)),
            home@.len() == len,
            forall|ii: int| 0 <= ii < len ==> (#[trigger] home@[ii] matches Some(t) ==> t < n && in_block(before, t as int, ii)),
            forall|ii: int, t: int| 0 <= ii < len && 0 <= t < n && #[trigger] in_block(before, t, ii) ==> home@[ii] == Some(t as usize),
            body.blocks == before.blocks,
            body.instructions@.len() == len,
            body.params == before.params,
            body.captures == before.captures,
            body.current_block == before.current_block,
            body.loop_stack == before.loop_stack,
            body.locs == before.locs,
            body.artifacts == before.artifacts,
            i <= len,
            modified == exists|cc: int| 0 <= cc < n && #[trigger] planned(before, cc),
            !modified ==> *body == before,
            forall|j: int| i <= j < len ==> #[trigger] body.instructions@[j] == before.instructions@[j],
            forall|j: int| 0 <= j < i && #[trigger] phi_redirect(before, j) is Some ==> body.instructions@[j]
                == redirected(before.instructions@[j], phi_redirect(before, j)->0),
            forall|j: int, t: int|
                0 <= j < i && 0 <= t < n && #[trigger] in_block(before, t, j) && before.instructions@[j] is Phi
                    ==> body.instructions@[j] is Phi && phi_branches(body.instructions@[j]) == phis_upto(
                    before,
                    t,
                    phi_branches(before.instructions@[j]),
                    n as int,
                ),
            forall|j: int| 0 <= j < i && !in_some_block(before, j) ==> #[trigger] body.instructions@[j] == before.instructions@[j],
            forall|j: int|
                0 <= j < i && #[trigger] phi_redirect(before, j) is None && !(before.instructions@[j] is Phi)
                    ==> body.instructions@[j] == before.instructions@[j],
        decreases len - i,
    {
        proof {
            if in_some_block(before, i as int) {
                let t = choose|t: int| 0 <= t < n && #[trigger] in_block(before, t, i as int);
                assert(home@[i as int] == Some(t as usize));
            }
        }
        match home[i] {
            Some(t) => {
                proof {
                    assert(in_some_block(before, i as int));
                }
                let new_inst = match &body.instructions[i] {
                    Inst::Phi(bs) => Some(Inst::Phi(fold_phi(bs, t, &plan, &predss, Ghost(before)))),
                    Inst::Jump { target } | Inst::JumpIfFalse { target, .. } | Inst::ForNext {
                        target,
                        ..
                    } => {
                        proof {
                            assert(successors(before.instructions@[i as int])[0] == *target);
                        }
                        match plan[target.0 as usize] {
                            Some(to) => {
                                let r = match &body.instructions[i] {
                                    Inst::Jump { .. } => Inst::Jump { target: to },
                                    Inst::JumpIfFalse { condition, .. } => Inst::JumpIfFalse { condition: *condition, target: to },
                                    Inst::ForNext { idx, bound, .. } => Inst::ForNext { idx: *idx, bound: *bound, target: to },
                                    _ => Inst::Panic,
                                };
                                Some(r)
                            },
                            None => None,
                        }
                    },
                    _ => None,
                };
                match new_inst {
                    Some(x) => {
                        if modified {
                            body.instructions.set(i, x);
                        } else {
                            proof {
                                lemma_phis_upto_unplanned(before, t as int, phi_branches(before.instructions@[i as int]), n as int);
                            }
                        }
                    },
                    None => {},
                }
            },
            None => {
                proof {
                    assert(!in_some_block(before, i as int));
                }
            },
        }
        proof {
            assert forall|t: int| 0 <= t < n && #[trigger] in_block(before, t, i as int) && before.instructions@[i as int] is Phi implies body.instructions@[i as int] is Phi && phi_branches(body.instructions@[i as int]) == phis_upto(
                before,
                t,
                phi_branches(before.instructions@[i as int]),
                n as int,
            ) by {
                assert(home@[i as int] == Some(t as usize));
            }
        }
        i += 1;
    }
    proof {
        assert forall|ii: int, k: int|
            0 <= ii < body.instructions@.len() && 0 <= k < successors(body.instructions@[ii]).len() implies (
            #[trigger] successors(body.instructions@[ii])[k]).0 < body.blocks@.len() by {
            if phi_redirect(before, ii) is Some {
                let bid = jump_target_of(before.instructions@[ii])->0;
                assert(successors(before.instructions@[ii])[0] == bid);
                let to = forwarder(before, bid.0 as int)->0;
                let only = before.blocks@[bid.0 as int].stream@[0];
                assert(only.0 < before.instructions@.len());
                assert(successors(before.instructions@[only.0 as int])[0] == to);
            } else if !(before.instructions@[ii] is Phi) {
                assert(successors(before.instructions@[ii])[k].0 < before.blocks@.len());
            } else if in_some_block(before, ii) {
                let t = choose|t: int| 0 <= t < n && #[trigger] in_block(before, t, ii);
                assert(body.instructions@[ii] is Phi);
            }
        }
        assert forall|ii: int, k: int|
            0 <= ii < body.instructions@.len() && 0 <= k < operands(body.instructions@[ii]).len() implies (
            #[trigger] operands(body.instructions@[ii])[k]).0 < body.instructions@.len() by {
            if phi_redirect(before, ii) is Some {
                assert(operands(before.instructions@[ii])[k].0 < before.instructions@.len());
            } else if !(before.instructions@[ii] is Phi) {
                assert(operands(before.instructions@[ii])[k].0 < before.instructions@.len());
            } else if in_some_block(before, ii) {
                let t = choose|t: int| 0 <= t < n && #[trigger] in_block(before, t, ii);
                let bs = phi_branches(before.instructions@[ii]);
                assert forall|q: int| 0 <= q < bs.len() implies (#[trigger] bs[q]).1.0 < before.instructions@.len() by {
                    assert(operands(before.instructions@[ii])[q] == bs[q].1);
                }
                lemma_phis_upto_values(before, t, bs, n as int);
                let nb = phi_branches(body.instructions@[ii]);
                assert(operands(body.instructions@[ii]) == nb.map_values(|b: (BlockId, InstId)| b.1));
                assert(nb[k].1 == operands(body.instructions@[ii])[k]);
            } else {
                assert(operands(before.instructions@[ii])[k].0 < before.instructions@.len());
            }
        }
    }
    modified
}

/// Where no forwarder is planned away, a phi's branches stay as they are.
proof fn lemma_phis_upto_unplanned(b: Body, t: int, bs: Seq<(BlockId, InstId)>, j: int)
    requires
        j <= b.blocks@.len(),
        forall|c: int| 0 <= c < b.blocks@.len() ==> !#[trigger] planned(b, c),
    ensures
        phis_upto(b, t, bs, j) == bs,
    decreases j,
{
    if j > 0 {
        lemma_phis_upto_unplanned(b, t, bs, j - 1);
        assert(!planned(b, j - 1));
    }
}

/// Folding forwarders only moves values a phi already had.
proof fn lemma_phis_upto_values(b: Body, t: int, bs: Seq<(BlockId, InstId)>, j: int)
    requires
        forall|q: int| 0 <= q < bs.len() ==> (#[trigger] bs[q]).1.0 < b.instructions@.len(),
    ensures
        forall|q: int| 0 <= q < phis_upto(b, t, bs, j).len() ==> (#[trigger] phis_upto(b, t, bs, j)[q]).1.0
            < b.instructions@.len(),
    decreases j,
{
    if j > 0 {
        lemma_phis_upto_values(b, t, bs, j - 1);
        let prev = phis_upto(b, t, bs, j - 1);
        let bid = BlockId((j - 1) as u32);
        if planned(b, j - 1) && forwarder(b, j - 1) == Some(BlockId(t as u32)) && has_from(prev, bid) {
            let k = first_index(prev, bid);
            let jj = choose|jj: int| 0 <= jj < prev.len() && (#[trigger] prev[jj]).0 == bid;
            let k0 = lemma_first_exists(prev, bid, jj);
            assert(first_from(prev, bid, k));
            let ps = preds(b, bid);
            let out = prev.remove(k) + ps.map_values(|p: BlockId| (p, prev[k].1));
            assert forall|q: int| 0 <= q < out.len() implies (#[trigger] out[q]).1.0 < b.instructions@.len() by {
                if q < prev.len() - 1 {
                    if q < k {
                        assert(out[q] == prev[q]);
                    } else {
                        assert(out[q] == prev[q + 1]);
                    }
                } else {
                    assert(out[q].1 == prev[k].1);
                }
            }
        }
    }
}

/// [`dce`] took body `a` to `b`, reporting `m`: what it does to a body, as its contract states it.
#[verifier::opaque]
pub open spec fn dce_step(a: Body, b: Body, m: bool) -> bool {
    &&& b.instructions@ == a.instructions@
    &&& b.blocks@.len() == a.blocks@.len()
    &&& forall|c: int|
        0 <= c < a.blocks@.len() ==> (#[trigger] b.blocks@[c]).stream@ == if reachable(
            a,
            c,
        ) {
            a.blocks@[c].stream@
        } else {
            Seq::empty()
        }
    &&& m == exists|c: int|
        0 <= c < a.blocks@.len() && !reachable(a, c)
            && #[trigger] a.blocks@[c].stream@.len() > 0
    &&& !m ==> b == a
    &&& b.params == a.params
    &&& b.captures == a.captures
    &&& b.current_block == a.current_block
    &&& b.loop_stack == a.loop_stack
    &&& b.locs == a.locs
    &&& b.artifacts == a.artifacts
}

/// [`dve`] took body `a` to `b`, reporting `m`: what it does to a body, as its contract states it.
#[verifier::opaque]
pub open spec fn dve_step(a: Body, b: Body, m: bool) -> bool {
    &&& b.instructions@ == a.instructions@
    &&& b.blocks@.len() == a.blocks@.len()
    &&& forall|c: int|
        0 <= c < a.blocks@.len() ==> (#[trigger] b.blocks@[c]).stream@
            == live_stream(a, a.blocks@[c].stream@)
    &&& m == exists|c: int|
        0 <= c < a.blocks@.len() && #[trigger] live_stream(
            a,
            a.blocks@[c].stream@,
        ).len() != a.blocks@[c].stream@.len()
    &&& !m ==> b == a
    &&& b.params == a.params
    &&& b.captures == a.captures
    &&& b.current_block == a.current_block
    &&& b.loop_stack == a.loop_stack
    &&& b.locs == a.locs
    &&& b.artifacts == a.artifacts
}

/// [`thread_jumps`] took body `a` to `b`, reporting `m`: what it does to a body, as its contract states it.
#[verifier::opaque]
pub open spec fn thread_jumps_step(a: Body, b: Body, m: bool) -> bool {
    &&& b.blocks == a.blocks
    &&& b.instructions@.len() == a.instructions@.len()
    &&& forall|i: int|
        0 <= i < a.instructions@.len() ==> retargeted(
            a,
            a.instructions@[i],
            #[trigger] b.instructions@[i],
        )
    &&& m == exists|i: int|
        0 <= i < a.instructions@.len() && #[trigger] threads(
            a,
            a.instructions@[i],
        )
    &&& !m ==> b == a
    &&& b.params == a.params
    &&& b.captures == a.captures
    &&& b.current_block == a.current_block
    &&& b.loop_stack == a.loop_stack
    &&& b.locs == a.locs
    &&& b.artifacts == a.artifacts
}

/// [`fold_constants`] took body `a` to `b`, reporting `m`: what it does to a body, as its contract states it.
#[verifier::opaque]
pub open spec fn fold_constants_step(a: Body, b: Body, m: bool) -> bool {
    &&& b.blocks == a.blocks
    &&& b.instructions@.len() == a.instructions@.len()
    &&& forall|i: int|
        0 <= i < a.instructions@.len() ==> #[trigger] b.instructions@[i] == match int_fold(
            a,
            a.instructions@[i],
        ) {
            Some(s) => folded_inst(s),
            None => a.instructions@[i],
        }
    &&& m == exists|i: int|
        0 <= i < a.instructions@.len() && #[trigger] int_fold(
            a,
            a.instructions@[i],
        ) is Some
    &&& !m ==> b == a
    &&& b.params == a.params
    &&& b.captures == a.captures
    &&& b.current_block == a.current_block
    &&& b.loop_stack == a.loop_stack
    &&& b.locs == a.locs
    &&& b.artifacts == a.artifacts
}

/// [`sink_returns`] took body `a` to `b`, reporting `m`: what it does to a body, as its contract states it.
#[verifier::opaque]
pub open spec fn sink_returns_step(a: Body, b: Body, m: bool) -> bool {
    &&& b.blocks == a.blocks
    &&& b.instructions@.len() == a.instructions@.len()
    &&& forall|p: int|
        0 <= p < a.blocks@.len() && #[trigger] sink_of(a, p) is Some ==> edge_after(
            a,
            p,
            b.instructions@[sink_jump(a, p).0 as int],
        )
    &&& forall|m: int|
        0 <= m < a.blocks@.len() && #[trigger] is_return_merge(a, m) ==> {
            let phi = merge_phi(a, m).0 as int;
            &&& b.instructions@[phi] is Phi
            &&& phi_branches(b.instructions@[phi]) == kept_branches(
                a,
                m,
                phi_branches(a.instructions@[phi]),
            )
        }
    &&& forall|i: int|
        0 <= i < a.instructions@.len() && !#[trigger] sink_touches(a, i)
            ==> b.instructions@[i] == a.instructions@[i]
    &&& m == exists|p: int| 0 <= p < a.blocks@.len() && #[trigger] sinks_now(a, p)
    &&& !m ==> b == a
    &&& b.params == a.params
    &&& b.captures == a.captures
    &&& b.current_block == a.current_block
    &&& b.loop_stack == a.loop_stack
    &&& b.locs == a.locs
    &&& b.artifacts == a.artifacts
}

/// [`thread_phis`] took body `a` to `b`, reporting `m`: what it does to a body, as its contract states it.
#[verifier::opaque]
pub open spec fn thread_phis_step(a: Body, b: Body, m: bool) -> bool {
    &&& b.blocks == a.blocks
    &&& b.instructions@.len() == a.instructions@.len()
    &&& forall|i: int|
        0 <= i < a.instructions@.len() && #[trigger] phi_redirect(a, i) is Some
            ==> b.instructions@[i] == redirected(
            a.instructions@[i],
            phi_redirect(a, i)->0,
        )
    &&& forall|i: int, t: int|
        0 <= i < a.instructions@.len() && 0 <= t < a.blocks@.len() && #[trigger] in_block(
            a,
            t,
            i,
        ) && a.instructions@[i] is Phi ==> b.instructions@[i] is Phi
            && phi_branches(b.instructions@[i]) == phis_upto(
            a,
            t,
            phi_branches(a.instructions@[i]),
            a.blocks@.len() as int,
        )
    &&& forall|i: int|
        0 <= i < a.instructions@.len() && !in_some_block(a, i)
            ==> #[trigger] b.instructions@[i] == a.instructions@[i]
    &&& forall|i: int|
        0 <= i < a.instructions@.len() && #[trigger] phi_redirect(a, i) is None
            && !(a.instructions@[i] is Phi) ==> b.instructions@[i]
            == a.instructions@[i]
    &&& m == exists|c: int| 0 <= c < a.blocks@.len() && #[trigger] planned(a, c)
    &&& !m ==> b == a
    &&& b.params == a.params
    &&& b.captures == a.captures
    &&& b.current_block == a.current_block
    &&& b.loop_stack == a.loop_stack
    &&& b.locs == a.locs
    &&& b.artifacts == a.artifacts
}

/// How many rounds of passes [`clean`] runs at most.
pub const MAXIMUM_PASSES: usize = 16;

/// None of the passes of [`clean`] would change `b`: no jump goes through a forwarder, every
/// block that the entry cannot reach is empty, no forwarder can be folded into the phis after
/// it, no block can return directly instead of jumping into a return merge, no instruction
/// folds to a constant, and every instruction that a block runs is live.
pub open spec fn settled(b: Body) -> bool {
    &&& forall|i: int| 0 <= i < b.instructions@.len() ==> !#[trigger] threads(b, b.instructions@[i])
    &&& forall|c: int|
        0 <= c < b.blocks@.len() && !reachable(b, c) ==> #[trigger] b.blocks@[c].stream@.len() == 0
    &&& forall|c: int| 0 <= c < b.blocks@.len() ==> !#[trigger] planned(b, c)
    &&& forall|p: int| 0 <= p < b.blocks@.len() ==> !#[trigger] sinks_now(b, p)
    &&& forall|i: int| 0 <= i < b.instructions@.len() ==> #[trigger] int_fold(b, b.instructions@[i]) is None
    &&& forall|c: int|
        0 <= c < b.blocks@.len() ==> #[trigger] live_stream(b, b.blocks@[c].stream@).len()
            == b.blocks@[c].stream@.len()
}

/// One round of [`clean`] through the bodies of `t`: jump threading, dead code removal, phi
/// threading, dead code removal, return sinking, dead code removal, constant folding and dead
/// value removal, each pass reporting `ms` at its place.
pub open spec fn round_through(t: Seq<Body>, ms: Seq<bool>) -> bool {
    &&& t.len() == 9
    &&& ms.len() == 8
    &&& thread_jumps_step(t[0], t[1], ms[0])
    &&& dce_step(t[1], t[2], ms[1])
    &&& thread_phis_step(t[2], t[3], ms[2])
    &&& dce_step(t[3], t[4], ms[3])
    &&& sink_returns_step(t[4], t[5], ms[4])
    &&& dce_step(t[5], t[6], ms[5])
    &&& fold_constants_step(t[6], t[7], ms[6])
    &&& dve_step(t[7], t[8], ms[7])
}

/// One round of [`clean`] takes body `a` to `b`, and `changed` says whether any of its passes
/// found work.
#[verifier::opaque]
pub open spec fn round(a: Body, b: Body, changed: bool) -> bool {
    exists|t: Seq<Body>, ms: Seq<bool>|
        #[trigger] round_through(t, ms) && t[0] == a && t[8] == b && changed == (ms[0] || ms[1] || ms[2]
            || ms[3] || ms[4] || ms[5] || ms[6] || ms[7])
}

/// The passes of a round, one after another, make the round.
proof fn lemma_round(
    b0: Body,
    b1: Body,
    b2: Body,
    b3: Body,
    b4: Body,
    b5: Body,
    b6: Body,
    b7: Body,
    b8: Body,
    ms: Seq<bool>,
)
    requires
        ms.len() == 8,
        thread_jumps_step(b0, b1, ms[0]),
        dce_step(b1, b2, ms[1]),
        thread_phis_step(b2, b3, ms[2]),
        dce_step(b3, b4, ms[3]),
        sink_returns_step(b4, b5, ms[4]),
        dce_step(b5, b6, ms[5]),
        fold_constants_step(b6, b7, ms[6]),
        dve_step(b7, b8, ms[7]),
    ensures
        round(b0, b8, ms[0] || ms[1] || ms[2] || ms[3] || ms[4] || ms[5] || ms[6] || ms[7]),
        b8.blocks@.len() == b0.blocks@.len(),
        b8.instructions@.len() == b0.instructions@.len(),
        b8.params == b0.params,
        b8.captures == b0.captures,
        b8.current_block == b0.current_block,
        b8.loop_stack == b0.loop_stack,
        b8.locs == b0.locs,
        b8.artifacts == b0.artifacts,
{
    reveal(thread_jumps_step);
    reveal(dce_step);
    reveal(thread_phis_step);
    reveal(sink_returns_step);
    reveal(fold_constants_step);
    reveal(dve_step);
    let t = seq![b0, b1, b2, b3, b4, b5, b6, b7, b8];
    assert(round_through(t, ms));
    reveal(round);
}

/// A round whose passes all find nothing leaves the body as it was, and settled; a round from a
/// settled body finds nothing.
proof fn lemma_round_settled(
    b0: Body,
    b1: Body,
    b2: Body,
    b3: Body,
    b4: Body,
    b5: Body,
    b6: Body,
    b7: Body,
    b8: Body,
    ms: Seq<bool>,
)
    requires
        ms.len() == 8,
        thread_jumps_step(b0, b1, ms[0]),
        dce_step(b1, b2, ms[1]),
        thread_phis_step(b2, b3, ms[2]),
        dce_step(b3, b4, ms[3]),
        sink_returns_step(b4, b5, ms[4]),
        dce_step(b5, b6, ms[5]),
        fold_constants_step(b6, b7, ms[6]),
        dve_step(b7, b8, ms[7]),
    ensures
        !(ms[0] || ms[1] || ms[2] || ms[3] || ms[4] || ms[5] || ms[6] || ms[7]) ==> b8 == b0 && settled(b8),
        settled(b0) ==> !(ms[0] || ms[1] || ms[2] || ms[3] || ms[4] || ms[5] || ms[6] || ms[7]),
{
    reveal(thread_jumps_step);
    reveal(dce_step);
    reveal(thread_phis_step);
    reveal(sink_returns_step);
    reveal(fold_constants_step);
    reveal(dve_step);
    if settled(b0) {
        assert(!ms[0]);
        assert(!ms[1]);
        assert(!ms[2]);
        assert(!ms[3]);
        assert(!ms[4]);
        assert(!ms[5]);
        assert(!ms[6]);
        assert(!ms[7]);
    }
}

/// The bodies `tr` are the ones [`clean`] goes through from `a`: each round found work and led
/// to the next, and the run stopped at `b`, at the limit of rounds exactly when `hit_limit`;
/// otherwise one more round at `b` found nothing to do.
pub open spec fn cleaned_through(tr: Seq<Body>, a: Body, b: Body, hit_limit: bool) -> bool {
    &&& 1 <= tr.len() <= MAXIMUM_PASSES + 1
    &&& tr[0] == a
    &&& tr.last() == b
    &&& forall|j: int| 0 <= j < tr.len() - 1 ==> round(#[trigger] tr[j], tr[j + 1], true)
    &&& hit_limit <==> tr.len() == MAXIMUM_PASSES + 1
    &&& !hit_limit ==> round(b, b, false)
}

/// Optimizes a body: runs rounds of jump threading, dead code removal, phi threading, return
/// sinking, constant folding and dead value removal until a round changes nothing, or
/// [`MAXIMUM_PASSES`] rounds have run. Returns whether it stopped at that limit (the caller
/// warns about it). Every pass keeps the body well formed. Unless it stopped at the limit, the
/// result is settled: no pass would change it, so cleaning it again leaves it as it is.
/// One round of [`clean`]: every pass once, in order. Returns whether any of them found work;
/// where none did, the body is as it was and settled.
fn clean_round(body: &mut Body) -> (modified: bool)
    requires
        body_wf(*old(body)),
        placed_once(*old(body)),
    ensures
        body_wf(*final(body)),
        placed_once(*final(body)),
        final(body).blocks@.len() == old(body).blocks@.len(),
        final(body).instructions@.len() == old(body).instructions@.len(),
        final(body).params == old(body).params,
        final(body).captures == old(body).captures,
        final(body).current_block == old(body).current_block,
        final(body).loop_stack == old(body).loop_stack,
        final(body).locs == old(body).locs,
        final(body).artifacts == old(body).artifacts,
        round(*old(body), *final(body), modified),
        !modified ==> *final(body) == *old(body) && settled(*final(body)),
        settled(*old(body)) ==> !modified,
{
    let ghost b0 = *body;
    let threaded = thread_jumps(body);
    let ghost b1 = *body;
    let pruned = dce(body);
    let ghost b2 = *body;
    let folded_phis = thread_phis(body);
    let ghost b3 = *body;
    let pruned_again = dce(body);
    let ghost b4 = *body;
    let sunk = sink_returns(body);
    let ghost b5 = *body;
    let pruned_last = dce(body);
    let ghost b6 = *body;
    let folded = fold_constants(body);
    let ghost b7 = *body;
    let trimmed = dve(body);
    proof {
        lemma_round(
            b0,
            b1,
            b2,
            b3,
            b4,
            b5,
            b6,
            b7,
            *body,
            seq![threaded, pruned, folded_phis, pruned_again, sunk, pruned_last, folded, trimmed],
        );
        lemma_round_settled(
            b0,
            b1,
            b2,
            b3,
            b4,
            b5,
            b6,
            b7,
            *body,
            seq![threaded, pruned, folded_phis, pruned_again, sunk, pruned_last, folded, trimmed],
        );
    }
    threaded || pruned || folded_phis || pruned_again || sunk || pruned_last || folded || trimmed
}

/// Optimizes a body: runs rounds of jump threading, dead code removal, phi threading, return
/// sinking, constant folding and dead value removal until a round changes nothing, or
/// [`MAXIMUM_PASSES`] rounds have run. Returns whether it stopped at that limit (the caller
/// warns about it). Every pass keeps the body well formed. Unless it stopped at the limit, the
/// result is settled: no pass would change it, so cleaning it again leaves it as it is.
pub fn clean(body: &mut Body) -> (hit_limit: bool)
    requires
        body_wf(*old(body)),
        placed_once(*old(body)),
    ensures
        body_wf(*final(body)),
        placed_once(*final(body)),
        final(body).blocks@.len() == old(body).blocks@.len(),
        final(body).instructions@.len() == old(body).instructions@.len(),
        final(body).params == old(body).params,
        final(body).captures == old(body).captures,
        final(body).current_block == old(body).current_block,
        final(body).loop_stack == old(body).loop_stack,
        final(body).locs == old(body).locs,
        final(body).artifacts == old(body).artifacts,
        !hit_limit ==> settled(*final(body)),
        settled(*old(body)) ==> !hit_limit && *final(body) == *old(body),
        exists|tr: Seq<Body>| #[trigger] cleaned_through(tr, *old(body), *final(body), hit_limit),
{
    let ghost start = *body;
    let ghost mut tr: Seq<Body> = seq![start];
    let mut passes: usize = 0;
    while passes < MAXIMUM_PASSES
        invariant
            body_wf(*body),
            placed_once(*body),
            passes <= MAXIMUM_PASSES,
            body.blocks@.len() == start.blocks@.len(),
            body.instructions@.len() == start.instructions@.len(),
            body.params == start.params,
            body.captures == start.captures,
            body.current_block == start.current_block,
            body.loop_stack == start.loop_stack,
            body.locs == start.locs,
            body.artifacts == start.artifacts,
            settled(start) ==> passes == 0 && *body == start,
            tr.len() == passes + 1,
            tr[0] == start,
            tr.last() == *body,
            forall|j: int| 0 <= j < tr.len() - 1 ==> round(#[trigger] tr[j], tr[j + 1], true),
        ensures
            body_wf(*body),
            placed_once(*body),
            passes <= MAXIMUM_PASSES,
            body.blocks@.len() == start.blocks@.len(),
            body.instructions@.len() == start.instructions@.len(),
            body.params == start.params,
            body.captures == start.captures,
            body.current_block == start.current_block,
            body.loop_stack == start.loop_stack,
            body.locs == start.locs,
            body.artifacts == start.artifacts,
            passes < MAXIMUM_PASSES ==> settled(*body),
            settled(start) ==> passes == 0 && *body == start,
            tr.len() == passes + 1,
            tr[0] == start,
            tr.last() == *body,
            forall|j: int| 0 <= j < tr.len() - 1 ==> round(#[trigger] tr[j], tr[j + 1], true),
            passes < MAXIMUM_PASSES ==> round(*body, *body, false),
        decreases MAXIMUM_PASSES - passes,
    {
        let ghost b0 = *body;
        let modified = clean_round(body);
        if !modified {
            break;
        }
        proof {
            let tr0 = tr;
            tr = tr.push(*body);
            assert forall|j: int| 0 <= j < tr.len() - 1 implies round(#[trigger] tr[j], tr[j + 1], true) by {
                if j < tr0.len() - 1 {
                    assert(tr[j] == tr0[j] && tr[j + 1] == tr0[j + 1]);
                } else {
                    assert(tr[j] == b0);
                }
            }
        }
        passes += 1;
    }
    proof {
        assert(cleaned_through(tr, start, *body, passes == MAXIMUM_PASSES));
    }
    passes == MAXIMUM_PASSES
}

/// Instruction `k` of block `blk`'s stream uses `u`, and no later one does.
pub open spec fn last_user_at(b: Body, blk: int, u: InstId, k: int) -> bool {
    let s = b.blocks@[blk].stream@;
    &&& 0 <= k < s.len()
    &&& operands(b.instructions@[s[k].0 as int]).contains(u)
    &&& forall|k2: int| k < k2 < s.len() ==> !operands(b.instructions@[(#[trigger] s[k2]).0 as int]).contains(u)
}

/// For each instruction `u` whose value block `blk` uses, the last instruction of the block that
/// uses it (where `u`'s value dies in this block); `None` for one the block doesn't use.
pub fn last_uses(body: &Body, blk: BlockId) -> (r: Vec<Option<InstId>>)
    requires
        body_wf(*body),
        blk.0 < body.blocks@.len(),
    ensures
        r@.len() == body.instructions@.len(),
        forall|u: int|
            0 <= u < r@.len() ==> match #[trigger] r@[u] {
                Some(x) => exists|k: int|
                    last_user_at(*body, blk.0 as int, InstId(u as u32), k) && body.blocks@[blk.0 as int].stream@[k] == x,
                None => forall|k: int|
                    0 <= k < body.blocks@[blk.0 as int].stream@.len() ==> !operands(
                        body.instructions@[(#[trigger] body.blocks@[blk.0 as int].stream@[k]).0 as int],
                    ).contains(InstId(u as u32)),
            },
{
    let n = body.instructions.len();
    let mut r: Vec<Option<InstId>> = Vec::new();
    while r.len() < n
        invariant
            r@.len() <= n,
            forall|u: int| 0 <= u < r@.len() ==> r@[u] is None,
        decreases n - r@.len(),
    {
        r.push(None);
    }
    let s = &body.blocks[blk.0 as usize].stream;
    let ghost bi = blk.0 as int;
    let mut k: usize = s.len();
    while k > 0
        invariant
            body_wf(*body),
            n == body.instructions@.len(),
            bi == blk.0,
            bi < body.blocks@.len(),
            *s == body.blocks@[bi].stream,
            k <= s@.len(),
            r@.len() == n,
            forall|u: int|
                0 <= u < n ==> match #[trigger] r@[u] {
                    Some(x) => exists|kk: int|
                        k <= kk && last_user_at(*body, bi, InstId(u as u32), kk) && s@[kk] == x,
                    None => forall|kk: int|
                        k <= kk < s@.len() ==> !operands(body.instructions@[(#[trigger] s@[kk]).0 as int]).contains(
                            InstId(u as u32),
                        ),
                },
        decreases k,
    {
        k -= 1;
        let iid = s[k];
        let us = crate::ir::uses(&body.instructions[iid.0 as usize]);
        let ghost r0 = r@;
        let mut j: usize = 0;
        while j < us.len()
            invariant
                body_wf(*body),
                n == body.instructions@.len(),
                bi == blk.0,
                bi < body.blocks@.len(),
                *s == body.blocks@[bi].stream,
                k < s@.len(),
                iid == s@[k as int],
                r@.len() == n,
                forall|x: InstId| us@.contains(x) <==> operands(body.instructions@[iid.0 as int]).contains(x),
                crate::ir::strictly_sorted(us@),
                j <= us@.len(),
                forall|u: int|
                    0 <= u < n ==> match #[trigger] r@[u] {
                        Some(x) => exists|kk: int|
                            k <= kk && last_user_at(*body, bi, InstId(u as u32), kk) && s@[kk] == x,
                        None => forall|kk: int|
                            k + 1 <= kk < s@.len() ==> !operands(body.instructions@[(#[trigger] s@[kk]).0 as int]).contains(
                                InstId(u as u32),
                            ),
                    },
                forall|jj: int| 0 <= jj < j ==> #[trigger] r@[us@[jj].0 as int] is Some,
            decreases us@.len() - j,
        {
            let u = us[j];
            proof {
                assert(us@.contains(u));
                let kk = choose|kk: int|
                    0 <= kk < operands(body.instructions@[iid.0 as int]).len()
                        && operands(body.instructions@[iid.0 as int])[kk] == u;
                assert(u.0 < n);
            }
            if r[u.0 as usize].is_none() {
                proof {
                    assert(last_user_at(*body, bi, InstId(u.0), k as int));
                }
                r.set(u.0 as usize, Some(iid));
            }
            j += 1;
        }
        proof {
            assert forall|u: int|
                0 <= u < n implies match #[trigger] r@[u] {
                    Some(x) => exists|kk: int|
                        k <= kk && last_user_at(*body, bi, InstId(u as u32), kk) && s@[kk] == x,
                    None => forall|kk: int|
                        k <= kk < s@.len() ==> !operands(body.instructions@[(#[trigger] s@[kk]).0 as int]).contains(
                            InstId(u as u32),
                        ),
                } by {
                if r@[u] is None {
                    assert forall|kk: int| k <= kk < s@.len() implies !operands(body.instructions@[(#[trigger] s@[kk]).0 as int]).contains(
                        InstId(u as u32),
                    ) by {
                        if kk == k && operands(body.instructions@[iid.0 as int]).contains(InstId(u as u32)) {
                            assert(us@.contains(InstId(u as u32)));
                            let jj = choose|jj: int| 0 <= jj < us@.len() && us@[jj] == InstId(u as u32);
                            assert(r@[us@[jj].0 as int] is Some);
                        }
                    }
                }
            }
        }
    }
    r
}

/// Block `bi` is the last block that runs instruction `u` (where its value is defined).
pub open spec fn defined_in(b: Body, u: int, bi: int) -> bool {
    in_block(b, bi, u) && forall|b2: int| bi < b2 < b.blocks@.len() ==> !#[trigger] in_block(b, b2, u)
}

/// Block `bi`'s instruction `k` uses `u`, which is not defined in `bi`.
pub open spec fn used_across(b: Body, u: int, bi: int, k: int) -> bool {
    &&& 0 <= bi < b.blocks@.len()
    &&& 0 <= k < b.blocks@[bi].stream@.len()
    &&& operands(b.instructions@[b.blocks@[bi].stream@[k].0 as int]).contains(InstId(u as u32))
    &&& !defined_in(b, u, bi)
}

/// Marks every instruction used in a block other than the one that defines it, so its register
/// is never freed early.
pub fn cross_block_iids(body: &Body) -> (r: Vec<bool>)
    requires
        body_wf(*body),
    ensures
        r@.len() == body.instructions@.len(),
        forall|u: int| 0 <= u < r@.len() ==> #[trigger] r@[u] == exists|bi: int, k: int| used_across(*body, u, bi, k),
{
    let n = body.instructions.len();
    let nb = body.blocks.len();
    let mut defs: Vec<Option<usize>> = Vec::new();
    while defs.len() < n
        invariant
            defs@.len() <= n,
            forall|u: int| 0 <= u < defs@.len() ==> defs@[u] is None,
        decreases n - defs@.len(),
    {
        defs.push(None);
    }
    let mut bi: usize = 0;
    while bi < nb
        invariant
            body_wf(*body),
            n == body.instructions@.len(),
            nb == body.blocks@.len(),
            defs@.len() == n,
            bi <= nb,
            forall|u: int|
                0 <= u < n ==> match #[trigger] defs@[u] {
                    Some(t) => t < bi && in_block(*body, t as int, u) && forall|b2: int| t < b2 < bi ==> !#[trigger] in_block(*body, b2, u),
                    None => forall|b2: int| 0 <= b2 < bi ==> !#[trigger] in_block(*body, b2, u),
                },
        decreases nb - bi,
    {
        let s = &body.blocks[bi].stream;
        let mut k: usize = 0;
        while k < s.len()
            invariant
                body_wf(*body),
                n == body.instructions@.len(),
                nb == body.blocks@.len(),
                defs@.len() == n,
                bi < nb,
                *s == body.blocks@[bi as int].stream,
                k <= s@.len(),
                forall|u: int|
                    0 <= u < n ==> match #[trigger] defs@[u] {
                        Some(t) => t <= bi && in_block(*body, t as int, u) && forall|b2: int| t < b2 < bi ==> !#[trigger] in_block(*body, b2, u),
                        None => forall|b2: int| 0 <= b2 < bi ==> !#[trigger] in_block(*body, b2, u),
                    },
                forall|u: int|
                    0 <= u < n && (exists|k2: int| 0 <= k2 < k && (#[trigger] s@[k2]).0 == u) ==> defs@[u] == Some(bi),
                forall|u: int|
                    0 <= u < n && in_block(*body, bi as int, u) && !(exists|k2: int| 0 <= k2 < k && (#[trigger] s@[k2]).0 == u)
                        ==> !(#[trigger] defs@[u] == Some(bi)),
            decreases s@.len() - k,
        {
            let x = s[k];
            proof {
                assert(x.0 < n);
                assert(in_block(*body, bi as int, x.0 as int)) by {
                    assert(body.blocks@[bi as int].stream@[k as int] == x);
                }
            }
            defs.set(x.0 as usize, Some(bi));
            proof {
                assert forall|u: int|
                    0 <= u < n && (exists|k2: int| 0 <= k2 < k + 1 && (#[trigger] s@[k2]).0 == u) implies defs@[u] == Some(bi) by {
                    let k2 = choose|k2: int| 0 <= k2 < k + 1 && (#[trigger] s@[k2]).0 == u;
                    if k2 < k {
                        assert(exists|k3: int| 0 <= k3 < k && (#[trigger] s@[k3]).0 == u);
                    }
                }
                assert forall|u: int|
                    0 <= u < n && in_block(*body, bi as int, u) && !(exists|k2: int| 0 <= k2 < k + 1 && (#[trigger] s@[k2]).0 == u)
                        implies !(#[trigger] defs@[u] == Some(bi)) by {
                    assert(s@[k as int].0 != u);
                    assert(!(exists|k3: int| 0 <= k3 < k && (#[trigger] s@[k3]).0 == u)) by {
                        if exists|k3: int| 0 <= k3 < k && (#[trigger] s@[k3]).0 == u {
                            let k3 = choose|k3: int| 0 <= k3 < k && (#[trigger] s@[k3]).0 == u;
                            assert(0 <= k3 < k + 1 && s@[k3].0 == u);
                        }
                    }
                }
            }
            k += 1;
        }
        proof {
            assert forall|u: int|
                0 <= u < n implies match #[trigger] defs@[u] {
                    Some(t) => t < bi + 1 && in_block(*body, t as int, u) && forall|b2: int| t < b2 < bi + 1 ==> !#[trigger] in_block(*body, b2, u),
                    None => forall|b2: int| 0 <= b2 < bi + 1 ==> !#[trigger] in_block(*body, b2, u),
                } by {
                if in_block(*body, bi as int, u) {
                    let k2 = choose|k2: int| 0 <= k2 < body.blocks@[bi as int].stream@.len() && (#[trigger] body.blocks@[bi as int].stream@[k2]).0 == u;
                    assert(s@[k2].0 == u);
                    assert(exists|k3: int| 0 <= k3 < k && (#[trigger] s@[k3]).0 == u);
                }
            }
        }
        bi += 1;
    }
    let mut r: Vec<bool> = Vec::new();
    while r.len() < n
        invariant
            r@.len() <= n,
            forall|u: int| 0 <= u < r@.len() ==> !r@[u],
        decreases n - r@.len(),
    {
        r.push(false);
    }
    proof {
        assert forall|u: int, t: int| 0 <= u < n && 0 <= t < nb implies (defs@[u] == Some(t as usize) <==> defined_in(*body, u, t)) by {
            match defs@[u] {
                Some(t2) => {
                    if defined_in(*body, u, t) && t != t2 {
                        if t < t2 {
                            assert(in_block(*body, t2 as int, u));
                        }
                    }
                },
                None => {},
            }
        }
    }
    let mut bi: usize = 0;
    while bi < nb
        invariant
            body_wf(*body),
            n == body.instructions@.len(),
            nb == body.blocks@.len(),
            defs@.len() == n,
            r@.len() == n,
            forall|u: int, t: int| 0 <= u < n && 0 <= t < nb ==> (defs@[u] == Some(t as usize) <==> #[trigger] defined_in(*body, u, t)),
            bi <= nb,
            forall|u: int| 0 <= u < n ==> #[trigger] r@[u] == exists|b2: int, k: int| b2 < bi && used_across(*body, u, b2, k),
        decreases nb - bi,
    {
        let s = &body.blocks[bi].stream;
        let mut k: usize = 0;
        while k < s.len()
            invariant
                body_wf(*body),
                n == body.instructions@.len(),
                nb == body.blocks@.len(),
                defs@.len() == n,
                r@.len() == n,
                forall|u: int, t: int| 0 <= u < n && 0 <= t < nb ==> (defs@[u] == Some(t as usize) <==> #[trigger] defined_in(*body, u, t)),
                bi < nb,
                *s == body.blocks@[bi as int].stream,
                k <= s@.len(),
                forall|u: int| 0 <= u < n ==> #[trigger] r@[u] == ((exists|b2: int, k2: int| b2 < bi && used_across(*body, u, b2, k2))
                    || exists|k2: int| k2 < k && used_across(*body, u, bi as int, k2)),
            decreases s@.len() - k,
        {
            let iid = s[k];
            let us = crate::ir::uses(&body.instructions[iid.0 as usize]);
            let ghost r0 = r@;
            let mut j: usize = 0;
            while j < us.len()
                invariant
                    body_wf(*body),
                    n == body.instructions@.len(),
                    nb == body.blocks@.len(),
                    defs@.len() == n,
                    r@.len() == n,
                    forall|u: int, t: int| 0 <= u < n && 0 <= t < nb ==> (defs@[u] == Some(t as usize) <==> #[trigger] defined_in(*body, u, t)),
                    bi < nb,
                    *s == body.blocks@[bi as int].stream,
                    k < s@.len(),
                    iid == s@[k as int],
                    forall|x: InstId| us@.contains(x) <==> operands(body.instructions@[iid.0 as int]).contains(x),
                    j <= us@.len(),
                    forall|u: int| 0 <= u < n ==> #[trigger] r@[u] == (r0[u] || exists|jj: int|
                        0 <= jj < j && us@[jj].0 == u && !defined_in(*body, u, bi as int)),
                decreases us@.len() - j,
            {
                let u = us[j];
                proof {
                    assert(us@.contains(u));
                    let kk = choose|kk: int|
                        0 <= kk < operands(body.instructions@[iid.0 as int]).len()
                            && operands(body.instructions@[iid.0 as int])[kk] == u;
                    assert(u.0 < n);
                }
                let here = match defs[u.0 as usize] {
                    Some(t) => t == bi,
                    None => false,
                };
                if !here {
                    r.set(u.0 as usize, true);
                }
                proof {
                    assert forall|uu: int| 0 <= uu < n implies #[trigger] r@[uu] == (r0[uu] || exists|jj: int|
                        0 <= jj < j + 1 && us@[jj].0 == uu && !defined_in(*body, uu, bi as int)) by {
                        if uu == u.0 && !here {
                            assert(us@[j as int].0 == uu);
                        }
                        if exists|jj: int| 0 <= jj < j + 1 && us@[jj].0 == uu && !defined_in(*body, uu, bi as int) {
                            let jj = choose|jj: int| 0 <= jj < j + 1 && us@[jj].0 == uu && !defined_in(*body, uu, bi as int);
                            if jj < j {
                                assert(exists|j2: int| 0 <= j2 < j && us@[j2].0 == uu && !defined_in(*body, uu, bi as int));
                            }
                        }
                    }
                }
                j += 1;
            }
            proof {
                assert forall|u: int| 0 <= u < n implies #[trigger] r@[u] == ((exists|b2: int, k2: int| b2 < bi && used_across(*body, u, b2, k2))
                    || exists|k2: int| k2 < k + 1 && used_across(*body, u, bi as int, k2)) by {
                    let e1 = exists|jj: int| 0 <= jj < us@.len() && us@[jj].0 == u && !defined_in(*body, u, bi as int);
                    assert(e1 == used_across(*body, u, bi as int, k as int)) by {
                        if e1 {
                            let jj = choose|jj: int| 0 <= jj < us@.len() && us@[jj].0 == u && !defined_in(*body, u, bi as int);
                            assert(us@.contains(us@[jj]));
                            assert(us@[jj] == InstId(u as u32));
                        }
                        if used_across(*body, u, bi as int, k as int) {
                            assert(us@.contains(InstId(u as u32)));
                            let jj = choose|jj: int| 0 <= jj < us@.len() && us@[jj] == InstId(u as u32);
                            assert(us@[jj].0 == u);
                        }
                    }
                    if exists|k2: int| k2 < k + 1 && used_across(*body, u, bi as int, k2) {
                        let k2 = choose|k2: int| k2 < k + 1 && used_across(*body, u, bi as int, k2);
                        if k2 < k {
                            assert(exists|k3: int| k3 < k && used_across(*body, u, bi as int, k3));
                        }
                    }
                    if exists|k3: int| k3 < k && used_across(*body, u, bi as int, k3) {
                        let k3 = choose|k3: int| k3 < k && used_across(*body, u, bi as int, k3);
                        assert(k3 < k + 1 && used_across(*body, u, bi as int, k3));
                    }
                }
            }
            k += 1;
        }
        proof {
            assert forall|u: int| 0 <= u < n implies #[trigger] r@[u] == exists|b2: int, k2: int| b2 < bi + 1 && used_across(*body, u, b2, k2) by {
                if exists|b2: int, k2: int| b2 < bi + 1 && used_across(*body, u, b2, k2) {
                    let (b2, k2) = choose|b2: int, k2: int| b2 < bi + 1 && used_across(*body, u, b2, k2);
                    if b2 < bi {
                        assert(exists|b3: int, k3: int| b3 < bi && used_across(*body, u, b3, k3));
                    } else {
                        assert(k2 < s@.len());
                        assert(exists|k3: int| k3 < k && used_across(*body, u, bi as int, k3));
                    }
                }
                if exists|k3: int| k3 < k && used_across(*body, u, bi as int, k3) {
                    let k3 = choose|k3: int| k3 < k && used_across(*body, u, bi as int, k3);
                    assert(bi < bi + 1 && used_across(*body, u, bi as int, k3));
                }
                if exists|b3: int, k3: int| b3 < bi && used_across(*body, u, b3, k3) {
                    let (b3, k3) = choose|b3: int, k3: int| b3 < bi && used_across(*body, u, b3, k3);
                    assert(b3 < bi + 1 && used_across(*body, u, b3, k3));
                }
            }
        }
        bi += 1;
    }
    proof {
        assert forall|u: int| 0 <= u < r@.len() implies #[trigger] r@[u] == exists|b2: int, k: int| used_across(*body, u, b2, k) by {
            if exists|b2: int, k: int| used_across(*body, u, b2, k) {
                let (b2, k) = choose|b2: int, k: int| used_across(*body, u, b2, k);
                assert(b2 < nb && used_across(*body, u, b2, k));
            }
        }
    }
    r
}

/// Folding replaces a binary operation on two integer constants by the value the operation
/// gives on the left constant and the right one, in that order: an integer or a bool constant.
/// An operation that faults (an overflowing sum, a division by zero, a bad shift) or divides
/// into a float stays as it is, to fault or divide at run time, and so does every instruction
/// that is not such an operation.
#[verifier::spinoff_prover]
pub proof fn lemma_fold_keeps_value(a: Body, b: Body, m: bool, i: int)
    requires
        fold_constants_step(a, b, m),
        0 <= i < a.instructions@.len(),
    ensures
        a.instructions@[i] matches Inst::BinOp { left, op, right, .. } ==> a.instructions@[left.0 as int] matches Inst::Constant(
            Constant::Int(x),
        ) ==> a.instructions@[right.0 as int] matches Inst::Constant(Constant::Int(y)) ==> b.instructions@[i] == match spec_eval_int(
            op,
            x,
            y,
        ) {
            Ok(Scalar::Int(v)) => Inst::Constant(Constant::Int(v)),
            Ok(Scalar::Bool(v)) => Inst::Constant(Constant::Bool(v)),
            _ => a.instructions@[i],
        },
        !(a.instructions@[i] is BinOp) ==> b.instructions@[i] == a.instructions@[i],
{
    lemma_fold_at(a, b, m, i);
    let ins = a.instructions@[i];
    if let Inst::BinOp { left, op, right, .. } = ins {
        if let (Inst::Constant(Constant::Int(x)), Inst::Constant(Constant::Int(y))) = (
            a.instructions@[left.0 as int],
            a.instructions@[right.0 as int],
        ) {
            let r = spec_eval_int(op, x, y);
            assert(int_fold(a, ins) == match r {
                Ok(Scalar::Int(v)) => Some(Scalar::Int(v)),
                Ok(Scalar::Bool(v)) => Some(Scalar::Bool(v)),
                _ => None::<Scalar>,
            });
            match r {
                Ok(Scalar::Int(v)) => {
                    assert(folded_inst(Scalar::Int(v)) == Inst::Constant(Constant::Int(v)));
                },
                Ok(Scalar::Bool(v)) => {
                    assert(folded_inst(Scalar::Bool(v)) == Inst::Constant(Constant::Bool(v)));
                },
                _ => {},
            }
        }
    }
}

proof fn lemma_fold_at(a: Body, b: Body, m: bool, i: int)
    requires
        fold_constants_step(a, b, m),
        0 <= i < a.instructions@.len(),
    ensures
        b.instructions@[i] == match int_fold(a, a.instructions@[i]) {
            Some(s) => folded_inst(s),
            None => a.instructions@[i],
        },
{
    reveal(fold_constants_step);
}

} // verus!
