//! Whether a `match` can dispatch through a jump table, and the table: each case's pattern tag
//! (an enum variant's layout, or a small integer) mapped to the case's block.
use vstd::prelude::*;

use crate::ids::BlockId;

verus! {

/// One alternative of a case's pattern, as a jump table sees it: an integer literal, a variant
/// or struct pattern of a known layout with the slots it binds (each a field's slot and the
/// binding's declaration), or anything else.
pub enum AltShape {
    Int(i64),
    Adt(u32, Vec<(u32, u32)>),
    Other,
}

/// A case of a `match`: whether it has a guard, whether its pattern is a bare binding that
/// catches everything, and the alternatives of its pattern (one unless it is an or-pattern).
pub struct CaseShape {
    pub guarded: bool,
    pub catch_all: bool,
    pub alts: Vec<AltShape>,
}

/// The tag an alternative dispatches on and what it binds: an integer in `0..u32::MAX` is its
/// own tag and binds nothing.
pub open spec fn arm_of(a: AltShape) -> Option<(u32, Seq<(u32, u32)>)> {
    match a {
        AltShape::Int(i) => if 0 <= i < u32::MAX {
            Some((i as u32, Seq::empty()))
        } else {
            None
        },
        AltShape::Adt(t, b) => Some((t, b@)),
        AltShape::Other => None,
    }
}

/// Two alternatives bind the same: the same bindings, in any order.
pub open spec fn same_binds(a: Seq<(u32, u32)>, b: Seq<(u32, u32)>) -> bool {
    a.len() == b.len() && forall|i: int| 0 <= i < a.len() ==> b.contains(#[trigger] a[i])
}

/// The tags taken so far.
pub open spec fn tags(tagged: Seq<(u32, BlockId)>) -> Seq<u32> {
    tagged.map_values(|e: (u32, BlockId)| e.0)
}

/// The alternatives of one case, in order, added to `tagged` with the case's block `b`; `None`
/// where one has no tag, binds differently from the one before, or repeats a tag.
pub open spec fn alts_plan(alts: Seq<AltShape>, tagged: Seq<(u32, BlockId)>, b: BlockId) -> Option<(Seq<(u32, BlockId)>, Option<Seq<(u32, u32)>>)>
    decreases alts.len(),
{
    if alts.len() == 0 {
        Some((tagged, None))
    } else {
        match alts_plan(alts.drop_last(), tagged, b) {
            None => None,
            Some((tg, binds)) => match arm_of(alts.last()) {
                None => None,
                Some((tag, ab)) => if (binds matches Some(bb) && !same_binds(bb, ab)) || tags(tg).contains(tag) {
                    None
                } else {
                    Some((tg.push((tag, b)), Some(ab)))
                },
            },
        }
    }
}

/// The cases, in order, with their blocks: the tags and the block of each, and the catch-all
/// case's block. `None` where a case follows the catch-all, has a guard, or has an alternative
/// that cannot be a table entry.
pub open spec fn cases_plan(cases: Seq<CaseShape>, blocks: Seq<BlockId>) -> Option<(Seq<(u32, BlockId)>, Option<BlockId>)>
    decreases cases.len(),
{
    if cases.len() == 0 {
        Some((Seq::empty(), None))
    } else {
        match cases_plan(cases.drop_last(), blocks) {
            None => None,
            Some((tagged, default)) => {
                let c = cases.last();
                let b = blocks[cases.len() - 1];
                if default is Some || c.guarded {
                    None
                } else if c.catch_all {
                    Some((tagged, Some(b)))
                } else {
                    match alts_plan(c.alts@, tagged, b) {
                        None => None,
                        Some((tg, _)) => Some((tg, None)),
                    }
                }
            },
        }
    }
}

/// The least tag.
pub open spec fn least(t: Seq<u32>) -> u32
    decreases t.len(),
{
    if t.len() <= 1 {
        t[0]
    } else if t.last() < least(t.drop_last()) {
        t.last()
    } else {
        least(t.drop_last())
    }
}

/// The greatest tag.
pub open spec fn greatest(t: Seq<u32>) -> u32
    decreases t.len(),
{
    if t.len() <= 1 {
        t[0]
    } else if t.last() > greatest(t.drop_last()) {
        t.last()
    } else {
        greatest(t.drop_last())
    }
}

/// A table is worth it: it spans at most 256 tags, and beyond 64 only where it is more than a
/// quarter full.
pub open spec fn worth_it(span: int, entries: int) -> bool {
    !(span > 256 || (span <= entries * 4 && span > 64))
}

/// The jump table: for each tag from `base`, the block of the case with that tag, else
/// `default`.
pub open spec fn table_of(tagged: Seq<(u32, BlockId)>, base: u32, span: nat, default: BlockId) -> Seq<BlockId> {
    Seq::new(span, |k: int| if exists|j: int| 0 <= j < tagged.len() && tagged[j].0 == base + k {
        tagged[choose|j: int| 0 <= j < tagged.len() && tagged[j].0 == base + k].1
    } else {
        default
    })
}

/// The jump table for a `match`, if it can have one: its base tag, its blocks from the base on,
/// and its default (the catch-all case, else `fallthrough`).
pub open spec fn switch_plan(cases: Seq<CaseShape>, blocks: Seq<BlockId>, fallthrough: BlockId) -> Option<(u32, Seq<BlockId>, BlockId)> {
    match cases_plan(cases, blocks) {
        None => None,
        Some((tagged, default)) => if tagged.len() == 0 {
            None
        } else {
            let base = least(tags(tagged));
            let span = greatest(tags(tagged)) - base + 1;
            if worth_it(span, tagged.len() as int) {
                let d = match default {
                    Some(b) => b,
                    None => fallthrough,
                };
                Some((base, table_of(tagged, base, span as nat, d), d))
            } else {
                None
            }
        },
    }
}

/// No alternative binds the same thing twice (a field is bound once).
pub open spec fn binds_distinct(cases: Seq<CaseShape>) -> bool {
    forall|i: int, k: int|
        0 <= i < cases.len() && 0 <= k < cases[i].alts@.len() ==> (#[trigger] cases[i].alts@[k] matches AltShape::Adt(
            _,
            b,
        ) ==> b@.no_duplicates())
}

proof fn lemma_cases_none(cases: Seq<CaseShape>, blocks: Seq<BlockId>, i: int)
    requires
        0 <= i <= cases.len(),
        cases_plan(cases.take(i), blocks) is None,
    ensures
        cases_plan(cases, blocks) is None,
    decreases cases.len() - i,
{
    if i < cases.len() {
        assert(cases.take(i + 1).drop_last() =~= cases.take(i));
        lemma_cases_none(cases, blocks, i + 1);
    } else {
        assert(cases.take(i) =~= cases);
    }
}

proof fn lemma_alts_none(alts: Seq<AltShape>, tagged: Seq<(u32, BlockId)>, b: BlockId, k: int)
    requires
        0 <= k <= alts.len(),
        alts_plan(alts.take(k), tagged, b) is None,
    ensures
        alts_plan(alts, tagged, b) is None,
    decreases alts.len() - k,
{
    if k < alts.len() {
        assert(alts.take(k + 1).drop_last() =~= alts.take(k));
        lemma_alts_none(alts, tagged, b, k + 1);
    } else {
        assert(alts.take(k) =~= alts);
    }
}

proof fn lemma_bounds(t: Seq<u32>)
    requires
        t.len() >= 1,
    ensures
        forall|i: int| 0 <= i < t.len() ==> least(t) <= #[trigger] t[i] <= greatest(t),
    decreases t.len(),
{
    if t.len() > 1 {
        lemma_bounds(t.drop_last());
        assert forall|i: int| 0 <= i < t.len() implies least(t) <= #[trigger] t[i] <= greatest(t) by {
            if i < t.len() - 1 {
                assert(t[i] == t.drop_last()[i]);
            }
        }
    }
}

/// Whether the alternative at `a` binds what the one at `b` binds (see [`same_binds`]).
fn binds_agree(a: &Vec<(u32, u32)>, b: &Vec<(u32, u32)>) -> (r: bool)
    ensures
        r == same_binds(a@, b@),
{
    if a.len() != b.len() {
        return false;
    }
    let mut i: usize = 0;
    while i < a.len()
        invariant
            i <= a@.len(),
            a@.len() == b@.len(),
            forall|x: int| 0 <= x < i ==> b@.contains(#[trigger] a@[x]),
        decreases a@.len() - i,
    {
        let mut j: usize = 0;
        let mut found = false;
        while j < b.len()
            invariant
                j <= b@.len(),
                i < a@.len(),
                found ==> b@.contains(a@[i as int]),
                !found ==> forall|y: int| 0 <= y < j ==> b@[y] != a@[i as int],
            decreases b@.len() - j,
        {
            if a[i].0 == b[j].0 && a[i].1 == b[j].1 {
                found = true;
                assert(b@[j as int] == a@[i as int]);
            }
            j += 1;
        }
        if !found {
            proof {
                if b@.contains(a@[i as int]) {
                    let y = choose|y: int| 0 <= y < b@.len() && b@[y] == a@[i as int];
                    assert(b@[y] != a@[i as int]);
                }
            }
            return false;
        }
        i += 1;
    }
    true
}

/// Whether `tag` is taken already.
fn taken(tagged: &Vec<(u32, BlockId)>, tag: u32) -> (r: bool)
    ensures
        r == tags(tagged@).contains(tag),
{
    let mut j: usize = 0;
    while j < tagged.len()
        invariant
            j <= tagged@.len(),
            forall|y: int| 0 <= y < j ==> tagged@[y].0 != tag,
        decreases tagged@.len() - j,
    {
        if tagged[j].0 == tag {
            assert(tags(tagged@)[j as int] == tag);
            return true;
        }
        j += 1;
    }
    proof {
        if tags(tagged@).contains(tag) {
            let y = choose|y: int| 0 <= y < tags(tagged@).len() && tags(tagged@)[y] == tag;
            assert(tagged@[y].0 == tag);
        }
    }
    false
}

/// The tag of an alternative and where its bindings are (see [`arm_of`]).
fn arm(a: &AltShape) -> (r: Option<u32>)
    ensures
        r matches Some(t) ==> arm_of(*a) matches Some((u, _)) && u == t,
        r is None ==> arm_of(*a) is None,
{
    match a {
        AltShape::Int(i) => if 0 <= *i && *i < u32::MAX as i64 {
            Some(*i as u32)
        } else {
            None
        },
        AltShape::Adt(t, _) => Some(*t),
        AltShape::Other => None,
    }
}

fn binds_of(a: &AltShape) -> (r: Vec<(u32, u32)>)
    ensures
        arm_of(*a) matches Some((_, b)) ==> r@ == b,
{
    match a {
        AltShape::Adt(_, b) => {
            let mut r: Vec<(u32, u32)> = Vec::new();
            let mut i: usize = 0;
            while i < b.len()
                invariant
                    i <= b@.len(),
                    r@ == b@.take(i as int),
                decreases b@.len() - i,
            {
                r.push(b[i]);
                i += 1;
                assert(r@ =~= b@.take(i as int));
            }
            assert(b@.take(i as int) =~= b@);
            r
        },
        _ => Vec::new(),
    }
}

/// Plans the jump table of a `match` whose cases are `cases` with blocks `blocks` (see
/// [`switch_plan`]): `None` where the match has to test its cases one after another.
pub fn plan_switch(cases: &Vec<CaseShape>, blocks: &Vec<BlockId>, fallthrough: BlockId) -> (r: Option<(u32, Vec<BlockId>, BlockId)>)
    requires
        blocks@.len() == cases@.len(),
        binds_distinct(cases@),
    ensures
        match switch_plan(cases@, blocks@, fallthrough) {
            None => r is None,
            Some((base, table, d)) => r matches Some((b2, t2, d2)) && b2 == base && t2@ == table && d2 == d,
        },
{
    let mut tagged: Vec<(u32, BlockId)> = Vec::new();
    let mut default: Option<BlockId> = None;
    let mut i: usize = 0;
    while i < cases.len()
        invariant
            i <= cases@.len(),
            blocks@.len() == cases@.len(),
            cases_plan(cases@.take(i as int), blocks@) == Some((tagged@, default)),
            tags(tagged@).no_duplicates(),
        decreases cases@.len() - i,
    {
        proof {
            assert(cases@.take(i + 1).drop_last() =~= cases@.take(i as int));
            assert(cases@.take(i + 1).last() == cases@[i as int]);
        }
        let c = &cases[i];
        let b = blocks[i];
        if default.is_some() || c.guarded {
            proof { lemma_cases_none(cases@, blocks@, i + 1); }
            return None;
        }
        if c.catch_all {
            default = Some(b);
        } else {
            let ghost start = tagged@;
            let mut prev: Option<Vec<(u32, u32)>> = None;
            let mut k: usize = 0;
            while k < c.alts.len()
                invariant
                    i < cases@.len(),
                    blocks@.len() == cases@.len(),
                    *c == cases@[i as int],
                    b == blocks@[i as int],
                    default is None,
                    !c.guarded,
                    !c.catch_all,
                    cases_plan(cases@.take(i as int), blocks@) == Some((start, default)),
                    cases@.take(i + 1).drop_last() == cases@.take(i as int),
                    cases@.take(i + 1).last() == cases@[i as int],
                    k <= c.alts@.len(),
                    alts_plan(c.alts@.take(k as int), start, b) == Some((tagged@, match prev {
                        Some(v) => Some(v@),
                        None => None::<Seq<(u32, u32)>>,
                    })),
                    tags(tagged@).no_duplicates(),
                decreases c.alts@.len() - k,
            {
                proof {
                    assert(c.alts@.take(k + 1).drop_last() =~= c.alts@.take(k as int));
                    assert(c.alts@.take(k + 1).last() == c.alts@[k as int]);
                }
                let a = &c.alts[k];
                let tag = match arm(a) {
                    Some(t) => t,
                    None => {
                        proof {
                            lemma_alts_none(c.alts@, start, b, k + 1);
                            lemma_cases_none(cases@, blocks@, i + 1);
                        }
                        return None;
                    },
                };
                let ab = binds_of(a);
                let differs = match &prev {
                    Some(p) => !binds_agree(p, &ab),
                    None => false,
                };
                if differs || taken(&tagged, tag) {
                    proof {
                        lemma_alts_none(c.alts@, start, b, k + 1);
                        lemma_cases_none(cases@, blocks@, i + 1);
                    }
                    return None;
                }
                let ghost before = tagged@;
                tagged.push((tag, b));
                proof {
                    assert(tags(tagged@) =~= tags(before).push(tag));
                }
                prev = Some(ab);
                k += 1;
            }
            assert(c.alts@.take(k as int) =~= c.alts@);
        }
        i += 1;
    }
    assert(cases@.take(i as int) =~= cases@);
    if tagged.len() == 0 {
        return None;
    }
    let ghost t = tags(tagged@);
    let mut base: u32 = tagged[0].0;
    let mut max: u32 = tagged[0].0;
    let mut m: usize = 1;
    proof {
        assert(t.take(1).len() == 1);
    }
    while m < tagged.len()
        invariant
            1 <= m <= tagged@.len(),
            t == tags(tagged@),
            base == least(t.take(m as int)),
            max == greatest(t.take(m as int)),
        decreases tagged@.len() - m,
    {
        proof {
            assert(t.take(m + 1).drop_last() =~= t.take(m as int));
            assert(t.take(m + 1).last() == t[m as int]);
        }
        let v = tagged[m].0;
        if v < base {
            base = v;
        }
        if v > max {
            max = v;
        }
        m += 1;
    }
    proof {
        assert(t.take(m as int) =~= t);
        lemma_bounds(t);
        assert(base <= t[0] <= max);
    }
    let span: u64 = (max - base) as u64 + 1;
    if span > 256 {
        return None;
    }
    let quarter_full = if tagged.len() >= 64 { true } else { span <= (tagged.len() as u64) * 4 };
    if quarter_full && span > 64 {
        return None;
    }
    let d = match default {
        Some(b) => b,
        None => fallthrough,
    };
    let mut table: Vec<BlockId> = Vec::new();
    while (table.len() as u64) < span
        invariant
            span <= 256,
            table@.len() <= span,
            forall|k: int| 0 <= k < table@.len() ==> table@[k] == d,
        decreases span - table@.len(),
    {
        table.push(d);
    }
    let mut j: usize = 0;
    while j < tagged.len()
        invariant
            j <= tagged@.len(),
            t == tags(tagged@),
            t.no_duplicates(),
            table@.len() == span,
            span == max - base + 1,
            forall|x: int| 0 <= x < t.len() ==> base <= #[trigger] t[x] <= max,
            forall|k: int| 0 <= k < span ==> #[trigger] table@[k] == if exists|y: int| 0 <= y < j && tagged@[y].0 == base + k {
                tagged@[choose|y: int| 0 <= y < j && tagged@[y].0 == base + k].1
            } else {
                d
            },
        decreases tagged@.len() - j,
    {
        let (tag, blk) = tagged[j];
        assert(t[j as int] == tag);
        let ghost old_table = table@;
        table.set((tag - base) as usize, blk);
        proof {
            assert forall|k: int| 0 <= k < span implies #[trigger] table@[k] == if exists|y: int| 0 <= y < j + 1 && tagged@[y].0 == base + k {
                tagged@[choose|y: int| 0 <= y < j + 1 && tagged@[y].0 == base + k].1
            } else {
                d
            } by {
                if k == tag - base {
                    let y = choose|y: int| 0 <= y < j + 1 && tagged@[y].0 == base + k;
                    assert(tagged@[j as int].0 == base + k);
                    assert(t[y] == t[j as int]);
                    assert(y == j);
                    if exists|y: int| 0 <= y < j && tagged@[y].0 == base + k {
                        let z = choose|y: int| 0 <= y < j && tagged@[y].0 == base + k;
                        assert(t[z] == t[j as int]);
                    }
                } else {
                    assert(table@[k] == old_table[k]);
                    if exists|y: int| 0 <= y < j + 1 && tagged@[y].0 == base + k {
                        let y = choose|y: int| 0 <= y < j + 1 && tagged@[y].0 == base + k;
                        assert(y != j);
                        assert(exists|z: int| 0 <= z < j && tagged@[z].0 == base + k);
                        let z = choose|z: int| 0 <= z < j && tagged@[z].0 == base + k;
                        assert(t[z] == t[y]);
                    }
                }
            }
        }
        j += 1;
    }
    proof {
        let want = table_of(tagged@, base, span as nat, d);
        assert forall|k: int| 0 <= k < span implies table@[k] == want[k] by {
            if exists|y: int| 0 <= y < tagged@.len() && tagged@[y].0 == base + k {
                let y = choose|y: int| 0 <= y < tagged@.len() && tagged@[y].0 == base + k;
                let z = choose|z: int| 0 <= z < j && tagged@[z].0 == base + k;
                assert(t[z] == t[y]);
            }
        }
        assert(table@ =~= want);
    }
    Some((base, table, d))
}

/// The tag of an alternative that has one.
pub open spec fn arm_tag(a: AltShape) -> u32 {
    match arm_of(a) {
        Some((t, _)) => t,
        None => 0,
    }
}

/// What one case's alternatives add to the table so far: one entry each, in order, with the
/// alternative's tag and the case's block, keeping the tags apart.
proof fn lemma_alts_plan(alts: Seq<AltShape>, tagged: Seq<(u32, BlockId)>, b: BlockId)
    ensures
        alts_plan(alts, tagged, b) matches Some((tg, _)) ==> {
            &&& tg.len() == tagged.len() + alts.len()
            &&& forall|y: int| 0 <= y < tagged.len() ==> tg[y] == tagged[y]
            &&& forall|k: int| 0 <= k < alts.len() ==> arm_of(#[trigger] alts[k]) is Some && tg[tagged.len() + k] == (
                arm_tag(alts[k]),
                b,
            )
            &&& tags(tagged).no_duplicates() ==> tags(tg).no_duplicates()
        },
    decreases alts.len(),
{
    if alts.len() > 0 {
        lemma_alts_plan(alts.drop_last(), tagged, b);
        if let Some((tg, _)) = alts_plan(alts, tagged, b) {
            let (tg0, _) = alts_plan(alts.drop_last(), tagged, b)->0;
            let (tag, _) = arm_of(alts.last())->0;
            assert(tg == tg0.push((tag, b)));
            assert forall|k: int| 0 <= k < alts.len() implies arm_of(#[trigger] alts[k]) is Some && tg[tagged.len() + k] == (
                arm_tag(alts[k]),
                b,
            ) by {
                if k < alts.len() - 1 {
                    assert(alts.drop_last()[k] == alts[k]);
                }
            }
            if tags(tagged).no_duplicates() {
                assert(tags(tg) =~= tags(tg0).push(tag));
                assert(!tags(tg0).contains(tag));
            }
        }
    }
}

/// What the cases add up to: every alternative of a case that is not the catch-all has its tag
/// in the table with its case's block; every entry comes from a case; the tags are apart; the
/// catch-all is the last case and gives the default; no case has a guard.
proof fn lemma_cases_plan(cases: Seq<CaseShape>, blocks: Seq<BlockId>)
    requires
        blocks.len() >= cases.len(),
    ensures
        cases_plan(cases, blocks) matches Some((tagged, default)) ==> {
            &&& forall|i: int, k: int|
                0 <= i < cases.len() && 0 <= k < cases[i].alts@.len() && !cases[i].catch_all ==> arm_of(
                    #[trigger] cases[i].alts@[k],
                ) is Some && exists|y: int|
                    0 <= y < tagged.len() && #[trigger] tagged[y] == (arm_tag(cases[i].alts@[k]), blocks[i])
            &&& forall|y: int| 0 <= y < tagged.len() ==> exists|i: int| 0 <= i < cases.len() && #[trigger] tagged[y].1 == blocks[i]
            &&& tags(tagged).no_duplicates()
            &&& forall|i: int| 0 <= i < cases.len() ==> !(#[trigger] cases[i]).guarded
            &&& forall|i: int| 0 <= i < cases.len() && (#[trigger] cases[i]).catch_all ==> i == cases.len() - 1 && default
                == Some(blocks[i])
            &&& default is Some ==> cases.len() > 0 && cases[cases.len() - 1].catch_all
        },
    decreases cases.len(),
{
    if cases.len() > 0 {
        let n = cases.len() - 1;
        lemma_cases_plan(cases.drop_last(), blocks);
        if let Some((tagged, default)) = cases_plan(cases, blocks) {
            let (t0, d0) = cases_plan(cases.drop_last(), blocks)->0;
            let c = cases.last();
            assert(c == cases[n]);
            assert forall|i: int| 0 <= i < n implies cases.drop_last()[i] == #[trigger] cases[i] by {}
            if !c.catch_all {
                lemma_alts_plan(c.alts@, t0, blocks[n]);
                let (tg, _) = alts_plan(c.alts@, t0, blocks[n])->0;
                assert(tagged == tg);
                assert forall|i: int, k: int|
                    0 <= i < cases.len() && 0 <= k < cases[i].alts@.len() && !cases[i].catch_all implies arm_of(
                        #[trigger] cases[i].alts@[k],
                    ) is Some && exists|y: int|
                        0 <= y < tagged.len() && #[trigger] tagged[y] == (arm_tag(cases[i].alts@[k]), blocks[i]) by {
                    if i < n {
                        assert(cases.drop_last()[i] == cases[i]);
                        let y = choose|y: int| 0 <= y < t0.len() && #[trigger] t0[y] == (arm_tag(cases[i].alts@[k]), blocks[i]);
                        assert(tagged[y] == t0[y]);
                    } else {
                        assert(tagged[t0.len() + k] == (arm_tag(c.alts@[k]), blocks[n]));
                    }
                }
                assert forall|y: int| 0 <= y < tagged.len() implies exists|i: int| 0 <= i < cases.len() && #[trigger] tagged[y].1 == blocks[i] by {
                    if y < t0.len() {
                        assert(tagged[y] == t0[y]);
                        let i = choose|i: int| 0 <= i < n && #[trigger] t0[y].1 == blocks[i];
                        assert(tagged[y].1 == blocks[i]);
                    } else {
                        let k = y - t0.len();
                        assert(arm_of(c.alts@[k]) is Some);
                        assert(tagged[t0.len() + k].1 == blocks[n]);
                    }
                }
            } else {
                assert(tagged == t0);
                assert forall|y: int| 0 <= y < tagged.len() implies exists|i: int| 0 <= i < cases.len() && #[trigger] tagged[y].1 == blocks[i] by {
                    let i = choose|i: int| 0 <= i < n && #[trigger] t0[y].1 == blocks[i];
                }
                assert forall|i: int, k: int|
                    0 <= i < cases.len() && 0 <= k < cases[i].alts@.len() && !cases[i].catch_all implies arm_of(
                        #[trigger] cases[i].alts@[k],
                    ) is Some && exists|y: int|
                        0 <= y < tagged.len() && #[trigger] tagged[y] == (arm_tag(cases[i].alts@[k]), blocks[i]) by {
                    assert(cases.drop_last()[i] == cases[i]);
                }
            }
        }
    }
}

/// A planned jump table sends each tag of a case to that case's block, and every other slot to
/// the default; the default is the catch-all case's block where there is one, else
/// `fallthrough`; no planned match has a guard.
pub proof fn lemma_switch_routes(cases: Seq<CaseShape>, blocks: Seq<BlockId>, fallthrough: BlockId)
    requires
        blocks.len() == cases.len(),
    ensures
        switch_plan(cases, blocks, fallthrough) matches Some((base, table, d)) ==> {
            &&& forall|i: int, k: int|
                0 <= i < cases.len() && 0 <= k < cases[i].alts@.len() && !cases[i].catch_all ==> arm_of(
                    #[trigger] cases[i].alts@[k],
                ) is Some && base <= arm_tag(cases[i].alts@[k]) < base + table.len() && table[arm_tag(cases[i].alts@[k]) - base]
                    == blocks[i]
            &&& forall|j: int| 0 <= j < table.len() ==> #[trigger] table[j] == d || exists|i: int| 0 <= i < cases.len() && table[j] == blocks[i]
            &&& (exists|i: int| 0 <= i < cases.len() && #[trigger] cases[i].catch_all) ==> exists|i: int|
                0 <= i < cases.len() && cases[i].catch_all && d == blocks[i]
            &&& !(exists|i: int| 0 <= i < cases.len() && #[trigger] cases[i].catch_all) ==> d == fallthrough
            &&& forall|i: int| 0 <= i < cases.len() ==> !(#[trigger] cases[i]).guarded
        },
{
    lemma_cases_plan(cases, blocks);
    if let Some((base, table, d)) = switch_plan(cases, blocks, fallthrough) {
        let (tagged, default) = cases_plan(cases, blocks)->0;
        let t = tags(tagged);
        lemma_bounds(t);
        let span = greatest(t) - base + 1;
        assert(table == table_of(tagged, base, span as nat, d));
        assert forall|i: int, k: int|
            0 <= i < cases.len() && 0 <= k < cases[i].alts@.len() && !cases[i].catch_all implies arm_of(
                #[trigger] cases[i].alts@[k],
            ) is Some && base <= arm_tag(cases[i].alts@[k]) < base + table.len() && table[arm_tag(cases[i].alts@[k]) - base]
                == blocks[i] by {
            let y = choose|y: int| 0 <= y < tagged.len() && #[trigger] tagged[y] == (arm_tag(cases[i].alts@[k]), blocks[i]);
            let tg = tagged[y].0;
            assert(t[y] == tg);
            let j = choose|j: int| 0 <= j < tagged.len() && tagged[j].0 == base + (tg - base);
            assert(t[j] == t[y]);
        }
        assert forall|j: int| 0 <= j < table.len() implies #[trigger] table[j] == d || exists|i: int| 0 <= i < cases.len() && table[j] == blocks[i] by {
            if exists|y: int| 0 <= y < tagged.len() && tagged[y].0 == base + j {
                let y = choose|y: int| 0 <= y < tagged.len() && tagged[y].0 == base + j;
                let i = choose|i: int| 0 <= i < cases.len() && #[trigger] tagged[y].1 == blocks[i];
            }
        }
    }
}

} // verus!
