//! Location tables of compiled code: which source location applies at each byte of a chunk.
use vstd::prelude::*;

use crate::codegen::{code_len, op_size, op_size_of, Chunk};
use crate::ids::Location;
use crate::op::Op;

verus! {

/// The location table of `ops`, laid out one after another from byte 0, where op `i` has
/// location `locs[i]`: an entry `(offset, location)` for the first op, and for each op whose
/// location differs from the last entry's.
pub open spec fn loc_table(ops: Seq<Op>, locs: Seq<Location>) -> Seq<(u32, Location)>
    decreases ops.len(),
{
    if ops.len() == 0 || locs.len() == 0 {
        Seq::empty()
    } else {
        let t = loc_table(ops.drop_last(), locs.drop_last());
        if t.len() > 0 && t.last().1 == locs.last() {
            t
        } else {
            t.push((code_len(ops.drop_last()) as u32, locs.last()))
        }
    }
}

/// The location that applies at byte `ip`: that of the last entry at or before it, or the
/// synthetic location where no entry is.
pub open spec fn loc_at_spec(t: Seq<(u32, Location)>, ip: int) -> Location
    decreases t.len(),
{
    if t.len() == 0 {
        Location::synthetic_spec()
    } else if t.last().0 <= ip {
        t.last().1
    } else {
        loc_at_spec(t.drop_last(), ip)
    }
}

/// The offsets of a table only grow.
pub open spec fn offsets_sorted(t: Seq<(u32, Location)>) -> bool {
    forall|j: int, k: int| 0 <= j < k < t.len() ==> #[trigger] t[j].0 < #[trigger] t[k].0
}

/// The offsets of a table never go down.
pub open spec fn offsets_ordered(t: Seq<(u32, Location)>) -> bool {
    forall|j: int, k: int| 0 <= j <= k < t.len() ==> #[trigger] t[j].0 <= #[trigger] t[k].0
}

/// No entry repeats the location of the entry before it.
pub open spec fn no_repeats(t: Seq<(u32, Location)>) -> bool {
    forall|k: int| 0 < k < t.len() ==> #[trigger] t[k].1 != t[k - 1].1
}

/// A longer prefix of a list of ops takes at least as many bytes, and more when it has more ops.
pub proof fn lemma_code_len_mono(ops: Seq<Op>, i: int, j: int)
    requires
        0 <= i <= j <= ops.len(),
    ensures
        code_len(ops.take(i)) <= code_len(ops.take(j)),
        i < j ==> code_len(ops.take(i)) < code_len(ops.take(j)),
    decreases j - i,
{
    if i < j {
        lemma_code_len_mono(ops, i, j - 1);
        assert(ops.take(j).drop_last() =~= ops.take(j - 1));
    }
}

/// Every entry of the table of non-empty `ops` sits at an op start, so at or before the start
/// of the last op; offsets grow and no entry repeats the location before it.
pub proof fn lemma_loc_table_shape(ops: Seq<Op>, locs: Seq<Location>)
    requires
        locs.len() == ops.len(),
        ops.len() > 0 ==> code_len(ops.drop_last()) <= u32::MAX,
    ensures
        offsets_sorted(loc_table(ops, locs)),
        no_repeats(loc_table(ops, locs)),
        loc_table(ops, locs).len() > 0 ==> loc_table(ops, locs).last().0 <= code_len(ops.drop_last()),
        ops.len() > 0 ==> loc_table(ops, locs).len() > 0,
    decreases ops.len(),
{
    if ops.len() > 0 {
        let pre = ops.drop_last();
        let t = loc_table(pre, locs.drop_last());
        if pre.len() > 0 {
            lemma_code_len_mono(ops, pre.len() - 1, pre.len() as int);
            assert(ops.take(pre.len() - 1) =~= pre.drop_last());
            assert(ops.take(pre.len() as int) =~= pre);
        }
        lemma_loc_table_shape(pre, locs.drop_last());
        let t2 = loc_table(ops, locs);
        if !(t.len() > 0 && t.last().1 == locs.last()) {
            assert(t2 == t.push((code_len(pre) as u32, locs.last())));
            assert forall|j: int, k: int| 0 <= j < k < t2.len() implies #[trigger] t2[j].0 < #[trigger] t2[k].0 by {
                if k == t.len() {
                    assert(t[j].0 <= t.last().0);
                }
            }
        }
    }
}

/// At the first byte of any op, the table gives that op's location: the law the table is for.
pub proof fn lemma_loc_at_op_start(ops: Seq<Op>, locs: Seq<Location>, i: int)
    requires
        locs.len() == ops.len(),
        0 <= i < ops.len(),
        code_len(ops.drop_last()) <= u32::MAX,
    ensures
        loc_at_spec(loc_table(ops, locs), code_len(ops.take(i)) as int) == locs[i],
    decreases ops.len(),
{
    let pre = ops.drop_last();
    let lp = locs.drop_last();
    let t = loc_table(pre, lp);
    let ip = code_len(ops.take(i)) as int;
    assert(ops.take(pre.len() as int) =~= pre);
    if pre.len() > 0 {
        lemma_code_len_mono(ops, pre.len() - 1, pre.len() as int);
        assert(ops.take(pre.len() - 1) =~= pre.drop_last());
    }
    lemma_loc_table_shape(pre, lp);
    if i < pre.len() {
        assert(pre.take(i) =~= ops.take(i));
        lemma_code_len_mono(ops, i, pre.len() - 1);
        assert(ops.take(pre.len() - 1) =~= pre.drop_last());
        lemma_loc_at_op_start(pre, lp, i);
        assert(lp[i] == locs[i]);
        if !(t.len() > 0 && t.last().1 == locs.last()) {
            lemma_code_len_mono(ops, i, pre.len() as int);
            let t2 = t.push((code_len(pre) as u32, locs.last()));
            assert(t2.drop_last() =~= t);
        }
    } else {
        assert(ip == code_len(pre));
        if t.len() > 0 && t.last().1 == locs.last() {
            assert(t.last().0 <= ip);
        } else {
            let t2 = t.push((code_len(pre) as u32, locs.last()));
            assert(t2.last().0 == ip);
        }
    }
}

/// Where the entries before `idx` are at or before `ip` and the rest after it, the location at
/// `ip` is that of entry `idx - 1`, or the synthetic one when `idx` is zero.
proof fn lemma_loc_at_split(t: Seq<(u32, Location)>, ip: int, idx: int)
    requires
        0 <= idx <= t.len(),
        forall|k: int| 0 <= k < idx ==> #[trigger] t[k].0 <= ip,
        forall|k: int| idx <= k < t.len() ==> #[trigger] t[k].0 > ip,
    ensures
        loc_at_spec(t, ip) == if idx == 0 {
            Location::synthetic_spec()
        } else {
            t[idx - 1].1
        },
    decreases t.len(),
{
    if t.len() > idx {
        assert(t.last().0 > ip);
        lemma_loc_at_split(t.drop_last(), ip, idx);
    } else if idx > 0 {
        assert(t.last().0 <= ip);
    }
}

/// The location table of `ops`, where op `i` has location `locs[i]` (see [`loc_table`]);
/// offsets count from the first op. `None` where an op starts past `u32::MAX`.
pub fn loc_table_of(ops: &Vec<Op>, locs: &Vec<Location>) -> (r: Option<Vec<(u32, Location)>>)
    requires
        locs@.len() == ops@.len(),
    ensures
        r matches Some(t) ==> t@ == loc_table(ops@, locs@),
        r is None <==> ops@.len() > 0 && code_len(ops@.drop_last()) > u32::MAX,
{
    let n = ops.len();
    let mut t: Vec<(u32, Location)> = Vec::new();
    let mut off: usize = 0;
    let mut i: usize = 0;
    proof {
        assert(ops@.take(0) =~= Seq::<Op>::empty());
        assert(locs@.take(0) =~= Seq::<Location>::empty());
    }
    while i < n
        invariant
            n == ops@.len(),
            locs@.len() == n,
            i <= n,
            t@ == loc_table(ops@.take(i as int), locs@.take(i as int)),
            i < n ==> off == code_len(ops@.take(i as int)),
            i > 0 ==> code_len(ops@.take(i - 1)) <= u32::MAX,
        decreases n - i,
    {
        if off > u32::MAX as usize {
            proof {
                lemma_code_len_mono(ops@, i as int, n - 1);
                assert(ops@.take(n - 1) =~= ops@.drop_last());
            }
            return None;
        }
        let loc = locs[i];
        let ghost t0 = t@;
        proof {
            assert(ops@.take(i + 1).drop_last() =~= ops@.take(i as int));
            assert(locs@.take(i + 1).drop_last() =~= locs@.take(i as int));
            assert(locs@.take(i + 1).last() == loc);
        }
        let repeat = t.len() > 0 && t[t.len() - 1].1 == loc;
        if !repeat {
            t.push((off as u32, loc));
        }
        i += 1;
        if i < n {
            let size = match op_size_of(&ops[i - 1]) {
                Some(k) => k,
                None => {
                    proof {
                        assert(ops@.take(i as int).drop_last() =~= ops@.take(i - 1));
                        lemma_code_len_mono(ops@, i as int, n - 1);
                        assert(ops@.take(n - 1) =~= ops@.drop_last());
                    }
                    return None;
                },
            };
            off = match off.checked_add(size) {
                Some(o) => o,
                None => {
                    proof {
                        assert(ops@.take(i as int).drop_last() =~= ops@.take(i - 1));
                        lemma_code_len_mono(ops@, i as int, n - 1);
                        assert(ops@.take(n - 1) =~= ops@.drop_last());
                    }
                    return None;
                },
            };
            proof {
                assert(ops@.take(i as int).drop_last() =~= ops@.take(i - 1));
            }
        }
    }
    proof {
        assert(ops@.take(n as int) =~= ops@);
        assert(locs@.take(n as int) =~= locs@);
        if n > 0 {
            assert(ops@.take(n - 1) =~= ops@.drop_last());
        }
    }
    Some(t)
}

impl Chunk {
    /// The location of the code at chunk-relative byte `ip`: that of the last table entry at or
    /// before it, or the synthetic location before the first entry.
    pub fn loc_at(&self, ip: u32) -> (l: Location)
        requires
            offsets_ordered(self.locs@),
        ensures
            l == loc_at_spec(self.locs@, ip as int),
    {
        let mut lo: usize = 0;
        let mut hi: usize = self.locs.len();
        while lo < hi
            invariant
                0 <= lo <= hi <= self.locs@.len(),
                offsets_ordered(self.locs@),
                forall|k: int| 0 <= k < lo ==> #[trigger] self.locs@[k].0 <= ip,
                forall|k: int| hi <= k < self.locs@.len() ==> #[trigger] self.locs@[k].0 > ip,
            decreases hi - lo,
        {
            let mid = lo + (hi - lo) / 2;
            if self.locs[mid].0 <= ip {
                assert forall|k: int| 0 <= k < mid + 1 implies #[trigger] self.locs@[k].0 <= ip by {
                    if k < mid {
                        assert(self.locs@[k].0 <= self.locs@[mid as int].0);
                    }
                }
                lo = mid + 1;
            } else {
                assert forall|k: int| mid <= k < self.locs@.len() implies #[trigger] self.locs@[k].0 > ip by {
                    if k > mid {
                        assert(self.locs@[mid as int].0 <= self.locs@[k].0);
                    }
                }
                hi = mid;
            }
        }
        proof {
            lemma_loc_at_split(self.locs@, ip as int, lo as int);
        }
        if lo == 0 {
            Location::synthetic()
        } else {
            self.locs[lo - 1].1
        }
    }
}

} // verus!
