//! The IR dump: every body, block by block, each instruction with its id.
use vstd::prelude::*;
use vstd::string::{StrSliceExecFns, StringExecFns};

use crate::ids::{BlockId, InstId};
use crate::ir::{body_wf, Body};
use crate::text::{arms_fit, bref, dec, inst_plain_text, inst_text, strs_cover};

verus! {

/// Texts one after another, each on a line of its own.
pub open spec fn lines(items: Seq<Seq<char>>) -> Seq<char>
    decreases items.len(),
{
    if items.len() == 0 {
        Seq::empty()
    } else if items.len() == 1 {
        items[0]
    } else {
        lines(items.drop_last()) + "\n"@ + items.last()
    }
}

/// Every instruction of a body can be written: its strings are in `strs`, a switch's arm values
/// fit `u32`.
pub open spec fn writable(b: Body, strs: Seq<String>) -> bool {
    forall|i: int| 0 <= i < b.instructions@.len() ==> strs_cover(#[trigger] b.instructions@[i], strs.len()) && arms_fit(
        b.instructions@[i],
    )
}

/// Every instruction in a block of the body has a text (none is a float constant).
pub open spec fn has_text(b: Body, strs: Seq<String>) -> bool {
    forall|bi: int, k: int|
        0 <= bi < b.blocks@.len() && 0 <= k < b.blocks@[bi].stream@.len() ==> inst_plain_text(
            b.instructions@[(#[trigger] b.blocks@[bi].stream@[k]).0 as int],
            strs,
        ) is Some
}

/// An instruction's line: `    [ i3 ] add i1, i2 (Int)`.
pub open spec fn inst_line(b: Body, i: InstId, strs: Seq<String>) -> Seq<char> {
    "    [ i"@ + dec(i.0 as nat) + " ] "@ + inst_plain_text(b.instructions@[i.0 as int], strs)->0
}

/// A block: its name, then its instructions' lines.
pub open spec fn block_text(b: Body, bi: int, strs: Seq<String>) -> Seq<char> {
    let s = b.blocks@[bi].stream@;
    if s.len() == 0 {
        bref(BlockId(bi as u32)) + ":"@
    } else {
        bref(BlockId(bi as u32)) + ":\n"@ + lines(s.map_values(|i: InstId| inst_line(b, i, strs)))
    }
}

/// A body: `body @k` for any body but the first, then its blocks.
pub open spec fn body_text(b: Body, k: nat, strs: Seq<String>) -> Seq<char> {
    let blocks = Seq::new(b.blocks@.len(), |bi: int| block_text(b, bi, strs));
    if k == 0 {
        lines(blocks)
    } else {
        lines(seq!["body @"@ + dec(k)] + blocks)
    }
}

/// The IR dump of a program's bodies: each body's text, one after another.
pub open spec fn ir_dump(bodies: Seq<Body>, strs: Seq<String>) -> Seq<char> {
    lines(Seq::new(bodies.len(), |k: int| body_text(bodies[k], k as nat, strs)))
}

proof fn lemma_views_push(texts: Seq<String>, t: String)
    ensures
        texts.push(t).map_values(|x: String| x@) == texts.map_values(|x: String| x@).push(t@),
{
    assert(texts.push(t).map_values(|x: String| x@) =~= texts.map_values(|x: String| x@).push(t@));
}

/// `texts` one after another, each on a line of its own.
pub(crate) fn join_lines(texts: &Vec<String>) -> (s: String)
    ensures
        s@ == lines(texts@.map_values(|x: String| x@)),
{
    let mut s = String::new();
    let mut i: usize = 0;
    while i < texts.len()
        invariant
            i <= texts@.len(),
            s@ == lines(texts@.take(i as int).map_values(|x: String| x@)),
        decreases texts@.len() - i,
    {
        let ghost prev = texts@.take(i as int).map_values(|x: String| x@);
        let ghost next = texts@.take(i + 1).map_values(|x: String| x@);
        proof {
            assert(next =~= prev.push(texts@[i as int]@));
            assert(next.drop_last() =~= prev);
        }
        if i > 0 {
            s.append("\n");
        }
        s.append(texts[i].as_str());
        i += 1;
    }
    assert(texts@.take(i as int) =~= texts@);
    s
}

/// The text of block `bi` of `b` (see [`block_text`]); `None` where an instruction in it has
/// none.
fn block_dump(b: &Body, bi: usize, strs: &Vec<String>) -> (r: Option<String>)
    requires
        body_wf(*b),
        bi < b.blocks@.len(),
        writable(*b, strs@),
    ensures
        r matches Some(x) ==> x@ == block_text(*b, bi as int, strs@),
        r is Some <==> forall|k: int| 0 <= k < b.blocks@[bi as int].stream@.len() ==> inst_plain_text(
            b.instructions@[(#[trigger] b.blocks@[bi as int].stream@[k]).0 as int],
            strs@,
        ) is Some,
{
    let s = &b.blocks[bi].stream;
    let mut texts: Vec<String> = Vec::new();
    let mut k: usize = 0;
    while k < s.len()
        invariant
            body_wf(*b),
            bi < b.blocks@.len(),
            writable(*b, strs@),
            *s == b.blocks@[bi as int].stream,
            k <= s@.len(),
            texts@.map_values(|x: String| x@) == s@.take(k as int).map_values(|i: InstId| inst_line(*b, i, strs@)),
            forall|q: int| 0 <= q < k ==> inst_plain_text(b.instructions@[(#[trigger] s@[q]).0 as int], strs@) is Some,
        decreases s@.len() - k,
    {
        let iid = s[k];
        assert(b.blocks@[bi as int].stream@[k as int] == iid);
        let t = match inst_text(&b.instructions[iid.0 as usize], strs) {
            Some(t) => t,
            None => {
                assert(b.blocks@[bi as int].stream@[k as int] == s@[k as int]);
                return None;
            },
        };
        let line = String::from_str("    [ i").concat(crate::cli::decimal_text(iid.0 as u64).as_str()).concat(" ] ").concat(t.as_str());
        proof {
            lemma_views_push(texts@, line);
            assert(s@.take(k + 1).map_values(|i: InstId| inst_line(*b, i, strs@)) =~= s@.take(k as int).map_values(
                |i: InstId| inst_line(*b, i, strs@),
            ).push(inst_line(*b, iid, strs@)));
        }
        texts.push(line);
        k += 1;
    }
    assert(s@.take(k as int) =~= s@);
    let name = String::from_str("b").concat(crate::cli::decimal_text(bi as u64).as_str());
    proof {
        assert forall|q: int| 0 <= q < b.blocks@[bi as int].stream@.len() implies inst_plain_text(
            b.instructions@[(#[trigger] b.blocks@[bi as int].stream@[q]).0 as int],
            strs@,
        ) is Some by {
            assert(s@[q] == b.blocks@[bi as int].stream@[q]);
        }
    }
    if k == 0 {
        Some(name.concat(":"))
    } else {
        Some(name.concat(":\n").concat(join_lines(&texts).as_str()))
    }
}

/// The IR dump of `bodies` with `strs` the interned strings (see [`ir_dump`]); `None` where an
/// instruction in a block has no text (a float constant, whose text is written outside the
/// library).
pub fn ir_text(bodies: &Vec<Body>, strs: &Vec<String>) -> (r: Option<String>)
    requires
        forall|k: int| 0 <= k < bodies@.len() ==> body_wf(#[trigger] bodies@[k]) && writable(bodies@[k], strs@),
        bodies@.len() <= u32::MAX,
    ensures
        r is Some <==> forall|k: int| 0 <= k < bodies@.len() ==> has_text(#[trigger] bodies@[k], strs@),
        r matches Some(x) ==> x@ == ir_dump(bodies@, strs@),
{
    let mut texts: Vec<String> = Vec::new();
    let mut k: usize = 0;
    while k < bodies.len()
        invariant
            forall|q: int| 0 <= q < bodies@.len() ==> body_wf(#[trigger] bodies@[q]) && writable(bodies@[q], strs@),
            bodies@.len() <= u32::MAX,
            k <= bodies@.len(),
            texts@.map_values(|x: String| x@) == Seq::new(k as nat, |q: int| body_text(bodies@[q], q as nat, strs@)),
            forall|q: int| 0 <= q < k ==> has_text(#[trigger] bodies@[q], strs@),
        decreases bodies@.len() - k,
    {
        let b = &bodies[k];
        assert(body_wf(*b) && writable(*b, strs@));
        let mut parts: Vec<String> = Vec::new();
        if k > 0 {
            parts.push(String::from_str("body @").concat(crate::cli::decimal_text(k as u64).as_str()));
        }
        let ghost head: Seq<Seq<char>> = if k == 0 { Seq::empty() } else { seq!["body @"@ + dec(k as nat)] };
        proof {
            assert(parts@.map_values(|x: String| x@) =~= head);
        }
        let mut bi: usize = 0;
        while bi < b.blocks.len()
            invariant
                k < bodies@.len(),
                *b == bodies@[k as int],
                body_wf(*b),
                writable(*b, strs@),
                bi <= b.blocks@.len(),
                parts@.map_values(|x: String| x@) == head + Seq::new(bi as nat, |q: int| block_text(*b, q, strs@)),
                forall|q: int, j: int|
                    0 <= q < bi && 0 <= j < b.blocks@[q].stream@.len() ==> inst_plain_text(
                        b.instructions@[(#[trigger] b.blocks@[q].stream@[j]).0 as int],
                        strs@,
                    ) is Some,
            decreases b.blocks@.len() - bi,
        {
            let t = match block_dump(b, bi, strs) {
                Some(t) => t,
                None => {
                    assert(!has_text(*b, strs@));
                    assert(*b == bodies@[k as int]);
                    assert(!has_text(bodies@[k as int], strs@));
                    return None;
                },
            };
            proof {
                lemma_views_push(parts@, t);
                assert(head + Seq::new((bi + 1) as nat, |q: int| block_text(*b, q, strs@)) =~= (head + Seq::new(
                    bi as nat,
                    |q: int| block_text(*b, q, strs@),
                )).push(t@));
            }
            parts.push(t);
            bi += 1;
        }
        let t = join_lines(&parts);
        proof {
            let blocks = Seq::new(b.blocks@.len(), |q: int| block_text(*b, q, strs@));
            assert(Seq::new(bi as nat, |q: int| block_text(*b, q, strs@)) =~= blocks);
            if k == 0 {
                assert(head + blocks =~= blocks);
            }
            assert(t@ == body_text(*b, k as nat, strs@));
            lemma_views_push(texts@, t);
            assert(Seq::new((k + 1) as nat, |q: int| body_text(bodies@[q], q as nat, strs@)) =~= Seq::new(
                k as nat,
                |q: int| body_text(bodies@[q], q as nat, strs@),
            ).push(t@));
        }
        texts.push(t);
        k += 1;
    }
    let r = join_lines(&texts);
    assert(Seq::new(k as nat, |q: int| body_text(bodies@[q], q as nat, strs@)) =~= Seq::new(
        bodies@.len(),
        |q: int| body_text(bodies@[q], q as nat, strs@),
    ));
    Some(r)
}

} // verus!
