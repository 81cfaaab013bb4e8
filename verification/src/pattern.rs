//! Testing a value against a `match` pattern: the IR that jumps to a failure block on any
//! mismatch and falls through, with the pattern's bindings set, on a match.
use vstd::prelude::*;

use crate::constant::{uncached, CachedConstant, ConstValue, Constant};
use crate::ids::{AdtId, BlockId, InstId, Local};
use crate::ir::{body_wf, operands, streams, successors, Body, Inst};
use crate::ops::{AccessKind, BinOp, OperandKind, UnaryOp};
use crate::lower::{ir_meaning, Meaning};

verus! {

/// A pattern, with names resolved: a binding by its local, a literal by its value, a struct's
/// fields by their slots, and a null-binding by whether it unwraps a raised error.
pub enum Pattern {
    Bind(Local),
    Literal(CachedConstant),
    Tuple(Vec<Pattern>),
    Variant(AdtId),
    TupleVariant(AdtId, Vec<Pattern>),
    Struct(AdtId, Vec<(u32, Pattern)>),
    NullBind(Box<Pattern>, bool),
    Or(Vec<Pattern>),
}

/// What emitting changes in a body: its instructions, its blocks' streams and its current block.
pub struct Emitted {
    pub insts: Seq<Inst>,
    pub streams: Seq<Seq<InstId>>,
    pub cur: BlockId,
}

pub open spec fn emitted(b: Body) -> Emitted {
    Emitted { insts: b.instructions@, streams: streams(b), cur: b.current_block }
}

/// The id the next instruction gets.
pub open spec fn next_id(e: Emitted) -> InstId {
    InstId(e.insts.len() as u32)
}

/// The id the next block gets.
pub open spec fn next_block(e: Emitted) -> BlockId {
    BlockId(e.streams.len() as u32)
}

/// `i` added to the instructions and to the end of the current block.
pub open spec fn put(e: Emitted, i: Inst) -> Emitted {
    Emitted {
        insts: e.insts.push(i),
        streams: e.streams.update(e.cur.0 as int, e.streams[e.cur.0 as int].push(next_id(e))),
        cur: e.cur,
    }
}

/// An empty block added.
pub open spec fn fresh(e: Emitted) -> Emitted {
    Emitted { streams: e.streams.push(Seq::empty()), ..e }
}

/// `b` made the current block.
pub open spec fn goto(e: Emitted, b: BlockId) -> Emitted {
    Emitted { cur: b, ..e }
}

/// The constant a literal stands for.
pub open spec fn literal(c: CachedConstant) -> Constant {
    match c {
        CachedConstant::Bool(b) => Constant::Bool(b),
        CachedConstant::Int(i) => Constant::Int(i),
        CachedConstant::Float(f) => Constant::Float(f),
        CachedConstant::Str(s) => Constant::Str(s),
        CachedConstant::Null => Constant::Null,
    }
}

/// The operand type a literal is compared at.
pub open spec fn literal_kind(c: CachedConstant) -> OperandKind {
    match c {
        CachedConstant::Bool(_) => OperandKind::Bool,
        CachedConstant::Int(_) => OperandKind::Int,
        CachedConstant::Float(_) => OperandKind::Float,
        CachedConstant::Str(_) => OperandKind::Str,
        CachedConstant::Null => OperandKind::Generic,
    }
}

/// A test that ends the current block on a mismatch: `cond`, then a branch to `fail` on false.
pub open spec fn guard(e: Emitted, cond: Inst, fail: BlockId) -> Emitted {
    put(put(e, cond), Inst::JumpIfFalse { condition: next_id(e), target: fail })
}

/// After a guard, a new block for the rest, jumped to and made current.
pub open spec fn onward(e: Emitted) -> Emitted {
    goto(put(fresh(e), Inst::Jump { target: next_block(e) }), next_block(e))
}

/// The IR that tests `scrut` against `pat`, going on from `e` (see [`test_pattern`]).
pub open spec fn pattern_code(e: Emitted, pat: Pattern, scrut: InstId, fail: BlockId) -> Emitted
    decreases pat,
{
    match pat {
        Pattern::Bind(l) => put(e, Inst::SetLocal(l, scrut)),
        Pattern::Literal(c) => {
            let e1 = put(e, Inst::Constant(literal(c)));
            guard(e1, Inst::BinOp { left: scrut, op: BinOp::Identity, right: next_id(e), kind: literal_kind(c) }, fail)
        },
        Pattern::Tuple(ps) => tuple_code(e, ps@, scrut, fail),
        Pattern::Variant(adt) => guard(e, Inst::IsInstance { src: scrut, adt }, fail),
        Pattern::TupleVariant(adt, ps) => slots_code(onward(guard(e, Inst::IsInstance { src: scrut, adt }, fail)), ps@, scrut, fail),
        Pattern::Struct(adt, fs) => fields_code(onward(guard(e, Inst::IsInstance { src: scrut, adt }, fail)), fs@, scrut, fail),
        Pattern::NullBind(inner, is_result) => {
            let e1 = if is_result {
                put(e, Inst::IsRaised(scrut))
            } else {
                put(e, Inst::Constant(Constant::Null))
            };
            let cond = if is_result {
                Inst::UnaryOp { op: UnaryOp::Not, right: next_id(e) }
            } else {
                Inst::BinOp { left: scrut, op: BinOp::NotEqual, right: next_id(e), kind: OperandKind::Generic }
            };
            pattern_code(onward(guard(e1, cond, fail)), *inner, scrut, fail)
        },
        Pattern::Or(alts) => if alts@.len() == 0 {
            put(e, Inst::Jump { target: fail })
        } else {
            goto(or_code(fresh(e), alts@, alts@.len(), scrut, fail, next_block(e)), next_block(e))
        },
    }
}

/// The elements of a tuple, in order: each read by its index and tested.
pub open spec fn tuple_code(e: Emitted, ps: Seq<Pattern>, scrut: InstId, fail: BlockId) -> Emitted
    decreases ps,
{
    if ps.len() == 0 {
        e
    } else {
        let e0 = tuple_code(e, ps.drop_last(), scrut, fail);
        let e1 = put(e0, Inst::Constant(Constant::Int((ps.len() - 1) as i64)));
        let e2 = put(e1, Inst::GetIndex { set: scrut, index: next_id(e0), kind: AccessKind::Direct });
        pattern_code(e2, ps.last(), next_id(e1), fail)
    }
}

/// The fields of a tuple variant, in order: each read from its slot, its place, and tested.
pub open spec fn slots_code(e: Emitted, ps: Seq<Pattern>, scrut: InstId, fail: BlockId) -> Emitted
    decreases ps,
{
    if ps.len() == 0 {
        e
    } else {
        let e0 = slots_code(e, ps.drop_last(), scrut, fail);
        let e1 = put(e0, Inst::GetField { src: scrut, slot: (ps.len() - 1) as u32, kind: AccessKind::Direct });
        pattern_code(e1, ps.last(), next_id(e0), fail)
    }
}

/// The fields a struct pattern names, in its order: each read from its slot and tested.
pub open spec fn fields_code(e: Emitted, fs: Seq<(u32, Pattern)>, scrut: InstId, fail: BlockId) -> Emitted
    decreases fs,
{
    if fs.len() == 0 {
        e
    } else {
        let e0 = fields_code(e, fs.drop_last(), scrut, fail);
        let e1 = put(e0, Inst::GetField { src: scrut, slot: fs.last().0, kind: AccessKind::Direct });
        pattern_code(e1, fs.last().1, next_id(e0), fail)
    }
}

/// The alternatives of an or-pattern, in order, out of `total`: each tested, jumping to
/// `success` on a match and on to a new block for the next alternative on a mismatch; the last
/// fails to `fail`.
pub open spec fn or_code(e: Emitted, alts: Seq<Pattern>, total: nat, scrut: InstId, fail: BlockId, success: BlockId) -> Emitted
    decreases alts,
{
    if alts.len() == 0 {
        e
    } else {
        let e0 = or_code(e, alts.drop_last(), total, scrut, fail, success);
        let last = alts.len() == total;
        let try_next = if last { fail } else { next_block(e0) };
        let e1 = if last { e0 } else { fresh(e0) };
        let e2 = put(pattern_code(e1, alts.last(), scrut, try_next), Inst::Jump { target: success });
        if last { e2 } else { goto(e2, try_next) }
    }
}

/// A pattern whose bindings can be set without testing it: no tuple and no null-binding in the
/// parts that are bound (an or-pattern binds through its first alternative).
pub open spec fn bindable(pat: Pattern) -> bool
    decreases pat,
{
    match pat {
        Pattern::Tuple(_) | Pattern::NullBind(..) => false,
        Pattern::TupleVariant(_, ps) => forall|i: int| 0 <= i < ps@.len() ==> bindable(#[trigger] ps@[i]),
        Pattern::Struct(_, fs) => forall|i: int| 0 <= i < fs@.len() ==> bindable(#[trigger] fs@[i].1),
        Pattern::Or(alts) => alts@.len() > 0 ==> bindable(alts@[0]),
        _ => true,
    }
}

/// The IR that sets a pattern's bindings from `scrut` once its tag is known to match (see
/// [`bind_pattern`]): each binding's local set from the field it names.
pub open spec fn bind_code(e: Emitted, pat: Pattern, scrut: InstId) -> Emitted
    decreases pat,
{
    match pat {
        Pattern::Bind(l) => put(e, Inst::SetLocal(l, scrut)),
        Pattern::TupleVariant(_, ps) => bind_slots(e, ps@, scrut),
        Pattern::Struct(_, fs) => bind_fields(e, fs@, scrut),
        Pattern::Or(alts) => if alts@.len() == 0 {
            e
        } else {
            bind_code(e, alts@[0], scrut)
        },
        _ => e,
    }
}

pub open spec fn bind_slots(e: Emitted, ps: Seq<Pattern>, scrut: InstId) -> Emitted
    decreases ps,
{
    if ps.len() == 0 {
        e
    } else {
        let e0 = bind_slots(e, ps.drop_last(), scrut);
        let e1 = put(e0, Inst::GetField { src: scrut, slot: (ps.len() - 1) as u32, kind: AccessKind::Direct });
        bind_code(e1, ps.last(), next_id(e0))
    }
}

pub open spec fn bind_fields(e: Emitted, fs: Seq<(u32, Pattern)>, scrut: InstId) -> Emitted
    decreases fs,
{
    if fs.len() == 0 {
        e
    } else {
        let e0 = bind_fields(e, fs.drop_last(), scrut);
        let e1 = put(e0, Inst::GetField { src: scrut, slot: fs.last().0, kind: AccessKind::Direct });
        bind_code(e1, fs.last().1, next_id(e0))
    }
}

/// `b` holds the instructions of `a` first, unchanged.
pub open spec fn extends(a: Emitted, b: Emitted) -> bool {
    a.insts.len() <= b.insts.len() && forall|i: int| 0 <= i < a.insts.len() ==> b.insts[i] == a.insts[i]
}

/// Testing a pattern only adds instructions: what was there before stays, in place.
pub proof fn lemma_code_extends(e: Emitted, pat: Pattern, scrut: InstId, fail: BlockId)
    ensures
        extends(e, pattern_code(e, pat, scrut, fail)),
    decreases pat,
{
    match pat {
        Pattern::Tuple(ps) => lemma_tuple_extends(e, ps@, scrut, fail),
        Pattern::TupleVariant(adt, ps) => lemma_slots_extends(onward(guard(e, Inst::IsInstance { src: scrut, adt }, fail)), ps@, scrut, fail),
        Pattern::Struct(adt, fs) => lemma_fields_extends(onward(guard(e, Inst::IsInstance { src: scrut, adt }, fail)), fs@, scrut, fail),
        Pattern::NullBind(inner, is_result) => {
            let e1 = if is_result {
                put(e, Inst::IsRaised(scrut))
            } else {
                put(e, Inst::Constant(Constant::Null))
            };
            let cond = if is_result {
                Inst::UnaryOp { op: UnaryOp::Not, right: next_id(e) }
            } else {
                Inst::BinOp { left: scrut, op: BinOp::NotEqual, right: next_id(e), kind: OperandKind::Generic }
            };
            lemma_code_extends(onward(guard(e1, cond, fail)), *inner, scrut, fail);
        },
        Pattern::Or(alts) => if alts@.len() > 0 {
            lemma_or_extends(fresh(e), alts@, alts@.len(), scrut, fail, next_block(e));
        },
        _ => {},
    }
}

proof fn lemma_tuple_extends(e: Emitted, ps: Seq<Pattern>, scrut: InstId, fail: BlockId)
    ensures
        extends(e, tuple_code(e, ps, scrut, fail)),
    decreases ps,
{
    if ps.len() > 0 {
        lemma_tuple_extends(e, ps.drop_last(), scrut, fail);
        let e0 = tuple_code(e, ps.drop_last(), scrut, fail);
        let e1 = put(e0, Inst::Constant(Constant::Int((ps.len() - 1) as i64)));
        let e2 = put(e1, Inst::GetIndex { set: scrut, index: next_id(e0), kind: AccessKind::Direct });
        lemma_code_extends(e2, ps.last(), next_id(e1), fail);
    }
}

proof fn lemma_slots_extends(e: Emitted, ps: Seq<Pattern>, scrut: InstId, fail: BlockId)
    ensures
        extends(e, slots_code(e, ps, scrut, fail)),
    decreases ps,
{
    if ps.len() > 0 {
        lemma_slots_extends(e, ps.drop_last(), scrut, fail);
        let e0 = slots_code(e, ps.drop_last(), scrut, fail);
        let e1 = put(e0, Inst::GetField { src: scrut, slot: (ps.len() - 1) as u32, kind: AccessKind::Direct });
        lemma_code_extends(e1, ps.last(), next_id(e0), fail);
    }
}

proof fn lemma_fields_extends(e: Emitted, fs: Seq<(u32, Pattern)>, scrut: InstId, fail: BlockId)
    ensures
        extends(e, fields_code(e, fs, scrut, fail)),
    decreases fs,
{
    if fs.len() > 0 {
        lemma_fields_extends(e, fs.drop_last(), scrut, fail);
        let e0 = fields_code(e, fs.drop_last(), scrut, fail);
        let e1 = put(e0, Inst::GetField { src: scrut, slot: fs.last().0, kind: AccessKind::Direct });
        lemma_code_extends(e1, fs.last().1, next_id(e0), fail);
    }
}

proof fn lemma_or_extends(e: Emitted, alts: Seq<Pattern>, total: nat, scrut: InstId, fail: BlockId, success: BlockId)
    ensures
        extends(e, or_code(e, alts, total, scrut, fail, success)),
    decreases alts,
{
    if alts.len() > 0 {
        lemma_or_extends(e, alts.drop_last(), total, scrut, fail, success);
        let e0 = or_code(e, alts.drop_last(), total, scrut, fail, success);
        let last = alts.len() == total;
        let try_next = if last { fail } else { next_block(e0) };
        let e1 = if last { e0 } else { fresh(e0) };
        lemma_code_extends(e1, alts.last(), scrut, try_next);
    }
}

/// The instructions read field `k` of `scrut`.
pub open spec fn reads_field(insts: Seq<Inst>, scrut: InstId, k: int) -> bool {
    insts.contains(Inst::GetField { src: scrut, slot: k as u32, kind: AccessKind::Direct })
}

/// Testing a tuple-variant pattern reads every field it has a sub-pattern for, by its place:
/// for each `k` below the number of sub-patterns there is a read of field `k` of the scrutinee.
pub proof fn lemma_tuple_variant_reads_each_field(e: Emitted, adt: AdtId, ps: Seq<Pattern>, scrut: InstId, fail: BlockId)
    ensures
        forall|k: int| 0 <= k < ps.len() ==> #[trigger] reads_field(slots_code(e, ps, scrut, fail).insts, scrut, k),
    decreases ps.len(),
{
    if ps.len() > 0 {
        let e0 = slots_code(e, ps.drop_last(), scrut, fail);
        let g = Inst::GetField { src: scrut, slot: (ps.len() - 1) as u32, kind: AccessKind::Direct };
        let e1 = put(e0, g);
        lemma_tuple_variant_reads_each_field(e, adt, ps.drop_last(), scrut, fail);
        lemma_code_extends(e1, ps.last(), next_id(e0), fail);
        let fin = slots_code(e, ps, scrut, fail);
        assert forall|k: int| 0 <= k < ps.len() implies #[trigger] reads_field(fin.insts, scrut, k) by {
            if k == ps.len() - 1 {
                assert(e1.insts[e0.insts.len() as int] == g);
                assert(fin.insts[e0.insts.len() as int] == g);
            } else {
                let want = Inst::GetField { src: scrut, slot: k as u32, kind: AccessKind::Direct };
                assert(reads_field(e0.insts, scrut, k));
                let i = choose|i: int| 0 <= i < e0.insts.len() && e0.insts[i] == want;
                assert(e1.insts[i] == want);
                assert(fin.insts[i] == want);
            }
        }
    }
}

/// Testing a tuple-variant pattern reads field `k` of the scrutinee for its `k`-th sub-pattern,
/// for every `k`.
pub proof fn lemma_tuple_variant_pattern_reads(e: Emitted, adt: AdtId, ps: Vec<Pattern>, scrut: InstId, fail: BlockId)
    ensures
        forall|k: int| 0 <= k < ps@.len() ==> #[trigger] reads_field(
            pattern_code(e, Pattern::TupleVariant(adt, ps), scrut, fail).insts,
            scrut,
            k,
        ),
{
    let e1 = onward(guard(e, Inst::IsInstance { src: scrut, adt }, fail));
    lemma_tuple_variant_reads_each_field(e1, adt, ps@, scrut, fail);
    assert(pattern_code(e, Pattern::TupleVariant(adt, ps), scrut, fail) == slots_code(e1, ps@, scrut, fail));
}

/// Testing a struct pattern reads, for each field it names, that field's slot of the
/// scrutinee.
pub proof fn lemma_struct_pattern_reads(e: Emitted, fs: Seq<(u32, Pattern)>, scrut: InstId, fail: BlockId)
    ensures
        forall|k: int| 0 <= k < fs.len() ==> #[trigger] reads_field(fields_code(e, fs, scrut, fail).insts, scrut, fs[k].0 as int),
    decreases fs.len(),
{
    if fs.len() > 0 {
        let e0 = fields_code(e, fs.drop_last(), scrut, fail);
        let g = Inst::GetField { src: scrut, slot: fs.last().0, kind: AccessKind::Direct };
        let e1 = put(e0, g);
        lemma_struct_pattern_reads(e, fs.drop_last(), scrut, fail);
        lemma_code_extends(e1, fs.last().1, next_id(e0), fail);
        let fin = fields_code(e, fs, scrut, fail);
        assert forall|k: int| 0 <= k < fs.len() implies #[trigger] reads_field(fin.insts, scrut, fs[k].0 as int) by {
            if k == fs.len() - 1 {
                assert(fin.insts[e0.insts.len() as int] == g);
            } else {
                assert(fs.drop_last()[k] == fs[k]);
                assert(reads_field(e0.insts, scrut, fs.drop_last()[k].0 as int));
                let want = Inst::GetField { src: scrut, slot: fs[k].0, kind: AccessKind::Direct };
                let i = choose|i: int| 0 <= i < e0.insts.len() && e0.insts[i] == want;
                assert(fin.insts[i] == want);
            }
        }
    }
}

/// The instructions read element `k` of `scrut`: a constant `k`, then an index of `scrut` by it.
pub open spec fn reads_element(insts: Seq<Inst>, scrut: InstId, k: int) -> bool {
    exists|p: int|
        0 <= p && p + 1 < insts.len() && #[trigger] insts[p] == Inst::Constant(Constant::Int(k as i64)) && insts[p + 1]
            == Inst::GetIndex { set: scrut, index: InstId(p as u32), kind: AccessKind::Direct }
}

/// Testing a tuple pattern reads element `k` of the scrutinee, by the index `k`, for its `k`-th
/// sub-pattern, for every `k`.
pub proof fn lemma_tuple_pattern_reads(e: Emitted, ps: Seq<Pattern>, scrut: InstId, fail: BlockId)
    requires
        e.insts.len() + 2 * ps.len() < u32::MAX,
    ensures
        forall|k: int| 0 <= k < ps.len() ==> #[trigger] reads_element(tuple_code(e, ps, scrut, fail).insts, scrut, k),
    decreases ps.len(),
{
    if ps.len() > 0 {
        let n = ps.len() - 1;
        let e0 = tuple_code(e, ps.drop_last(), scrut, fail);
        let c = Inst::Constant(Constant::Int(n as i64));
        let e1 = put(e0, c);
        let g = Inst::GetIndex { set: scrut, index: next_id(e0), kind: AccessKind::Direct };
        let e2 = put(e1, g);
        lemma_tuple_pattern_reads(e, ps.drop_last(), scrut, fail);
        lemma_code_extends(e2, ps.last(), next_id(e1), fail);
        let fin = tuple_code(e, ps, scrut, fail);
        assert forall|k: int| 0 <= k < ps.len() implies #[trigger] reads_element(fin.insts, scrut, k) by {
            if k == n {
                let p = e0.insts.len() as int;
                assert(fin.insts[p] == c);
                assert(fin.insts[p + 1] == g);
                assert(next_id(e0) == InstId(p as u32));
            } else {
                assert(reads_element(e0.insts, scrut, k));
                let p = choose|p: int|
                    0 <= p && p + 1 < e0.insts.len() && #[trigger] e0.insts[p] == Inst::Constant(Constant::Int(k as i64))
                        && e0.insts[p + 1] == Inst::GetIndex { set: scrut, index: InstId(p as u32), kind: AccessKind::Direct };
                assert(fin.insts[p] == e0.insts[p]);
                assert(fin.insts[p + 1] == e0.insts[p + 1]);
            }
        }
    }
}

/// Setting a pattern's bindings only adds instructions.
pub proof fn lemma_bind_extends(e: Emitted, pat: Pattern, scrut: InstId)
    ensures
        extends(e, bind_code(e, pat, scrut)),
    decreases pat,
{
    match pat {
        Pattern::TupleVariant(_, ps) => lemma_bind_slots_extends(e, ps@, scrut),
        Pattern::Struct(_, fs) => lemma_bind_fields_extends(e, fs@, scrut),
        Pattern::Or(alts) => if alts@.len() > 0 {
            lemma_bind_extends(e, alts@[0], scrut);
        },
        _ => {},
    }
}

proof fn lemma_bind_slots_extends(e: Emitted, ps: Seq<Pattern>, scrut: InstId)
    ensures
        extends(e, bind_slots(e, ps, scrut)),
    decreases ps,
{
    if ps.len() > 0 {
        lemma_bind_slots_extends(e, ps.drop_last(), scrut);
        let e0 = bind_slots(e, ps.drop_last(), scrut);
        let e1 = put(e0, Inst::GetField { src: scrut, slot: (ps.len() - 1) as u32, kind: AccessKind::Direct });
        lemma_bind_extends(e1, ps.last(), next_id(e0));
    }
}

proof fn lemma_bind_fields_extends(e: Emitted, fs: Seq<(u32, Pattern)>, scrut: InstId)
    ensures
        extends(e, bind_fields(e, fs, scrut)),
    decreases fs,
{
    if fs.len() > 0 {
        lemma_bind_fields_extends(e, fs.drop_last(), scrut);
        let e0 = bind_fields(e, fs.drop_last(), scrut);
        let e1 = put(e0, Inst::GetField { src: scrut, slot: fs.last().0, kind: AccessKind::Direct });
        lemma_bind_extends(e1, fs.last().1, next_id(e0));
    }
}

/// Setting the bindings of a tuple-variant pattern reads field `k` of the scrutinee for its
/// `k`-th sub-pattern, for every `k`.
pub proof fn lemma_bind_tuple_variant_reads(e: Emitted, ps: Seq<Pattern>, scrut: InstId)
    ensures
        forall|k: int| 0 <= k < ps.len() ==> #[trigger] reads_field(bind_slots(e, ps, scrut).insts, scrut, k),
    decreases ps.len(),
{
    if ps.len() > 0 {
        let e0 = bind_slots(e, ps.drop_last(), scrut);
        let g = Inst::GetField { src: scrut, slot: (ps.len() - 1) as u32, kind: AccessKind::Direct };
        let e1 = put(e0, g);
        lemma_bind_tuple_variant_reads(e, ps.drop_last(), scrut);
        lemma_bind_extends(e1, ps.last(), next_id(e0));
        let fin = bind_slots(e, ps, scrut);
        assert forall|k: int| 0 <= k < ps.len() implies #[trigger] reads_field(fin.insts, scrut, k) by {
            if k == ps.len() - 1 {
                assert(fin.insts[e0.insts.len() as int] == g);
            } else {
                assert(reads_field(e0.insts, scrut, k));
                let want = Inst::GetField { src: scrut, slot: k as u32, kind: AccessKind::Direct };
                let i = choose|i: int| 0 <= i < e0.insts.len() && e0.insts[i] == want;
                assert(fin.insts[i] == want);
            }
        }
    }
}

/// Testing a literal adds three instructions: the literal's constant, an equality test of the
/// scrutinee against it at the literal's own operand type, and a branch to `fail` when the test
/// is false.
pub proof fn lemma_literal_test(e: Emitted, c: CachedConstant, scrut: InstId, fail: BlockId)
    ensures
        ({
            let out = pattern_code(e, Pattern::Literal(c), scrut, fail).insts;
            let n = e.insts.len() as int;
            &&& out.len() == n + 3
            &&& out.take(n) == e.insts
            &&& out[n] matches Inst::Constant(k) && k.model() == uncached(c)
            &&& out[n + 1] matches Inst::BinOp { left, op, right, kind } && left == scrut && right == InstId(n as u32)
                && ir_meaning(op) == Some(Meaning::Test { less: false, equal: true, greater: false }) && (kind
                == OperandKind::Int <==> c is Int) && (kind == OperandKind::Float <==> c is Float) && (kind
                == OperandKind::Bool <==> c is Bool) && (kind == OperandKind::Str <==> c is Str)
            &&& out[n + 2] == Inst::JumpIfFalse { condition: InstId((n + 1) as u32), target: fail }
        }),
{
    let out = pattern_code(e, Pattern::Literal(c), scrut, fail).insts;
    assert(out.take(e.insts.len() as int) =~= e.insts);
}

/// Testing a variant, tuple-variant or struct pattern first tests the scrutinee's tag against
/// the pattern's layout and branches to `fail` when it doesn't match; a pattern with fields then
/// jumps to a new block that holds the field tests.
pub proof fn lemma_tag_test_first(e: Emitted, pat: Pattern, scrut: InstId, fail: BlockId)
    requires
        pat is Variant || pat is TupleVariant || pat is Struct,
        e.cur.0 < e.streams.len(),
    ensures
        ({
            let out = pattern_code(e, pat, scrut, fail).insts;
            let n = e.insts.len() as int;
            let adt = match pat {
                Pattern::Variant(a) => a,
                Pattern::TupleVariant(a, _) => a,
                Pattern::Struct(a, _) => a,
                _ => AdtId(0),
            };
            &&& out.len() >= n + 2
            &&& out.take(n) == e.insts
            &&& out[n] == Inst::IsInstance { src: scrut, adt }
            &&& out[n + 1] == Inst::JumpIfFalse { condition: InstId(n as u32), target: fail }
            &&& !(pat is Variant) ==> out.len() >= n + 3 && out[n + 2] == Inst::Jump { target: next_block(e) }
        }),
{
    let out = pattern_code(e, pat, scrut, fail).insts;
    lemma_code_extends(e, pat, scrut, fail);
    match pat {
        Pattern::TupleVariant(adt, ps) => {
            let e1 = onward(guard(e, Inst::IsInstance { src: scrut, adt }, fail));
            lemma_slots_extends(e1, ps@, scrut, fail);
            assert(out[e.insts.len() as int] == e1.insts[e.insts.len() as int]);
            assert(out[e.insts.len() as int + 1] == e1.insts[e.insts.len() as int + 1]);
            assert(out[e.insts.len() as int + 2] == e1.insts[e.insts.len() as int + 2]);
            assert(out.take(e.insts.len() as int) =~= e.insts) by {
                assert forall|i: int| 0 <= i < e.insts.len() implies out[i] == e.insts[i] by {
                    assert(out[i] == e1.insts[i]);
                }
            }
        },
        Pattern::Struct(adt, fs) => {
            let e1 = onward(guard(e, Inst::IsInstance { src: scrut, adt }, fail));
            lemma_fields_extends(e1, fs@, scrut, fail);
            assert(out[e.insts.len() as int] == e1.insts[e.insts.len() as int]);
            assert(out[e.insts.len() as int + 1] == e1.insts[e.insts.len() as int + 1]);
            assert(out[e.insts.len() as int + 2] == e1.insts[e.insts.len() as int + 2]);
            assert(out.take(e.insts.len() as int) =~= e.insts) by {
                assert forall|i: int| 0 <= i < e.insts.len() implies out[i] == e.insts[i] by {
                    assert(out[i] == e1.insts[i]);
                }
            }
        },
        _ => {},
    }
    assert(out.take(e.insts.len() as int) =~= e.insts);
}

/// Testing a null-binding checks the scrutinee before the inner pattern: an unwrapped error's
/// value is tested for not being raised, anything else for not being null, and a failed check
/// branches to `fail`.
pub proof fn lemma_null_check_first(e: Emitted, inner: Box<Pattern>, is_result: bool, scrut: InstId, fail: BlockId)
    ensures
        ({
            let out = pattern_code(e, Pattern::NullBind(inner, is_result), scrut, fail).insts;
            let n = e.insts.len() as int;
            &&& out.len() >= n + 4
            &&& out.take(n) == e.insts
            &&& is_result ==> out[n] == Inst::IsRaised(scrut) && out[n + 1] == Inst::UnaryOp {
                op: UnaryOp::Not,
                right: InstId(n as u32),
            }
            &&& !is_result ==> (out[n] matches Inst::Constant(k) && k.model() == ConstValue::Null)
            &&& !is_result ==> (out[n + 1] matches Inst::BinOp { left, op, right, .. } && left == scrut && right == InstId(
                n as u32,
            ) && ir_meaning(op) == Some(Meaning::Test { less: true, equal: false, greater: true }))
            &&& out[n + 2] == Inst::JumpIfFalse { condition: InstId((n + 1) as u32), target: fail }
        }),
{
    let out = pattern_code(e, Pattern::NullBind(inner, is_result), scrut, fail).insts;
    let e1 = if is_result {
        put(e, Inst::IsRaised(scrut))
    } else {
        put(e, Inst::Constant(Constant::Null))
    };
    let cond = if is_result {
        Inst::UnaryOp { op: UnaryOp::Not, right: next_id(e) }
    } else {
        Inst::BinOp { left: scrut, op: BinOp::NotEqual, right: next_id(e), kind: OperandKind::Generic }
    };
    let e2 = onward(guard(e1, cond, fail));
    lemma_code_extends(e2, *inner, scrut, fail);
    assert(out[e.insts.len() as int] == e2.insts[e.insts.len() as int]);
    assert(out[e.insts.len() as int + 1] == e2.insts[e.insts.len() as int + 1]);
    assert(out[e.insts.len() as int + 2] == e2.insts[e.insts.len() as int + 2]);
    assert(out.take(e.insts.len() as int) =~= e.insts) by {
        assert forall|i: int| 0 <= i < e.insts.len() implies out[i] == e.insts[i] by {
            assert(out[i] == e2.insts[i]);
        }
    }
}

/// A tuple-variant pattern of bindings, tested where its tag has been checked: field `k` is
/// read, and binding `k` is set from that read, for each `k` in order, and nothing else is
/// added.
pub proof fn lemma_tuple_variant_binds_by_place(e: Emitted, ls: Seq<Local>, scrut: InstId, fail: BlockId)
    ensures
        slots_code(e, ls.map_values(|l: Local| Pattern::Bind(l)), scrut, fail).insts == e.insts + Seq::new(
            2 * ls.len(),
            |j: int| if j % 2 == 0 {
                Inst::GetField { src: scrut, slot: (j / 2) as u32, kind: AccessKind::Direct }
            } else {
                Inst::SetLocal(ls[j / 2], InstId((e.insts.len() + j - 1) as u32))
            },
        ),
    decreases ls.len(),
{
    let ps = ls.map_values(|l: Local| Pattern::Bind(l));
    let want = |n: nat| Seq::new(
        2 * n,
        |j: int| if j % 2 == 0 {
            Inst::GetField { src: scrut, slot: (j / 2) as u32, kind: AccessKind::Direct }
        } else {
            Inst::SetLocal(ls[j / 2], InstId((e.insts.len() + j - 1) as u32))
        },
    );
    if ls.len() > 0 {
        let n = ls.len() - 1;
        lemma_tuple_variant_binds_by_place(e, ls.drop_last(), scrut, fail);
        assert(ps.drop_last() =~= ls.drop_last().map_values(|l: Local| Pattern::Bind(l)));
        let e0 = slots_code(e, ps.drop_last(), scrut, fail);
        let prev = Seq::new(
            2 * ls.drop_last().len(),
            |j: int| if j % 2 == 0 {
                Inst::GetField { src: scrut, slot: (j / 2) as u32, kind: AccessKind::Direct }
            } else {
                Inst::SetLocal(ls.drop_last()[j / 2], InstId((e.insts.len() + j - 1) as u32))
            },
        );
        assert(e0.insts == e.insts + prev);
        assert(ps.last() == Pattern::Bind(ls[n as int]));
        let fin = slots_code(e, ps, scrut, fail);
        let g = Inst::GetField { src: scrut, slot: n as u32, kind: AccessKind::Direct };
        let e1 = put(e0, g);
        assert(fin == pattern_code(e1, Pattern::Bind(ls[n as int]), next_id(e0), fail));
        let st = Inst::SetLocal(ls[n as int], InstId((e.insts.len() + 2 * n) as u32));
        assert(e0.insts.len() == e.insts.len() + 2 * n);
        assert(fin.insts == e0.insts.push(g).push(st));
        let w = want(ls.len());
        assert((2 * n) / 2 == n && (2 * n) % 2 == 0 && (2 * n + 1) / 2 == n && (2 * n + 1) % 2 == 1) by (nonlinear_arith);
        assert(w[2 * n] == g);
        assert(w[2 * n + 1] == st);
        assert forall|j: int| 0 <= j < 2 * n implies #[trigger] prev[j] == w[j] by {
            assert(0 <= j / 2 < n) by (nonlinear_arith)
                requires
                    0 <= j < 2 * n,
            ;
            assert(ls.drop_last()[j / 2] == ls[j / 2]);
        }
        assert(fin.insts =~= e.insts + w);
    } else {
        assert(want(0) =~= Seq::<Inst>::empty());
        assert(e.insts + want(0) =~= e.insts);
    }
}


/// At most how many instructions, and how many blocks, testing a pattern adds.
pub open spec fn pattern_size(pat: Pattern) -> nat
    decreases pat,
{
    match pat {
        Pattern::Bind(_) => 1,
        Pattern::Literal(_) => 3,
        Pattern::Tuple(ps) => tuple_size(ps@),
        Pattern::Variant(_) => 2,
        Pattern::TupleVariant(_, ps) => 4 + slots_size(ps@),
        Pattern::Struct(_, fs) => 4 + fields_size(fs@),
        Pattern::NullBind(inner, _) => 5 + pattern_size(*inner),
        Pattern::Or(alts) => 2 + or_size(alts@),
    }
}

pub open spec fn tuple_size(ps: Seq<Pattern>) -> nat
    decreases ps,
{
    if ps.len() == 0 {
        0
    } else {
        tuple_size(ps.drop_last()) + 2 + pattern_size(ps.last())
    }
}

pub open spec fn slots_size(ps: Seq<Pattern>) -> nat
    decreases ps,
{
    if ps.len() == 0 {
        0
    } else {
        slots_size(ps.drop_last()) + 1 + pattern_size(ps.last())
    }
}

pub open spec fn fields_size(fs: Seq<(u32, Pattern)>) -> nat
    decreases fs,
{
    if fs.len() == 0 {
        0
    } else {
        fields_size(fs.drop_last()) + 1 + pattern_size(fs.last().1)
    }
}

pub open spec fn or_size(ps: Seq<Pattern>) -> nat
    decreases ps,
{
    if ps.len() == 0 {
        0
    } else {
        or_size(ps.drop_last()) + 2 + pattern_size(ps.last())
    }
}

proof fn lemma_sizes_grow(ps: Seq<Pattern>, fs: Seq<(u32, Pattern)>, i: int, j: int)
    requires
        0 <= i <= j,
    ensures
        j <= ps.len() ==> tuple_size(ps.take(i)) <= tuple_size(ps.take(j)) && slots_size(ps.take(i)) <= slots_size(ps.take(j))
            && or_size(ps.take(i)) <= or_size(ps.take(j)),
        j <= fs.len() ==> fields_size(fs.take(i)) <= fields_size(fs.take(j)),
    decreases j - i,
{
    if i < j {
        lemma_sizes_grow(ps, fs, i, j - 1);
        if j <= ps.len() {
            assert(ps.take(j).drop_last() =~= ps.take(j - 1));
        }
        if j <= fs.len() {
            assert(fs.take(j).drop_last() =~= fs.take(j - 1));
        }
    }
}

/// The state a body's emission is in: well formed, with a current block that exists.
pub open spec fn ready(b: Body) -> bool {
    body_wf(b) && b.current_block.0 < b.blocks@.len()
}

/// Room for `n` more instructions and `n` more blocks.
pub open spec fn room(b: Body, n: nat) -> bool {
    b.instructions@.len() + n < u32::MAX && b.blocks@.len() + n < u32::MAX
}

/// What emitting keeps and how much it may grow.
pub open spec fn grown(a: Body, b: Body, n: nat) -> bool {
    &&& ready(b)
    &&& a.instructions@.len() <= b.instructions@.len() <= a.instructions@.len() + n
    &&& a.blocks@.len() <= b.blocks@.len() <= a.blocks@.len() + n
}

fn emit(body: &mut Body, inst: Inst) -> (id: InstId)
    requires
        ready(*old(body)),
        room(*old(body), 1),
        forall|k: int| 0 <= k < operands(inst).len() ==> (#[trigger] operands(inst)[k]).0 < old(body).instructions@.len(),
        forall|k: int| 0 <= k < successors(inst).len() ==> (#[trigger] successors(inst)[k]).0 < old(body).blocks@.len(),
    ensures
        emitted(*final(body)) == put(emitted(*old(body)), inst),
        id == next_id(emitted(*old(body))),
        grown(*old(body), *final(body), 1),
        final(body).instructions@.len() == old(body).instructions@.len() + 1,
        final(body).blocks@.len() == old(body).blocks@.len(),
{
    let id = body.push_inst(inst);
    proof {
        assert(streams(*final(body)).len() == streams(*old(body)).len());
    }
    id
}

fn new_block(body: &mut Body) -> (id: BlockId)
    requires
        ready(*old(body)),
        room(*old(body), 1),
    ensures
        emitted(*final(body)) == fresh(emitted(*old(body))),
        id == next_block(emitted(*old(body))),
        grown(*old(body), *final(body), 1),
        final(body).instructions@.len() == old(body).instructions@.len(),
        final(body).blocks@.len() == old(body).blocks@.len() + 1,
{
    let id = body.push_block();
    proof {
        assert(streams(*final(body)).len() == final(body).blocks@.len());
        assert(streams(*old(body)).len() == old(body).blocks@.len());
    }
    id
}

fn goto_block(body: &mut Body, id: BlockId)
    requires
        ready(*old(body)),
        id.0 < old(body).blocks@.len(),
    ensures
        emitted(*final(body)) == goto(emitted(*old(body)), id),
        grown(*old(body), *final(body), 0),
{
    body.target(id);
    assert(streams(*final(body)) == streams(*old(body)));
}

fn literal_of(c: CachedConstant) -> (r: Constant)
    ensures
        r == literal(c),
{
    match c {
        CachedConstant::Bool(b) => Constant::Bool(b),
        CachedConstant::Int(i) => Constant::Int(i),
        CachedConstant::Float(f) => Constant::Float(f),
        CachedConstant::Str(s) => Constant::Str(s),
        CachedConstant::Null => Constant::Null,
    }
}

fn literal_kind_of(c: CachedConstant) -> (r: OperandKind)
    ensures
        r == literal_kind(c),
{
    match c {
        CachedConstant::Bool(_) => OperandKind::Bool,
        CachedConstant::Int(_) => OperandKind::Int,
        CachedConstant::Float(_) => OperandKind::Float,
        CachedConstant::Str(_) => OperandKind::Str,
        CachedConstant::Null => OperandKind::Generic,
    }
}

/// Emits the IR that tests `scrut` against `pat` (see [`pattern_code`]): on any mismatch of a
/// tag, a literal or a null it jumps to `fail`; on a match it goes on in the current block with
/// the pattern's bindings set. Testing never fails here: the result is always `Some`.
pub fn test_pattern(body: &mut Body, pat: &Pattern, scrut: InstId, fail: BlockId) -> (r: Option<()>)
    requires
        ready(*old(body)),
        room(*old(body), pattern_size(*pat)),
        scrut.0 < old(body).instructions@.len(),
        fail.0 < old(body).blocks@.len(),
    ensures
        r is Some,
        emitted(*final(body)) == pattern_code(emitted(*old(body)), *pat, scrut, fail),
        grown(*old(body), *final(body), pattern_size(*pat)),
    decreases pat,
{
    let ghost e0 = emitted(*body);
    let ghost b0 = *body;
    match pat {
        Pattern::Bind(l) => {
            emit(body, Inst::SetLocal(*l, scrut));
        },
        Pattern::Literal(c) => {
            let this = emit(body, Inst::Constant(literal_of(*c)));
            let eq = emit(body, Inst::BinOp { left: scrut, op: BinOp::Identity, right: this, kind: literal_kind_of(*c) });
            emit(body, Inst::JumpIfFalse { condition: eq, target: fail });
        },
        Pattern::Variant(adt) => {
            let tag = emit(body, Inst::IsInstance { src: scrut, adt: *adt });
            emit(body, Inst::JumpIfFalse { condition: tag, target: fail });
        },
        Pattern::Tuple(ps) => {
            let mut i: usize = 0;
            while i < ps.len()
                invariant
                    *pat == Pattern::Tuple(*ps),
                    i <= ps@.len(),
                    ready(*body),
                    grown(b0, *body, tuple_size(ps@.take(i as int))),
                    room(b0, tuple_size(ps@)),
                    scrut.0 < b0.instructions@.len(),
                    fail.0 < b0.blocks@.len(),
                    emitted(*body) == tuple_code(e0, ps@.take(i as int), scrut, fail),
                decreases ps@.len() - i,
            {
                proof {
                    assert(ps@.take(i + 1).drop_last() =~= ps@.take(i as int));
                    lemma_sizes_grow(ps@, Seq::empty(), i + 1, ps@.len() as int);
                    assert(ps@.take(ps@.len() as int) =~= ps@);
                }
                assert(decreases_to!(*pat => (*pat)->Tuple_0));
                assert(decreases_to!(*ps => ps@));
                assert(decreases_to!(ps@ => ps@[i as int]));
                let idx = emit(body, Inst::Constant(Constant::Int(i as i64)));
                let elem = emit(body, Inst::GetIndex { set: scrut, index: idx, kind: AccessKind::Direct });
                test_pattern(body, &ps[i], elem, fail);
                i += 1;
            }
            assert(ps@.take(i as int) =~= ps@);
        },
        Pattern::TupleVariant(adt, ps) => {
            let tag = emit(body, Inst::IsInstance { src: scrut, adt: *adt });
            emit(body, Inst::JumpIfFalse { condition: tag, target: fail });
            let ok = new_block(body);
            emit(body, Inst::Jump { target: ok });
            goto_block(body, ok);
            let ghost e1 = emitted(*body);
            let ghost b1 = *body;
            let mut i: usize = 0;
            while i < ps.len()
                invariant
                    *pat == Pattern::TupleVariant(*adt, *ps),
                    i <= ps@.len(),
                    ready(*body),
                    grown(b1, *body, slots_size(ps@.take(i as int))),
                    room(b1, slots_size(ps@)),
                    scrut.0 < b1.instructions@.len(),
                    fail.0 < b1.blocks@.len(),
                    emitted(*body) == slots_code(e1, ps@.take(i as int), scrut, fail),
                decreases ps@.len() - i,
            {
                proof {
                    assert(ps@.take(i + 1).drop_last() =~= ps@.take(i as int));
                    lemma_sizes_grow(ps@, Seq::empty(), i + 1, ps@.len() as int);
                    assert(ps@.take(ps@.len() as int) =~= ps@);
                }
                assert(decreases_to!(*pat => (*pat)->TupleVariant_1));
                assert(decreases_to!(*ps => ps@));
                assert(decreases_to!(ps@ => ps@[i as int]));
                let elem = emit(body, Inst::GetField { src: scrut, slot: i as u32, kind: AccessKind::Direct });
                test_pattern(body, &ps[i], elem, fail);
                i += 1;
            }
            assert(ps@.take(i as int) =~= ps@);
        },
        Pattern::Struct(adt, fs) => {
            let tag = emit(body, Inst::IsInstance { src: scrut, adt: *adt });
            emit(body, Inst::JumpIfFalse { condition: tag, target: fail });
            let ok = new_block(body);
            emit(body, Inst::Jump { target: ok });
            goto_block(body, ok);
            let ghost e1 = emitted(*body);
            let ghost b1 = *body;
            let mut i: usize = 0;
            while i < fs.len()
                invariant
                    *pat == Pattern::Struct(*adt, *fs),
                    i <= fs@.len(),
                    ready(*body),
                    grown(b1, *body, fields_size(fs@.take(i as int))),
                    room(b1, fields_size(fs@)),
                    scrut.0 < b1.instructions@.len(),
                    fail.0 < b1.blocks@.len(),
                    emitted(*body) == fields_code(e1, fs@.take(i as int), scrut, fail),
                decreases fs@.len() - i,
            {
                proof {
                    assert(fs@.take(i + 1).drop_last() =~= fs@.take(i as int));
                    lemma_sizes_grow(Seq::empty(), fs@, i + 1, fs@.len() as int);
                    assert(fs@.take(fs@.len() as int) =~= fs@);
                }
                assert(decreases_to!(*pat => (*pat)->Struct_1));
                assert(decreases_to!(*fs => fs@));
                assert(decreases_to!(fs@ => fs@[i as int]));
                assert(decreases_to!(fs@[i as int] => fs@[i as int].1));
                let elem = emit(body, Inst::GetField { src: scrut, slot: fs[i].0, kind: AccessKind::Direct });
                test_pattern(body, &fs[i].1, elem, fail);
                i += 1;
            }
            assert(fs@.take(i as int) =~= fs@);
        },
        Pattern::NullBind(inner, is_result) => {
            let cond = if *is_result {
                let raised = emit(body, Inst::IsRaised(scrut));
                emit(body, Inst::UnaryOp { op: UnaryOp::Not, right: raised })
            } else {
                let null = emit(body, Inst::Constant(Constant::Null));
                emit(body, Inst::BinOp { left: scrut, op: BinOp::NotEqual, right: null, kind: OperandKind::Generic })
            };
            emit(body, Inst::JumpIfFalse { condition: cond, target: fail });
            let ok = new_block(body);
            emit(body, Inst::Jump { target: ok });
            goto_block(body, ok);
            test_pattern(body, &**inner, scrut, fail);
        },
        Pattern::Or(alts) => {
            if alts.len() == 0 {
                emit(body, Inst::Jump { target: fail });
                return Some(());
            }
            let success = new_block(body);
            let ghost e1 = emitted(*body);
            let ghost b1 = *body;
            let mut i: usize = 0;
            while i < alts.len()
                invariant
                    *pat == Pattern::Or(*alts),
                    i <= alts@.len(),
                    ready(*body),
                    grown(b1, *body, or_size(alts@.take(i as int))),
                    room(b1, or_size(alts@)),
                    scrut.0 < b1.instructions@.len(),
                    fail.0 < b1.blocks@.len(),
                    success.0 < b1.blocks@.len(),
                    emitted(*body) == or_code(e1, alts@.take(i as int), alts@.len(), scrut, fail, success),
                decreases alts@.len() - i,
            {
                proof {
                    assert(alts@.take(i + 1).drop_last() =~= alts@.take(i as int));
                    lemma_sizes_grow(alts@, Seq::empty(), i + 1, alts@.len() as int);
                    assert(alts@.take(alts@.len() as int) =~= alts@);
                }
                assert(decreases_to!(*pat => (*pat)->Or_0));
                assert(decreases_to!(*alts => alts@));
                assert(decreases_to!(alts@ => alts@[i as int]));
                let last = i + 1 == alts.len();
                let try_next = if last { fail } else { new_block(body) };
                test_pattern(body, &alts[i], scrut, try_next);
                emit(body, Inst::Jump { target: success });
                if !last {
                    goto_block(body, try_next);
                }
                i += 1;
            }
            assert(alts@.take(i as int) =~= alts@);
            goto_block(body, success);
        },
    }
    Some(())
}

/// Emits the IR that sets the bindings of `pat` from `scrut`, where a jump table has already
/// matched its tag (see [`bind_code`]): no test, no new block.
pub fn bind_pattern(body: &mut Body, pat: &Pattern, scrut: InstId)
    requires
        ready(*old(body)),
        room(*old(body), pattern_size(*pat)),
        scrut.0 < old(body).instructions@.len(),
        bindable(*pat),
    ensures
        emitted(*final(body)) == bind_code(emitted(*old(body)), *pat, scrut),
        grown(*old(body), *final(body), pattern_size(*pat)),
        final(body).blocks@.len() == old(body).blocks@.len(),
    decreases pat,
{
    let ghost e0 = emitted(*body);
    let ghost b0 = *body;
    match pat {
        Pattern::Bind(l) => {
            emit(body, Inst::SetLocal(*l, scrut));
        },
        Pattern::TupleVariant(adt, ps) => {
            assert(pattern_size(*pat) == 4 + slots_size(ps@));
            assert(forall|k: int| 0 <= k < ps@.len() ==> bindable(#[trigger] ps@[k]));
            let mut i: usize = 0;
            while i < ps.len()
                invariant
                    *pat == Pattern::TupleVariant(*adt, *ps),
                    forall|k: int| 0 <= k < ps@.len() ==> bindable(#[trigger] ps@[k]),
                    i <= ps@.len(),
                    ready(*body),
                    grown(b0, *body, slots_size(ps@.take(i as int))),
                    body.blocks@.len() == b0.blocks@.len(),
                    room(b0, 4 + slots_size(ps@)),
                    scrut.0 < b0.instructions@.len(),
                    emitted(*body) == bind_slots(e0, ps@.take(i as int), scrut),
                decreases ps@.len() - i,
            {
                proof {
                    assert(ps@.take(i + 1).drop_last() =~= ps@.take(i as int));
                    lemma_sizes_grow(ps@, Seq::empty(), i + 1, ps@.len() as int);
                    assert(ps@.take(ps@.len() as int) =~= ps@);
                }
                assert(decreases_to!(*pat => (*pat)->TupleVariant_1));
                assert(decreases_to!(*ps => ps@));
                assert(decreases_to!(ps@ => ps@[i as int]));
                let elem = emit(body, Inst::GetField { src: scrut, slot: i as u32, kind: AccessKind::Direct });
                bind_pattern(body, &ps[i], elem);
                i += 1;
            }
            assert(ps@.take(i as int) =~= ps@);
        },
        Pattern::Struct(adt, fs) => {
            assert(pattern_size(*pat) == 4 + fields_size(fs@));
            assert(forall|k: int| 0 <= k < fs@.len() ==> bindable(#[trigger] fs@[k].1));
            let mut i: usize = 0;
            while i < fs.len()
                invariant
                    *pat == Pattern::Struct(*adt, *fs),
                    forall|k: int| 0 <= k < fs@.len() ==> bindable(#[trigger] fs@[k].1),
                    i <= fs@.len(),
                    ready(*body),
                    grown(b0, *body, fields_size(fs@.take(i as int))),
                    body.blocks@.len() == b0.blocks@.len(),
                    room(b0, 4 + fields_size(fs@)),
                    scrut.0 < b0.instructions@.len(),
                    emitted(*body) == bind_fields(e0, fs@.take(i as int), scrut),
                decreases fs@.len() - i,
            {
                proof {
                    assert(fs@.take(i + 1).drop_last() =~= fs@.take(i as int));
                    lemma_sizes_grow(Seq::empty(), fs@, i + 1, fs@.len() as int);
                    assert(fs@.take(fs@.len() as int) =~= fs@);
                }
                assert(decreases_to!(*pat => (*pat)->Struct_1));
                assert(decreases_to!(*fs => fs@));
                assert(decreases_to!(fs@ => fs@[i as int]));
                assert(decreases_to!(fs@[i as int] => fs@[i as int].1));
                let elem = emit(body, Inst::GetField { src: scrut, slot: fs[i].0, kind: AccessKind::Direct });
                bind_pattern(body, &fs[i].1, elem);
                i += 1;
            }
            assert(fs@.take(i as int) =~= fs@);
        },
        Pattern::Or(alts) => {
            if alts.len() > 0 {
                proof {
                    lemma_sizes_grow(alts@, Seq::empty(), 1, alts@.len() as int);
                    assert(alts@.take(alts@.len() as int) =~= alts@);
                    assert(alts@.take(1).drop_last() =~= Seq::<Pattern>::empty());
                    assert(alts@.take(1).last() == alts@[0]);
                    assert(alts@.take(1).len() == 1);
                    assert(or_size(Seq::<Pattern>::empty()) == 0);
                    assert(or_size(alts@.take(1)) == or_size(alts@.take(1).drop_last()) + 2 + pattern_size(alts@.take(1).last()));
                    assert(or_size(alts@.take(1)) == 2 + pattern_size(alts@[0]));
                    assert(pattern_size(*pat) == 2 + or_size(alts@));
                    assert(bindable(alts@[0]));
                }
                assert(decreases_to!(*pat => (*pat)->Or_0));
                assert(decreases_to!(*alts => alts@));
                assert(decreases_to!(alts@ => alts@[0]));
                bind_pattern(body, &alts[0], scrut);
            }
        },
        _ => {},
    }
}

} // verus!
