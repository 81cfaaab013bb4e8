//! The text of the intermediate representation, as an IR dump shows it.
use vstd::prelude::*;
use vstd::string::{StrSliceExecFns, StringExecFns};

use crate::cli::decimal;
use crate::constant::{lemma_models_len, models, ConstValue, Constant};
use crate::ids::{BlockId, InstId, Local};
use crate::ir::{FormatPart, Inst};
use crate::ops::{bin_op_name, unary_op_name, AccessKind, OperandKind};

verus! {

/// `n` in decimal digits.
pub open spec fn dec(n: nat) -> Seq<char> {
    decimal(n)
}

/// An instruction by its id: `i3`.
pub open spec fn iref(i: InstId) -> Seq<char> {
    "i"@ + dec(i.0 as nat)
}

/// A local by its id: `l0`.
pub open spec fn lref(l: Local) -> Seq<char> {
    "l"@ + dec(l.0 as nat)
}

/// A block by its id: `b2`.
pub open spec fn bref(b: BlockId) -> Seq<char> {
    "b"@ + dec(b.0 as nat)
}

/// Texts one after another, with `, ` between them.
pub open spec fn joined(items: Seq<Seq<char>>) -> Seq<char>
    decreases items.len(),
{
    if items.len() == 0 {
        Seq::empty()
    } else if items.len() == 1 {
        items[0]
    } else {
        joined(items.drop_last()) + ", "@ + items.last()
    }
}

/// A list of instructions: `i1, i2`.
pub open spec fn irefs(v: Seq<InstId>) -> Seq<char> {
    joined(v.map_values(|i: InstId| iref(i)))
}

/// A phi's branches: `b1: i3, b2: i4`.
pub open spec fn phi_text(bs: Seq<(BlockId, InstId)>) -> Seq<char> {
    joined(bs.map_values(|b: (BlockId, InstId)| bref(b.0) + ": "@ + iref(b.1)))
}

/// A switch's arms, each labelled with its value counted from `base`: `4: b1, 5: b2`.
pub open spec fn arms_text(base: u32, table: Seq<BlockId>) -> Seq<char> {
    joined(Seq::new(table.len(), |i: int| dec((base + i) as nat) + ": "@ + bref(table[i])))
}

/// A piece of a format string: a literal as `Debug` writes text, a value by its id.
pub open spec fn part_text(p: FormatPart, strs: Seq<String>) -> Seq<char> {
    match p {
        FormatPart::Literal(s) => str_debug(strs[s.0 as int]@),
        FormatPart::Value(i) => iref(i),
    }
}

/// The pieces of a format string.
pub open spec fn parts_text(ps: Seq<FormatPart>, strs: Seq<String>) -> Seq<char> {
    joined(ps.map_values(|p: FormatPart| part_text(p, strs)))
}

/// How `Debug` writes text: quoted, with quotes, backslashes and control characters escaped.
pub uninterp spec fn str_debug(s: Seq<char>) -> Seq<char>;

/// Text as `Debug` writes it, with `format!`'s `{:?}`.
#[verifier::external_body]
fn debug_text(s: &str) -> (r: String)
    ensures
        r@ == str_debug(s@),
{
    format!("{:?}", s)
}

/// The name `Debug` gives an operand type.
pub open spec fn kind_name(k: OperandKind) -> Seq<char> {
    match k {
        OperandKind::Bool => "Bool"@,
        OperandKind::Int => "Int"@,
        OperandKind::Float => "Float"@,
        OperandKind::Str => "Str"@,
        OperandKind::Generic => "Generic"@,
    }
}

/// `?` for an access that may find nothing.
pub open spec fn access_mark(k: AccessKind) -> Seq<char> {
    match k {
        AccessKind::Direct => Seq::empty(),
        AccessKind::Optional => "?"@,
    }
}

/// `!` for a negated membership test.
pub open spec fn negation(holds: bool) -> Seq<char> {
    if holds {
        Seq::empty()
    } else {
        "!"@
    }
}

/// A signed integer in decimal digits, with a `-` when it is negative.
pub open spec fn signed(i: i64) -> Seq<char> {
    if i < 0 {
        "-"@ + dec((-i) as nat)
    } else {
        dec(i as nat)
    }
}

/// A constant as it shows itself: `true`, `-3`, `str 7`, `null`, an array as `[1, 2, str 7]`. A
/// float, alone or inside an array, has no text here.
pub open spec fn const_text(c: ConstValue) -> Option<Seq<char>>
    decreases c,
{
    match c {
        ConstValue::Bool(b) => Some(if b { "true"@ } else { "false"@ }),
        ConstValue::Int(i) => Some(signed(i)),
        ConstValue::Float(_) => None,
        ConstValue::Str(s) => Some("str "@ + dec(s.0 as nat)),
        ConstValue::Array(items) => match items_text(items) {
            Some(t) => Some("["@ + t + "]"@),
            None => None,
        },
        ConstValue::Null => Some("null"@),
    }
}

/// The items of an array constant, with `, ` between them.
pub open spec fn items_text(items: Seq<ConstValue>) -> Option<Seq<char>>
    decreases items,
{
    if items.len() == 0 {
        Some(Seq::empty())
    } else {
        match (items_text(items.drop_last()), const_text(items.last())) {
            (Some(a), Some(b)) => Some(if items.len() == 1 { b } else { a + ", "@ + b }),
            _ => None,
        }
    }
}

/// The text of a constant (see [`const_text`]); `None` where it holds a float.
pub fn constant_text(c: &Constant) -> (r: Option<String>)
    ensures
        match const_text(c.model()) {
            Some(t) => r matches Some(s) && s@ == t,
            None => r is None,
        },
    decreases c,
{
    match c {
        Constant::Bool(b) => Some(String::from_str(if *b { "true" } else { "false" })),
        Constant::Int(i) => Some(signed_text(*i)),
        Constant::Float(_) => None,
        Constant::Str(s) => Some(String::from_str("str ").concat(crate::cli::decimal_text(s.0 as u64).as_str())),
        Constant::Null => Some(String::from_str("null")),
        Constant::Array(a) => {
            proof {
                lemma_models_len(a@);
            }
            let mut acc = String::new();
            let mut i: usize = 0;
            while i < a.len()
                invariant
                    *c == Constant::Array(*a),
                    i <= a@.len(),
                    models(a@).len() == a@.len(),
                    forall|j: int| 0 <= j < a@.len() ==> #[trigger] models(a@)[j] == a@[j].model(),
                    items_text(models(a@).take(i as int)) == Some(acc@),
                decreases a@.len() - i,
            {
                let ghost ms = models(a@);
                proof {
                    assert(ms.take(i + 1).drop_last() =~= ms.take(i as int));
                    assert(ms.take(i + 1).last() == a@[i as int].model());
                }
                assert(decreases_to!(*c => (*c)->Array_0));
                assert(decreases_to!(*a => a@));
                assert(decreases_to!(a@ => a@[i as int]));
                match constant_text(&a[i]) {
                    Some(t) => {
                        if i > 0 {
                            acc.append(", ");
                        }
                        acc.append(t.as_str());
                    },
                    None => {
                        proof {
                            lemma_items_text_none(ms, i as int);
                        }
                        assert(ms.take(a@.len() as int) =~= ms);
                        return None;
                    },
                }
                i += 1;
            }
            assert(models(a@).take(i as int) =~= models(a@));
            Some(String::from_str("[").concat(acc.as_str()).concat("]"))
        },
    }
}

/// An array with an item that has no text has none.
proof fn lemma_items_text_none(items: Seq<ConstValue>, i: int)
    requires
        0 <= i < items.len(),
        const_text(items[i]) is None,
    ensures
        items_text(items) is None,
    decreases items.len(),
{
    if i < items.len() - 1 {
        lemma_items_text_none(items.drop_last(), i);
    }
}

/// A switch's arm values fit `u32`.
pub open spec fn arms_fit(inst: Inst) -> bool {
    inst matches Inst::Switch { base, table, .. } ==> base + table@.len() <= u32::MAX + 1
}

/// Every string an instruction names is in `strs`.
pub open spec fn strs_cover(inst: Inst, n: nat) -> bool {
    match inst {
        Inst::Constant(Constant::Str(s)) => s.0 < n,
        Inst::Insert { key, .. } => key.0 < n,
        Inst::Format(parts) => forall|k: int|
            0 <= k < parts@.len() ==> (#[trigger] parts@[k] matches FormatPart::Literal(s) ==> s.0 < n),
        _ => true,
    }
}

/// The text an IR dump shows for an instruction, with `strs` the interned strings. A float
/// constant, or an array that holds one, has none here: floats are written only outside the
/// library.
pub open spec fn inst_plain_text(inst: Inst, strs: Seq<String>) -> Option<Seq<char>> {
    match inst {
        Inst::Constant(c) => match c {
            Constant::Bool(b) => Some("const "@ + if b { "true"@ } else { "false"@ }),
            Constant::Int(i) => Some("const "@ + signed(i)),
            Constant::Str(s) => Some("const "@ + "\""@ + strs[s.0 as int]@ + "\""@),
            Constant::Null => Some("const "@ + "null"@),
            _ => match const_text(c.model()) {
                Some(t) => Some("const "@ + t),
                None => None,
            },
        },
        _ => Some(match inst {
        Inst::SetLocal(l, v) => "set "@ + lref(l) + ": "@ + iref(v),
        Inst::GetLocal(l) => "get "@ + lref(l),
        Inst::BinOp { left, op, right, kind } => bin_op_name(op) + " "@ + iref(left) + ", "@ + iref(right) + " ("@ + kind_name(kind) + ")"@,
        Inst::UnaryOp { op, right } => unary_op_name(op) + " "@ + iref(right),
        Inst::JumpIfFalse { condition, target } => "jump_if_false "@ + iref(condition) + ", "@ + bref(target),
        Inst::Jump { target } => "jump "@ + bref(target),
        Inst::Phi(branches) => "phi "@ + phi_text(branches@),
        Inst::ForNext { idx, bound, target } => "for_next "@ + iref(idx) + " in "@ + iref(bound) + " -> "@ + bref(target),
        Inst::NewArray => "new_array"@,
        Inst::NewDict => "new_dict"@,
        Inst::SetIndex { set, index, value } => "set_index "@ + iref(set) + " @ "@ + iref(index) + ": "@ + iref(value),
        Inst::Push { array, value } => "push "@ + iref(array) + ", "@ + iref(value),
        Inst::Insert { dict, key, value } => "insert "@ + iref(dict) + ", "@ + iref(value) + " @ "@ + strs[key.0 as int]@,
        Inst::GetIndex { set, index, kind } => "get_index "@ + iref(set) + " @ "@ + iref(index) + access_mark(kind),
        Inst::GetField { src, slot, kind } => "get_field "@ + iref(src) + " ."@ + dec(slot as nat) + access_mark(kind),
        Inst::SetField { receiver, slot, value } => "set_field "@ + iref(receiver) + " ."@ + dec(slot as nat) + ": "@ + iref(value),
        Inst::Len(v) => "len "@ + iref(v),
        Inst::ToFloat(v) => "to_float "@ + iref(v),
        Inst::Sqrt(v) => "sqrt "@ + iref(v),
        Inst::Unwrap(v) => "unwrap "@ + iref(v),
        Inst::Raise(v) => "raise "@ + iref(v),
        Inst::IsRaised(v) => "is_raised "@ + iref(v),
        Inst::UnwrapRaised(v) => "unwrap_raised "@ + iref(v),
        Inst::In(lhs, rhs, condition) => negation(condition) + "in "@ + iref(lhs) + ": "@ + iref(rhs),
        Inst::Format(parts) => "format "@ + parts_text(parts@, strs),
        Inst::RefBody(body) => "ref_body @"@ + dec(body.0 as nat),
        Inst::MakeClosure { body, captures } => "make_closure @"@ + dec(body.0 as nat) + " ["@ + irefs(captures@) + "]"@,
        Inst::Call { callee, args } => "call "@ + iref(callee) + "("@ + irefs(args@) + ")"@,
        Inst::CallDirect { body, args } => "call_direct @"@ + dec(body.0 as nat) + "("@ + irefs(args@) + ")"@,
        Inst::CallNative { id, args } => "call_native #"@ + dec(id.0 as nat) + "("@ + irefs(args@) + ")"@,
        Inst::Return(v) => "return "@ + iref(v),
        Inst::NewInstance { adt, fields } => "make_instance @"@ + dec(adt.0 as nat) + " { "@ + irefs(fields@) + " }"@,
        Inst::IsInstance { src, adt } => "is_instance "@ + iref(src) + " @"@ + dec(adt.0 as nat),
        Inst::Switch { scrut, base, table, default } => "switch "@ + iref(scrut) + " ["@ + arms_text(base, table@) + "] else "@ + bref(default),
        Inst::Panic => "panic"@,
            _ => Seq::empty(),
        }),
    }
}

fn iref_text(i: InstId) -> (s: String)
    ensures
        s@ == iref(i),
{
    String::from_str("i").concat(crate::cli::decimal_text(i.0 as u64).as_str())
}

fn lref_text(l: Local) -> (s: String)
    ensures
        s@ == lref(l),
{
    String::from_str("l").concat(crate::cli::decimal_text(l.0 as u64).as_str())
}

fn bref_text(b: BlockId) -> (s: String)
    ensures
        s@ == bref(b),
{
    String::from_str("b").concat(crate::cli::decimal_text(b.0 as u64).as_str())
}

proof fn lemma_joined_push(items: Seq<Seq<char>>, x: Seq<char>)
    ensures
        joined(items.push(x)) == if items.len() == 0 {
            x
        } else {
            joined(items) + ", "@ + x
        },
{
    assert(items.push(x).drop_last() =~= items);
}

proof fn lemma_views_push(texts: Seq<String>, t: String, want: Seq<Seq<char>>)
    requires
        texts.map_values(|x: String| x@) == want,
    ensures
        texts.push(t).map_values(|x: String| x@) == want.push(t@),
{
    assert(texts.push(t).map_values(|x: String| x@) =~= want.push(t@)) by {
        assert forall|q: int| 0 <= q < texts.len() implies texts.push(t).map_values(|x: String| x@)[q] == want[q] by {
            assert(texts.map_values(|x: String| x@)[q] == texts[q]@);
        }
    }
}

/// `texts` one after another with `, ` between them.
fn join_texts(texts: &Vec<String>) -> (s: String)
    ensures
        s@ == joined(texts@.map_values(|t: String| t@)),
{
    let mut s = String::new();
    let mut k: usize = 0;
    while k < texts.len()
        invariant
            k <= texts@.len(),
            s@ == joined(texts@.take(k as int).map_values(|t: String| t@)),
        decreases texts@.len() - k,
    {
        proof {
            assert(texts@.take(k + 1).map_values(|t: String| t@) =~= texts@.take(k as int).map_values(
                |t: String| t@,
            ).push(texts@[k as int]@));
            lemma_joined_push(texts@.take(k as int).map_values(|t: String| t@), texts@[k as int]@);
        }
        if k == 0 {
            s = texts[k].clone();
        } else {
            s = s.concat(", ").concat(texts[k].as_str());
        }
        k += 1;
    }
    proof {
        assert(texts@.take(k as int) =~= texts@);
    }
    s
}

fn irefs_text(v: &Vec<InstId>) -> (s: String)
    ensures
        s@ == irefs(v@),
{
    let mut texts: Vec<String> = Vec::new();
    let mut k: usize = 0;
    while k < v.len()
        invariant
            k <= v@.len(),
            texts@.map_values(|t: String| t@) == v@.take(k as int).map_values(|i: InstId| iref(i)),
        decreases v@.len() - k,
    {
        let t = iref_text(v[k]);
        proof {
            lemma_views_push(texts@, t, v@.take(k as int).map_values(|i: InstId| iref(i)));
            assert(v@.take(k + 1).map_values(|i: InstId| iref(i)) =~= v@.take(k as int).map_values(|i: InstId| iref(i)).push(
                iref(v@[k as int]),
            ));
        }
        texts.push(t);
        k += 1;
    }
    assert(v@.take(k as int) =~= v@);
    join_texts(&texts)
}

fn phi_texts(bs: &Vec<(BlockId, InstId)>) -> (s: String)
    ensures
        s@ == phi_text(bs@),
{
    let mut texts: Vec<String> = Vec::new();
    let mut k: usize = 0;
    while k < bs.len()
        invariant
            k <= bs@.len(),
            texts@.map_values(|t: String| t@) == bs@.take(k as int).map_values(
                |b: (BlockId, InstId)| bref(b.0) + ": "@ + iref(b.1),
            ),
        decreases bs@.len() - k,
    {
        let (blk, i) = bs[k];
        let t = bref_text(blk).concat(": ").concat(iref_text(i).as_str());
        proof {
            lemma_views_push(texts@, t, bs@.take(k as int).map_values(|b: (BlockId, InstId)| bref(b.0) + ": "@ + iref(b.1)));
            assert(bs@.take(k + 1).map_values(|b: (BlockId, InstId)| bref(b.0) + ": "@ + iref(b.1)) =~= bs@.take(
                k as int,
            ).map_values(|b: (BlockId, InstId)| bref(b.0) + ": "@ + iref(b.1)).push(bref(blk) + ": "@ + iref(i)));
        }
        texts.push(t);
        k += 1;
    }
    assert(bs@.take(k as int) =~= bs@);
    join_texts(&texts)
}

fn arms_texts(base: u32, table: &Vec<BlockId>) -> (s: String)
    requires
        base + table@.len() <= u32::MAX + 1,
    ensures
        s@ == arms_text(base, table@),
{
    let mut texts: Vec<String> = Vec::new();
    let mut k: usize = 0;
    let ghost want = Seq::new(table@.len(), |i: int| dec((base + i) as nat) + ": "@ + bref(table@[i]));
    while k < table.len()
        invariant
            k <= table@.len(),
            want == Seq::new(table@.len(), |i: int| dec((base + i) as nat) + ": "@ + bref(table@[i])),
            base + table@.len() <= u32::MAX + 1,
            texts@.map_values(|t: String| t@) == want.take(k as int),
        decreases table@.len() - k,
    {
        let label = crate::cli::decimal_text(base as u64 + k as u64);
        let t = label.concat(": ").concat(bref_text(table[k]).as_str());
        proof {
            lemma_views_push(texts@, t, want.take(k as int));
            assert(want.take(k + 1) =~= want.take(k as int).push(want[k as int]));
        }
        texts.push(t);
        k += 1;
    }
    assert(want.take(k as int) =~= want);
    join_texts(&texts)
}

fn parts_texts(ps: &Vec<FormatPart>, strs: &Vec<String>) -> (s: String)
    requires
        forall|k: int| 0 <= k < ps@.len() ==> (#[trigger] ps@[k] matches FormatPart::Literal(x) ==> x.0 < strs@.len()),
    ensures
        s@ == parts_text(ps@, strs@),
{
    let mut texts: Vec<String> = Vec::new();
    let mut k: usize = 0;
    while k < ps.len()
        invariant
            k <= ps@.len(),
            forall|q: int| 0 <= q < ps@.len() ==> (#[trigger] ps@[q] matches FormatPart::Literal(x) ==> x.0 < strs@.len()),
            texts@.map_values(|t: String| t@) == ps@.take(k as int).map_values(|p: FormatPart| part_text(p, strs@)),
        decreases ps@.len() - k,
    {
        let t = match ps[k] {
            FormatPart::Literal(x) => debug_text(strs[x.0 as usize].as_str()),
            FormatPart::Value(i) => iref_text(i),
        };
        proof {
            lemma_views_push(texts@, t, ps@.take(k as int).map_values(|p: FormatPart| part_text(p, strs@)));
            assert(ps@.take(k + 1).map_values(|p: FormatPart| part_text(p, strs@)) =~= ps@.take(k as int).map_values(
                |p: FormatPart| part_text(p, strs@),
            ).push(part_text(ps@[k as int], strs@)));
        }
        texts.push(t);
        k += 1;
    }
    assert(ps@.take(k as int) =~= ps@);
    join_texts(&texts)
}

fn kind_text(k: OperandKind) -> (s: &'static str)
    ensures
        s@ == kind_name(k),
{
    match k {
        OperandKind::Bool => "Bool",
        OperandKind::Int => "Int",
        OperandKind::Float => "Float",
        OperandKind::Str => "Str",
        OperandKind::Generic => "Generic",
    }
}

pub(crate) fn mark_text(k: AccessKind) -> (s: &'static str)
    ensures
        s@ == access_mark(k),
{
    match k {
        AccessKind::Direct => {
            proof {
                reveal_strlit("");
            }
            ""
        },
        AccessKind::Optional => "?",
    }
}

fn negation_text(holds: bool) -> (s: &'static str)
    ensures
        s@ == negation(holds),
{
    if holds {
        proof {
            reveal_strlit("");
        }
        ""
    } else {
        "!"
    }
}

pub(crate) fn signed_text(i: i64) -> (s: String)
    ensures
        s@ == signed(i),
{
    if i < 0 {
        let m: u64 = (-(i as i128)) as u64;
        String::from_str("-").concat(crate::cli::decimal_text(m).as_str())
    } else {
        crate::cli::decimal_text(i as u64)
    }
}

/// The text an IR dump shows for `inst`, with `strs` the interned strings (see
/// [`inst_plain_text`]); `None` for a float constant, or an array that holds one, whose text is
/// written outside the library.
pub fn inst_text(inst: &Inst, strs: &Vec<String>) -> (s: Option<String>)
    requires
        strs_cover(*inst, strs@.len()),
        arms_fit(*inst),
    ensures
        match inst_plain_text(*inst, strs@) {
            Some(t) => s matches Some(x) && x@ == t,
            None => s is None,
        },
{
    match inst {
        Inst::Constant(c) => match c {
            Constant::Bool(b) => Some(String::from_str("const ").concat(if *b { "true" } else { "false" })),
            Constant::Int(i) => Some(String::from_str("const ").concat(signed_text(*i).as_str())),
            Constant::Str(x) => Some(
                String::from_str("const ").concat("\"").concat(strs[x.0 as usize].as_str()).concat("\""),
            ),
            Constant::Null => Some(String::from_str("const ").concat("null")),
            _ => match constant_text(c) {
                Some(t) => Some(String::from_str("const ").concat(t.as_str())),
                None => None,
            },
        },
        Inst::SetLocal(l, v) => Some(String::from_str("set ").concat(lref_text(*l).as_str()).concat(": ").concat(iref_text(*v).as_str())),
        Inst::GetLocal(l) => Some(String::from_str("get ").concat(lref_text(*l).as_str())),
        Inst::BinOp { left, op, right, kind } => Some(String::from_str(op.name()).concat(" ").concat(iref_text(*left).as_str()).concat(", ").concat(iref_text(*right).as_str()).concat(" (").concat(String::from_str(kind_text(*kind)).as_str()).concat(")")),
        Inst::UnaryOp { op, right } => Some(String::from_str(op.name()).concat(" ").concat(iref_text(*right).as_str())),
        Inst::JumpIfFalse { condition, target } => Some(String::from_str("jump_if_false ").concat(iref_text(*condition).as_str()).concat(", ").concat(bref_text(*target).as_str())),
        Inst::Jump { target } => Some(String::from_str("jump ").concat(bref_text(*target).as_str())),
        Inst::Phi(branches) => Some(String::from_str("phi ").concat(phi_texts(branches).as_str())),
        Inst::ForNext { idx, bound, target } => Some(String::from_str("for_next ").concat(iref_text(*idx).as_str()).concat(" in ").concat(iref_text(*bound).as_str()).concat(" -> ").concat(bref_text(*target).as_str())),
        Inst::NewArray => Some(String::from_str("new_array")),
        Inst::NewDict => Some(String::from_str("new_dict")),
        Inst::SetIndex { set, index, value } => Some(String::from_str("set_index ").concat(iref_text(*set).as_str()).concat(" @ ").concat(iref_text(*index).as_str()).concat(": ").concat(iref_text(*value).as_str())),
        Inst::Push { array, value } => Some(String::from_str("push ").concat(iref_text(*array).as_str()).concat(", ").concat(iref_text(*value).as_str())),
        Inst::Insert { dict, key, value } => Some(String::from_str("insert ").concat(iref_text(*dict).as_str()).concat(", ").concat(iref_text(*value).as_str()).concat(" @ ").concat(strs[key.0 as usize].clone().as_str())),
        Inst::GetIndex { set, index, kind } => Some(String::from_str("get_index ").concat(iref_text(*set).as_str()).concat(" @ ").concat(iref_text(*index).as_str()).concat(String::from_str(mark_text(*kind)).as_str())),
        Inst::GetField { src, slot, kind } => Some(String::from_str("get_field ").concat(iref_text(*src).as_str()).concat(" .").concat(crate::cli::decimal_text(*slot as u64).as_str()).concat(String::from_str(mark_text(*kind)).as_str())),
        Inst::SetField { receiver, slot, value } => Some(String::from_str("set_field ").concat(iref_text(*receiver).as_str()).concat(" .").concat(crate::cli::decimal_text(*slot as u64).as_str()).concat(": ").concat(iref_text(*value).as_str())),
        Inst::Len(v) => Some(String::from_str("len ").concat(iref_text(*v).as_str())),
        Inst::ToFloat(v) => Some(String::from_str("to_float ").concat(iref_text(*v).as_str())),
        Inst::Sqrt(v) => Some(String::from_str("sqrt ").concat(iref_text(*v).as_str())),
        Inst::Unwrap(v) => Some(String::from_str("unwrap ").concat(iref_text(*v).as_str())),
        Inst::Raise(v) => Some(String::from_str("raise ").concat(iref_text(*v).as_str())),
        Inst::IsRaised(v) => Some(String::from_str("is_raised ").concat(iref_text(*v).as_str())),
        Inst::UnwrapRaised(v) => Some(String::from_str("unwrap_raised ").concat(iref_text(*v).as_str())),
        Inst::In(lhs, rhs, condition) => Some(String::from_str(negation_text(*condition)).concat("in ").concat(iref_text(*lhs).as_str()).concat(": ").concat(iref_text(*rhs).as_str())),
        Inst::Format(parts) => Some(String::from_str("format ").concat(parts_texts(parts, strs).as_str())),
        Inst::RefBody(body) => Some(String::from_str("ref_body @").concat(crate::cli::decimal_text(body.0 as u64).as_str())),
        Inst::MakeClosure { body, captures } => Some(String::from_str("make_closure @").concat(crate::cli::decimal_text(body.0 as u64).as_str()).concat(" [").concat(irefs_text(captures).as_str()).concat("]")),
        Inst::Call { callee, args } => Some(String::from_str("call ").concat(iref_text(*callee).as_str()).concat("(").concat(irefs_text(args).as_str()).concat(")")),
        Inst::CallDirect { body, args } => Some(String::from_str("call_direct @").concat(crate::cli::decimal_text(body.0 as u64).as_str()).concat("(").concat(irefs_text(args).as_str()).concat(")")),
        Inst::CallNative { id, args } => Some(String::from_str("call_native #").concat(crate::cli::decimal_text(id.0 as u64).as_str()).concat("(").concat(irefs_text(args).as_str()).concat(")")),
        Inst::Return(v) => Some(String::from_str("return ").concat(iref_text(*v).as_str())),
        Inst::NewInstance { adt, fields } => Some(String::from_str("make_instance @").concat(crate::cli::decimal_text(adt.0 as u64).as_str()).concat(" { ").concat(irefs_text(fields).as_str()).concat(" }")),
        Inst::IsInstance { src, adt } => Some(String::from_str("is_instance ").concat(iref_text(*src).as_str()).concat(" @").concat(crate::cli::decimal_text(adt.0 as u64).as_str())),
        Inst::Switch { scrut, base, table, default } => Some(String::from_str("switch ").concat(iref_text(*scrut).as_str()).concat(" [").concat(arms_texts(*base, table).as_str()).concat("] else ").concat(bref_text(*default).as_str())),
        Inst::Panic => Some(String::from_str("panic")),
    }
}

/// Each operand type has a name of its own in a listing, and whether an access may find nothing
/// and whether a membership test is negated show.
pub proof fn lemma_listing_marks_distinct(a: OperandKind, b: OperandKind, x: AccessKind, y: AccessKind, p: bool, q: bool)
    ensures
        kind_name(a) == kind_name(b) ==> a == b,
        access_mark(x) == access_mark(y) ==> x == y,
        negation(p) == negation(q) ==> p == q,
{
    reveal_strlit("Bool");
    reveal_strlit("Int");
    reveal_strlit("Float");
    reveal_strlit("Str");
    reveal_strlit("Generic");
    reveal_strlit("?");
    reveal_strlit("!");
    assert(kind_name(a)[0] != kind_name(b)[0] || a == b);
    assert(access_mark(x).len() != access_mark(y).len() || x == y);
    assert(negation(p).len() != negation(q).len() || p == q);
}

} // verus!
