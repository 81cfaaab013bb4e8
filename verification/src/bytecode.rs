//! Writing a whole op and reading it back: the encoder and decoder agree on every op.
use vstd::prelude::*;

use crate::field::{
    decode_field, encode_field, field_bytes, field_encodable, field_kind, field_len, field_wf, kinds,
    lemma_field_roundtrip, parse_field, views, Field, WireField, WireKind,
};
use crate::constant::prefixed;
use crate::list::{flat, lemma_flat_push};
use crate::op::{
    lemma_op_shape, op_bytes, op_code, op_encodable, op_model, op_operands, op_shape, op_wf,
    operand_kinds, opcode_byte, opcode_of, parse_fields, parse_op, Op, OpCode,
};
use crate::wire::{Decoder, Encoder};

verus! {

broadcast use vstd::seq_lib::group_seq_properties;

/// An operand read from bytes is of the kind that was asked for.
pub proof fn lemma_parse_field_kind(k: WireKind, s: Seq<u8>)
    ensures
        parse_field(k, s) matches Some((f, _)) ==> field_kind(f) == k,
{
}

/// Operands read one after the other are of the kinds asked for, in that order.
pub proof fn lemma_parse_fields_kinds(ks: Seq<WireKind>, s: Seq<u8>)
    ensures
        parse_fields(ks, s) matches Some((fs, _)) ==> kinds(fs) == ks,
    decreases ks.len(),
{
    if ks.len() == 0 {
        if let Some((fs, _)) = parse_fields(ks, s) {
            assert(kinds(fs) =~= ks);
        }
    } else {
        if let Some((f, k)) = parse_field(ks[0], s) {
            lemma_parse_field_kind(ks[0], s);
            lemma_parse_fields_kinds(ks.drop_first(), s.skip(k as int));
            if let Some((fs, m)) = parse_fields(ks.drop_first(), s.skip(k as int)) {
                assert(kinds(seq![f] + fs) =~= ks);
            }
        }
    }
}

/// Well-formed operands, written one after the other, read back as themselves.
pub proof fn lemma_fields_roundtrip(fs: Seq<WireField>, rest: Seq<u8>)
    requires
        forall|i: int| 0 <= i < fs.len() ==> field_wf(#[trigger] fs[i]),
    ensures
        parse_fields(kinds(fs), flat(fs, |f: WireField| field_bytes(f)) + rest) == Some(
            (fs, flat(fs, |f: WireField| field_bytes(f)).len()),
        ),
    decreases fs.len(),
{
    let fb = |f: WireField| field_bytes(f);
    if fs.len() == 0 {
        assert(kinds(fs) =~= Seq::<WireKind>::empty());
        assert(flat(fs, fb) =~= Seq::<u8>::empty());
    } else {
        let f = fs[0];
        let tail = fs.drop_first();
        let bytes = flat(fs, fb) + rest;
        assert(field_wf(fs[0]));
        assert(bytes =~= field_bytes(f) + (flat(tail, fb) + rest));
        lemma_field_roundtrip(f, flat(tail, fb) + rest);
        assert(kinds(fs)[0] == field_kind(f));
        assert(kinds(fs).drop_first() =~= kinds(tail));
        assert(bytes.skip(field_bytes(f).len() as int) =~= flat(tail, fb) + rest);
        assert forall|i: int| 0 <= i < tail.len() implies field_wf(#[trigger] tail[i]) by {
            assert(tail[i] == fs[i + 1]);
        }
        lemma_fields_roundtrip(tail, rest);
        assert(seq![f] + tail =~= fs);
    }
}

/// Reading an op back from its bytes gives its code and operands, and takes exactly those
/// bytes, whatever follows them.
pub proof fn lemma_op_roundtrip(op: Op, rest: Seq<u8>)
    requires
        op_wf(op),
    ensures
        parse_op(op_bytes(op) + rest) == Some((op_model(op), op_bytes(op).len())),
{
    let fs = op_operands(op);
    let fb = |f: WireField| field_bytes(f);
    let s = op_bytes(op) + rest;
    lemma_op_shape(op);
    assert(s[0] == op_code(op));
    assert(s.skip(1) =~= flat(fs, fb) + rest);
    lemma_fields_roundtrip(fs, rest);
}

/// The first byte of an op's encoding is its code, and that code names a kind of op: it is
/// below [`OpCode::COUNT`] and is the byte of exactly one [`OpCode`].
pub proof fn lemma_op_code_first(op: Op)
    ensures
        op_bytes(op).len() >= 1,
        op_bytes(op)[0] == op_code(op),
        op_shape(op_code(op)) is Some,
        (op_code(op) as usize) < OpCode::COUNT,
        exists|c: OpCode| opcode_byte(c) == op_code(op),
{
    lemma_op_shape(op);
    lemma_opcode_cover(op_code(op));
}

/// The kinds of op have distinct bytes.
pub proof fn lemma_opcode_distinct(a: OpCode, b: OpCode)
    ensures
        opcode_byte(a) == opcode_byte(b) ==> a == b,
{
    assert(opcode_of(opcode_byte(a)) == Some(a));
    assert(opcode_of(opcode_byte(b)) == Some(b));
}

/// Every byte below [`OpCode::COUNT`] is the byte of a kind of op, and no other byte is.
pub proof fn lemma_opcode_cover(b: u8)
    ensures
        (b as usize) < OpCode::COUNT <==> exists|c: OpCode| opcode_byte(c) == b,
{
    if (b as usize) < OpCode::COUNT {
        assert(opcode_of(b) is Some);
        assert(opcode_byte(opcode_of(b)->0) == b);
    }
    assert forall|c: OpCode| opcode_byte(c) == b implies (b as usize) < OpCode::COUNT by {
        assert(opcode_of(opcode_byte(c)) == Some(c));
    }
}


impl Op {
    /// How many bytes [`Op::encode`] writes for this op.
    pub fn encoded_len(&self) -> (n: usize)
        requires
            op_encodable(*self),
            op_bytes(*self).len() <= usize::MAX,
        ensures
            n == op_bytes(*self).len(),
    {
        let fields = self.operands();
        let ghost fs = op_operands(*self);
        let ghost fb = |f: WireField| field_bytes(f);
        let mut n: usize = 1;
        let mut i: usize = 0;
        proof {
            assert(fs.take(0) =~= Seq::<WireField>::empty());
            assert(views(fields@).len() == fs.len());
        }
        while i < fields.len()
            invariant
                i <= fields@.len(),
                views(fields@) == fs,
                fs == op_operands(*self),
                op_encodable(*self),
                op_bytes(*self).len() <= usize::MAX,
                op_bytes(*self) == seq![op_code(*self)] + flat(fs, fb),
                forall|f: WireField| #[trigger] fb(f) == field_bytes(f),
                n == 1 + flat(fs.take(i as int), fb).len(),
            decreases fields@.len() - i,
        {
            proof {
                assert(fields@[i as int]@ == fs[i as int]);
                assert(field_encodable(op_operands(*self)[i as int]));
                lemma_flat_push(fs.take(i as int), fs[i as int], fb);
                assert(fs.take(i + 1) =~= fs.take(i as int).push(fs[i as int]));
                assert(fb(fs[i as int]) == field_bytes(fs[i as int]));
                lemma_flat_prefix_len(fs, i as int + 1, fb);
                assert(flat(fs.take(i + 1), fb).len() == flat(fs.take(i as int), fb).len()
                    + field_bytes(fs[i as int]).len());
            }
            let k = field_len(&fields[i]);
            n = n + k;
            i = i + 1;
        }
        proof {
            assert(fs.take(i as int) =~= fs);
        }
        n
    }

    /// Writes this op: its code, then each operand in order.
    pub fn encode(self, e: &mut Encoder)
        requires
            op_encodable(self),
        ensures
            final(e)@ == old(e)@ + op_bytes(self),
    {
        e.u8(self.discriminant());
        let fields = self.operands();
        let ghost fs = op_operands(self);
        let ghost fb = |f: WireField| field_bytes(f);
        let ghost start = old(e)@ + seq![op_code(self)];
        let mut i: usize = 0;
        proof {
            assert(fs.take(0) =~= Seq::<WireField>::empty());
            assert(views(fields@).len() == fs.len());
            assert(start + flat(fs.take(0), fb) =~= start);
        }
        while i < fields.len()
            invariant
                i <= fields@.len(),
                views(fields@) == fs,
                fs == op_operands(self),
                op_encodable(self),
                e@ == start + flat(fs.take(i as int), fb),
                forall|f: WireField| #[trigger] fb(f) == field_bytes(f),
            decreases fields@.len() - i,
        {
            proof {
                assert(fields@[i as int]@ == fs[i as int]);
                assert(field_encodable(op_operands(self)[i as int]));
                lemma_flat_push(fs.take(i as int), fs[i as int], fb);
                assert(fs.take(i + 1) =~= fs.take(i as int).push(fs[i as int]));
                assert(fb(fs[i as int]) == field_bytes(fs[i as int]));
            }
            encode_field(&fields[i], e);
            assert(e@ =~= start + flat(fs.take(i + 1), fb));
            i = i + 1;
        }
        proof {
            assert(fs.take(i as int) =~= fs);
        }
        assert(e@ =~= old(e)@ + op_bytes(self));
    }

    /// Reads the op at the decoder's position: `None` when the bytes there are not one. On
    /// success the decoder has moved past the op's bytes.
    pub fn try_decode(d: &mut Decoder) -> (r: Option<Op>)
        requires
            old(d).ip <= old(d).bytes.len(),
        ensures
            final(d).bytes == old(d).bytes,
            match parse_op(old(d).rest()) {
                Some((m, n)) => r matches Some(op) && op_model(op) == m && final(d).ip == old(d).ip + n,
                None => r is None,
            },
    {
        let ghost s = d.rest();
        if d.ip >= d.bytes.len() {
            return None;
        }
        let code = d.u8();
        let ks = match operand_kinds(code) {
            Some(ks) => ks,
            None => return None,
        };
        let ghost ip1 = d.ip;
        assert(d.rest() =~= s.skip(1));
        let mut fields: Vec<Field> = Vec::new();
        let mut i: usize = 0;
        proof {
            assert(ks@.take(0) =~= Seq::<WireKind>::empty());
            assert(ks@.skip(0) =~= ks@);
            assert(s.skip(1).skip(0) =~= s.skip(1));
        }
        while i < ks.len()
            invariant
                i <= ks@.len(),
                d.bytes == old(d).bytes,
                ip1 <= d.ip <= d.bytes.len(),
                s == old(d).rest(),
                ip1 == old(d).ip + 1,
                s.len() >= 1,
                s[0] == code,
                d.rest() == s.skip(1).skip(d.ip - ip1),
                op_shape(code) == Some(ks@),
                kinds(views(fields@)) == ks@.take(i as int),
                parse_fields(ks@, s.skip(1)) == prefixed(
                    views(fields@),
                    (d.ip - ip1) as nat,
                    parse_fields(ks@.skip(i as int), d.rest()),
                ),
            decreases ks@.len() - i,
        {
            let ghost before = d.rest();
            let ghost off = (d.ip - ip1) as nat;
            proof {
                lemma_parse_field_kind(ks@[i as int], before);
            }
            match decode_field(d, ks[i]) {
                Some(f) => {
                    proof {
                        let (g, n) = parse_field(ks@[i as int], before)->0;
                        lemma_fields_step(ks@, i as int, before, views(fields@), off, g, n);
                        assert(d.rest() =~= s.skip(1).skip(d.ip - ip1));
                        assert(d.rest() =~= before.skip(n as int));
                        assert(views(fields@.push(f)) =~= views(fields@).push(f@));
                        assert(ks@.take(i + 1) =~= ks@.take(i as int).push(ks@[i as int]));
                        assert(kinds(views(fields@).push(f@)) =~= kinds(views(fields@)).push(field_kind(f@)));
                    }
                    fields.push(f);
                },
                None => {
                    proof {
                        lemma_fields_fail(ks@, i as int, before);
                        assert(parse_fields(ks@, s.skip(1)) is None);
                        assert(parse_op(s) is None);
                    }
                    return None;
                },
            }
            i = i + 1;
        }
        proof {
            assert(ks@.skip(i as int) =~= Seq::<WireKind>::empty());
            assert(ks@.take(i as int) =~= ks@);
            assert(views(fields@) + Seq::<WireField>::empty() =~= views(fields@));
        }
        Some(Op::assemble(code, fields))
    }
}

/// One step of reading operands: reading the operand at `i` as `g`, in `n` bytes, leaves the
/// operands after it to read from what follows.
proof fn lemma_fields_step(
    ks: Seq<WireKind>,
    i: int,
    rest: Seq<u8>,
    xs: Seq<WireField>,
    off: nat,
    g: WireField,
    n: nat,
)
    requires
        0 <= i < ks.len(),
        parse_field(ks[i], rest) == Some((g, n)),
    ensures
        prefixed(xs, off, parse_fields(ks.skip(i), rest)) == prefixed(
            xs.push(g),
            off + n,
            parse_fields(ks.skip(i + 1), rest.skip(n as int)),
        ),
{
    assert(ks.skip(i).drop_first() =~= ks.skip(i + 1));
    assert(ks.skip(i)[0] == ks[i]);
    if let Some((ys, m)) = parse_fields(ks.skip(i + 1), rest.skip(n as int)) {
        assert(xs + (seq![g] + ys) =~= xs.push(g) + ys);
    }
}

/// When the operand at `i` cannot be read, neither can the operands from `i` on.
proof fn lemma_fields_fail(ks: Seq<WireKind>, i: int, rest: Seq<u8>)
    requires
        0 <= i < ks.len(),
        parse_field(ks[i], rest) is None,
    ensures
        parse_fields(ks.skip(i), rest) is None,
{
    assert(ks.skip(i)[0] == ks[i]);
}

/// The bytes of the first `i` items of `s` are no more than the bytes of all of them.
proof fn lemma_flat_prefix_len<T>(s: Seq<T>, i: int, f: spec_fn(T) -> Seq<u8>)
    requires
        0 <= i <= s.len(),
    ensures
        flat(s.take(i), f).len() <= flat(s, f).len(),
    decreases s.len() - i,
{
    if i < s.len() {
        lemma_flat_prefix_len(s, i + 1, f);
        lemma_flat_push(s.take(i), s[i], f);
        assert(s.take(i + 1) =~= s.take(i).push(s[i]));
    } else {
        assert(s.take(i) =~= s);
    }
}

} // verus!
