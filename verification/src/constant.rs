//! Constants of a program and their place in the bytecode.
use vstd::prelude::*;

use crate::ids::StrId;
use crate::wire::{le32, le64, lemma_words_roundtrip, read32, read64, Decoder, Encoder};

verus! {

broadcast use vstd::seq_lib::group_seq_properties;

/// A constant of a program. A float is held as its IEEE 754 bits.
#[derive(Debug)]
pub enum Constant {
    Bool(bool),
    Int(i64),
    Float(u64),
    Str(StrId),
    Array(Vec<Constant>),
    Null,
}

/// The wire tag of each kind of [`Constant`].
#[derive(Debug, Copy, Clone, PartialEq, Eq, Structural)]
pub enum ConstantCode {
    Bool,
    Int,
    Float,
    Str,
    Array,
    Null,
}

/// A constant with no array in it, which can be hashed (the prologue of a body loads each distinct
/// one once).
#[derive(Debug, Clone, Copy, PartialEq, Eq, Structural, Hash)]
pub enum CachedConstant {
    Bool(bool),
    Int(i64),
    Float(u64),
    Str(StrId),
    Null,
}

/// The mathematical value of a [`Constant`]: an array is a sequence.
pub enum ConstValue {
    Bool(bool),
    Int(i64),
    Float(u64),
    Str(StrId),
    Array(Seq<ConstValue>),
    Null,
}

impl Constant {
    pub open spec fn model(self) -> ConstValue
        decreases self,
    {
        match self {
            Constant::Bool(b) => ConstValue::Bool(b),
            Constant::Int(i) => ConstValue::Int(i),
            Constant::Float(f) => ConstValue::Float(f),
            Constant::Str(s) => ConstValue::Str(s),
            Constant::Array(v) => ConstValue::Array(models(v@)),
            Constant::Null => ConstValue::Null,
        }
    }
}

/// The values of a sequence of constants.
pub open spec fn models(s: Seq<Constant>) -> Seq<ConstValue>
    decreases s,
{
    if s.len() == 0 {
        Seq::empty()
    } else {
        models(s.drop_last()).push(s.last().model())
    }
}

pub proof fn lemma_models_len(s: Seq<Constant>)
    ensures
        models(s).len() == s.len(),
        forall|i: int| 0 <= i < s.len() ==> #[trigger] models(s)[i] == s[i].model(),
    decreases s.len(),
{
    if s.len() > 0 {
        lemma_models_len(s.drop_last());
    }
}

/// The wire tag of a constant.
pub open spec fn const_tag(c: ConstValue) -> u8 {
    match c {
        ConstValue::Bool(_) => 0,
        ConstValue::Int(_) => 1,
        ConstValue::Float(_) => 2,
        ConstValue::Str(_) => 3,
        ConstValue::Array(_) => 4,
        ConstValue::Null => 5,
    }
}

/// The bytes after a constant's tag: a bool as one byte, an int or a float as eight, a string
/// as its four-byte id, an array as its four-byte length and then each item, tag first.
pub open spec fn const_payload(c: ConstValue) -> Seq<u8>
    decreases c,
{
    match c {
        ConstValue::Bool(b) => seq![if b { 1u8 } else { 0u8 }],
        ConstValue::Int(i) => le64(i),
        ConstValue::Float(f) => le64(f as i64),
        ConstValue::Str(s) => le32(s.0),
        ConstValue::Array(items) => le32(items.len() as u32) + items_bytes(items),
        ConstValue::Null => Seq::empty(),
    }
}

/// The bytes of a sequence of constants, each tag first.
pub open spec fn items_bytes(items: Seq<ConstValue>) -> Seq<u8>
    decreases items,
{
    if items.len() == 0 {
        Seq::empty()
    } else {
        seq![const_tag(items[0])] + const_payload(items[0]) + items_bytes(items.drop_first())
    }
}

/// A constant with its tag in front.
pub open spec fn const_bytes(c: ConstValue) -> Seq<u8> {
    seq![const_tag(c)] + const_payload(c)
}

/// Every array in the constant has a length that fits the four bytes it is written with.
pub open spec fn const_wf(c: ConstValue) -> bool
    decreases c,
{
    match c {
        ConstValue::Array(items) => items.len() <= u32::MAX && items_wf(items),
        _ => true,
    }
}

pub open spec fn items_wf(items: Seq<ConstValue>) -> bool
    decreases items,
{
    if items.len() == 0 {
        true
    } else {
        const_wf(items[0]) && items_wf(items.drop_first())
    }
}

/// `xs` in front of what `r` parsed, `k` bytes in front of what it consumed.
pub open spec fn prefixed<T>(xs: Seq<T>, k: nat, r: Option<(Seq<T>, nat)>) -> Option<(Seq<T>, nat)> {
    match r {
        Some((ys, m)) => Some((xs + ys, k + m)),
        None => None,
    }
}

/// Reads a constant, tag first, from the start of `s`: the constant and how many bytes it took.
/// A bool is true when its byte is 1.
pub open spec fn parse_const(s: Seq<u8>) -> Option<(ConstValue, nat)>
    decreases s.len(), 0nat,
{
    if s.len() == 0 {
        None
    } else {
        let body = s.skip(1);
        let tag = s[0];
        if tag == 0 {
            if body.len() >= 1 {
                Some((ConstValue::Bool(body[0] == 1), 2))
            } else {
                None
            }
        } else if tag == 1 {
            if body.len() >= 8 {
                Some((ConstValue::Int(read64(body)), 9))
            } else {
                None
            }
        } else if tag == 2 {
            if body.len() >= 8 {
                Some((ConstValue::Float(read64(body) as u64), 9))
            } else {
                None
            }
        } else if tag == 3 {
            if body.len() >= 4 {
                Some((ConstValue::Str(StrId(read32(body))), 5))
            } else {
                None
            }
        } else if tag == 4 {
            if body.len() >= 4 {
                match parse_items(read32(body) as nat, body.skip(4)) {
                    Some((items, m)) => Some((ConstValue::Array(items), 5 + m)),
                    None => None,
                }
            } else {
                None
            }
        } else if tag == 5 {
            Some((ConstValue::Null, 1))
        } else {
            None
        }
    }
}

/// Reads `n` constants one after the other from the start of `s`.
pub open spec fn parse_items(n: nat, s: Seq<u8>) -> Option<(Seq<ConstValue>, nat)>
    decreases s.len(), n + 1,
{
    if n == 0 {
        Some((Seq::empty(), 0))
    } else {
        match parse_const(s) {
            Some((c, k)) => if 0 < k <= s.len() {
                prefixed(seq![c], k, parse_items((n - 1) as nat, s.skip(k as int)))
            } else {
                None
            },
            None => None,
        }
    }
}

/// A constant parsed from `s` takes at least its tag and at most all of `s`.
pub proof fn lemma_parse_const_len(s: Seq<u8>)
    ensures
        parse_const(s) matches Some((c, k)) ==> 0 < k <= s.len(),
    decreases s.len(), 0nat,
{
    if s.len() > 0 && s[0] == 4 && s.skip(1).len() >= 4 {
        lemma_parse_items_len(read32(s.skip(1)) as nat, s.skip(1).skip(4));
    }
}

pub proof fn lemma_parse_items_len(n: nat, s: Seq<u8>)
    ensures
        parse_items(n, s) matches Some((items, k)) ==> k <= s.len() && items.len() == n,
    decreases s.len(), n + 1,
{
    if n > 0 {
        lemma_parse_const_len(s);
        if let Some((c, k)) = parse_const(s) {
            if 0 < k <= s.len() {
                lemma_parse_items_len((n - 1) as nat, s.skip(k as int));
            }
        }
    }
}

/// A well-formed constant reads back as itself from its bytes, whatever follows them.
pub proof fn lemma_const_roundtrip(c: ConstValue, rest: Seq<u8>)
    requires
        const_wf(c),
    ensures
        parse_const(const_bytes(c) + rest) == Some((c, const_bytes(c).len())),
    decreases c, 0nat,
{
    let s = const_bytes(c) + rest;
    let body = s.skip(1);
    assert(body =~= const_payload(c) + rest);
    match c {
        ConstValue::Bool(b) => {
        },
        ConstValue::Int(i) => {
            lemma_words_roundtrip(0, 0, i, rest);
        },
        ConstValue::Float(f) => {
            lemma_words_roundtrip(0, 0, f as i64, rest);
            assert((f as i64) as u64 == f) by (bit_vector);
        },
        ConstValue::Str(id) => {
            lemma_words_roundtrip(0, id.0, 0, rest);
        },
        ConstValue::Array(items) => {
            let n = items.len() as u32;
            lemma_words_roundtrip(0, n, 0, items_bytes(items) + rest);
            assert(body =~= le32(n) + (items_bytes(items) + rest));
            assert(body.skip(4) =~= items_bytes(items) + rest);
            lemma_items_roundtrip(items, rest);
        },
        ConstValue::Null => {
        },
    }
}

pub proof fn lemma_items_roundtrip(items: Seq<ConstValue>, rest: Seq<u8>)
    requires
        items_wf(items),
    ensures
        parse_items(items.len(), items_bytes(items) + rest) == Some((items, items_bytes(items).len())),
    decreases items, 1nat,
{
    if items.len() > 0 {
        let c = items[0];
        let tail = items.drop_first();
        let s = items_bytes(items) + rest;
        assert(s =~= const_bytes(c) + (items_bytes(tail) + rest));
        lemma_const_roundtrip(c, items_bytes(tail) + rest);
        let k = const_bytes(c).len();
        assert(s.skip(k as int) =~= items_bytes(tail) + rest);
        lemma_items_roundtrip(tail, rest);
        assert(seq![c] + tail =~= items);
    }
}

/// Appending one item to a sequence appends its bytes.
pub proof fn lemma_items_bytes_push(items: Seq<ConstValue>, c: ConstValue)
    ensures
        items_bytes(items.push(c)) == items_bytes(items) + const_bytes(c),
    decreases items.len(),
{
    if items.len() == 0 {
        assert(items.push(c).drop_first() =~= Seq::<ConstValue>::empty());
        assert(items.push(c)[0] == c);
        assert(items_bytes(Seq::<ConstValue>::empty()) == Seq::<u8>::empty());
        assert(items_bytes(items.push(c)) =~= const_bytes(c));
    } else {
        assert(items.push(c).drop_first() =~= items.drop_first().push(c));
        lemma_items_bytes_push(items.drop_first(), c);
        assert(items_bytes(items.push(c)) =~= items_bytes(items) + const_bytes(c));
    }
}

/// The wire tag of a constant: the number of its variant, in declaration order.
pub fn constant_discriminant(c: &Constant) -> (t: u8)
    ensures
        t == const_tag(c.model()),
{
    match c {
        Constant::Bool(_) => 0,
        Constant::Int(_) => 1,
        Constant::Float(_) => 2,
        Constant::Str(_) => 3,
        Constant::Array(_) => 4,
        Constant::Null => 5,
    }
}

impl Constant {

    /// How many bytes follow the tag when this constant is encoded.
    pub fn byte_len(&self) -> (n: usize)
        requires
            const_payload(self.model()).len() <= usize::MAX,
        ensures
            n == const_payload(self.model()).len(),
        decreases self,
    {
        match self {
            Constant::Bool(_) => 1,
            Constant::Int(i) => {
                proof {
                    lemma_words_roundtrip(0, 0, *i, Seq::empty());
                }
                8
            },
            Constant::Float(f) => {
                proof {
                    lemma_words_roundtrip(0, 0, *f as i64, Seq::empty());
                }
                8
            },
            Constant::Str(id) => {
                proof {
                    lemma_words_roundtrip(0, id.0, 0, Seq::empty());
                }
                4
            },
            Constant::Array(a) => {
                proof {
                    lemma_models_len(a@);
                    lemma_words_roundtrip(0, a@.len() as u32, 0, Seq::empty());
                    lemma_items_bytes_prefix(models(a@), 0);
                }
                let mut total: usize = 4;
                let mut i: usize = 0;
                while i < a.len()
                    invariant
                        *self == Constant::Array(*a),
                        i <= a@.len(),
                        models(a@).len() == a@.len(),
                        forall|j: int| 0 <= j < a@.len() ==> #[trigger] models(a@)[j] == a@[j].model(),
                        const_payload(self.model()).len() <= usize::MAX,
                        const_payload(self.model()).len() == 4 + items_bytes(models(a@)).len(),
                        total == 4 + items_bytes(models(a@).take(i as int)).len(),
                    decreases a@.len() - i,
                {
                    let ghost ms = models(a@);
                    proof {
                        lemma_items_bytes_push(ms.take(i as int), ms[i as int]);
                        assert(ms.take(i + 1) =~= ms.take(i as int).push(ms[i as int]));
                        lemma_items_bytes_prefix(ms, i + 1);
                    }
                    assert(decreases_to!(*self => *a));
                    assert(decreases_to!(*a => a@));
                    assert(decreases_to!(a@ => a@[i as int]));
                    let item = a[i].byte_len();
                    total = total + 1 + item;
                    i += 1;
                }
                assert(models(a@).take(i as int) =~= models(a@));
                total
            },
            Constant::Null => 0,
        }
    }

    /// Writes the bytes that follow this constant's tag.
    pub fn encode(&self, e: &mut Encoder)
        ensures
            final(e)@ == old(e)@ + const_payload(self.model()),
        decreases self,
    {
        match self {
            Constant::Bool(b) => e.u8(if *b { 1 } else { 0 }),
            Constant::Int(i) => e.i64(*i),
            Constant::Float(f) => e.float_bits(*f),
            Constant::Str(s) => e.u32(s.0),
            Constant::Array(a) => {
                proof {
                    lemma_models_len(a@);
                }
                e.u32(a.len() as u32);
                let ghost start = e@;
                let mut i: usize = 0;
                while i < a.len()
                    invariant
                        *self == Constant::Array(*a),
                        i <= a@.len(),
                        models(a@).len() == a@.len(),
                        forall|j: int| 0 <= j < a@.len() ==> #[trigger] models(a@)[j] == a@[j].model(),
                        e@ == start + items_bytes(models(a@).take(i as int)),
                    decreases a@.len() - i,
                {
                    let ghost ms = models(a@);
                    proof {
                        lemma_items_bytes_push(ms.take(i as int), ms[i as int]);
                        assert(ms.take(i + 1) =~= ms.take(i as int).push(ms[i as int]));
                    }
                    assert(decreases_to!(*self => (*self)->Array_0));
                    assert(decreases_to!(*a => a@));
                    assert(decreases_to!(a@ => a@[i as int]));
                    let tag = constant_discriminant(&a[i]);
                    e.u8(tag);
                    a[i].encode(e);
                    i += 1;
                }
                assert(models(a@).take(i as int) =~= models(a@));
            },
            Constant::Null => {},
        }
    }
}

/// How many bytes the items of an array take: each its tag and its payload.
pub open spec fn items_len(items: Seq<ConstValue>) -> nat
    decreases items,
{
    if items.len() == 0 {
        0
    } else {
        1 + const_payload(items[0]).len() + items_len(items.drop_first())
    }
}

/// How many bytes follow a constant's tag: one for a bool, eight for an int or a float, four
/// for a string, none for null, and for an array four and then each item's tag and payload.
pub proof fn lemma_payload_len(c: ConstValue)
    ensures
        const_payload(c).len() == match c {
            ConstValue::Bool(_) => 1,
            ConstValue::Int(_) | ConstValue::Float(_) => 8,
            ConstValue::Str(_) => 4,
            ConstValue::Array(items) => 4 + items_len(items),
            ConstValue::Null => 0,
        },
{
    match c {
        ConstValue::Int(i) => lemma_words_roundtrip(0, 0, i, Seq::empty()),
        ConstValue::Float(f) => lemma_words_roundtrip(0, 0, f as i64, Seq::empty()),
        ConstValue::Str(s) => lemma_words_roundtrip(0, s.0, 0, Seq::empty()),
        ConstValue::Array(items) => {
            lemma_words_roundtrip(0, items.len() as u32, 0, Seq::empty());
            lemma_items_len(items);
        },
        _ => {},
    }
}

proof fn lemma_items_len(items: Seq<ConstValue>)
    ensures
        items_bytes(items).len() == items_len(items),
    decreases items.len(),
{
    if items.len() > 0 {
        lemma_items_len(items.drop_first());
    }
}

/// A prefix of a sequence of constants takes no more bytes than the whole.
pub proof fn lemma_items_bytes_prefix(items: Seq<ConstValue>, i: int)
    requires
        0 <= i <= items.len(),
    ensures
        items_bytes(items.take(i)).len() <= items_bytes(items).len(),
    decreases items.len() - i,
{
    if i < items.len() {
        lemma_items_bytes_prefix(items, i + 1);
        lemma_items_bytes_push(items.take(i), items[i]);
        assert(items.take(i + 1) =~= items.take(i).push(items[i]));
    }
}

pub proof fn lemma_models_push(v: Seq<Constant>, c: Constant)
    ensures
        models(v.push(c)) == models(v).push(c.model()),
{
    assert(v.push(c).drop_last() =~= v);
}

impl Constant {
    /// Reads a constant, tag first, at the decoder's position: `None` when the bytes there aren't
    /// one.
    pub fn try_decode(d: &mut Decoder) -> (r: Option<Constant>)
        requires
            old(d).ip <= old(d).bytes.len(),
        ensures
            final(d).bytes == old(d).bytes,
            final(d).ip <= final(d).bytes.len(),
            match (r, parse_const(old(d).rest())) {
                (Some(c), Some((v, n))) => c.model() == v && final(d).ip == old(d).ip + n,
                (None, None) => true,
                _ => false,
            },
        decreases old(d).bytes.len() - old(d).ip,
    {
        let ghost s = d.rest();
        if d.ip >= d.bytes.len() {
            return None;
        }
        let tag = d.u8();
        assert(d.rest() =~= s.skip(1));
        let left = d.bytes.len() - d.ip;
        if tag == 0 {
            if left >= 1 {
                let b = d.u8();
                Some(Constant::Bool(b == 1))
            } else {
                None
            }
        } else if tag == 1 {
            if left >= 8 {
                Some(Constant::Int(d.i64()))
            } else {
                None
            }
        } else if tag == 2 {
            if left >= 8 {
                Some(Constant::Float(d.float_bits()))
            } else {
                None
            }
        } else if tag == 3 {
            if left >= 4 {
                Some(Constant::Str(StrId(d.u32())))
            } else {
                None
            }
        } else if tag == 4 {
            if left < 4 {
                return None;
            }
            let n = d.u32();
            assert(n == read32(s.skip(1)));
            assert(d.rest() =~= s.skip(1).skip(4));
            let ghost s0 = d.rest();
            let ghost start = d.ip;
            let mut items: Vec<Constant> = Vec::new();
            let mut i: u32 = 0;
            while i < n
                invariant
                    d.bytes == old(d).bytes,
                    start <= d.ip <= d.bytes.len(),
                    old(d).ip < start,
                    i <= n,
                    s0 == d.bytes@.skip(start as int),
                    s == old(d).rest(),
                    s.len() > 0 && s[0] == 4 && s.skip(1).len() >= 4,
                    n == read32(s.skip(1)),
                    s0 == s.skip(1).skip(4),
                    parse_items(n as nat, s0) == prefixed(
                        models(items@),
                        (d.ip - start) as nat,
                        parse_items((n - i) as nat, d.rest()),
                    ),
                decreases n - i,
            {
                let ghost before = d.rest();
                let ghost ip0 = d.ip;
                proof {
                    lemma_parse_const_len(before);
                }
                match Constant::try_decode(d) {
                    Some(c) => {
                        proof {
                            let k = (d.ip - ip0) as nat;
                            assert(d.rest() =~= before.skip(k as int));
                            lemma_models_push(items@, c);
                            let r = parse_items((n - i - 1) as nat, d.rest());
                            if let Some((ys, m)) = r {
                                assert(models(items@).push(c.model()) + ys =~= models(items@) + (
                                seq![c.model()] + ys));
                            }
                        }
                        items.push(c);
                        i += 1;
                    },
                    None => {
                        assert(parse_items((n - i) as nat, before) is None);
                        assert(parse_items(n as nat, s0) is None);
                        return None;
                    },
                }
            }
            assert(models(items@) + Seq::<ConstValue>::empty() =~= models(items@));
            Some(Constant::Array(items))
        } else if tag == 5 {
            Some(Constant::Null)
        } else {
            None
        }
    }
}

impl Constant {
    /// A copy of this constant, arrays copied item by item.
    pub fn duplicate(&self) -> (c: Constant)
        ensures
            c.model() == self.model(),
        decreases self,
    {
        match self {
            Constant::Bool(b) => Constant::Bool(*b),
            Constant::Int(i) => Constant::Int(*i),
            Constant::Float(f) => Constant::Float(*f),
            Constant::Str(s) => Constant::Str(*s),
            Constant::Array(a) => {
                let mut out: Vec<Constant> = Vec::new();
                let mut i: usize = 0;
                while i < a.len()
                    invariant
                        *self == Constant::Array(*a),
                        i <= a@.len(),
                        models(out@) == models(a@.take(i as int)),
                    decreases a@.len() - i,
                {
                    assert(decreases_to!(*self => (*self)->Array_0));
                    assert(decreases_to!(*a => a@));
                    assert(decreases_to!(a@ => a@[i as int]));
                    let c = a[i].duplicate();
                    proof {
                        lemma_models_push(out@, c);
                        lemma_models_push(a@.take(i as int), a@[i as int]);
                        assert(a@.take(i + 1) =~= a@.take(i as int).push(a@[i as int]));
                    }
                    out.push(c);
                    i += 1;
                }
                assert(a@.take(i as int) =~= a@);
                Constant::Array(out)
            },
            Constant::Null => Constant::Null,
        }
    }
}

impl Clone for Constant {
    fn clone(&self) -> (c: Constant)
        ensures
            c.model() == self.model(),
    {
        self.duplicate()
    }
}

/// The hashable form of a constant with no array in it.
pub open spec fn cached_of(c: ConstValue) -> Option<CachedConstant> {
    match c {
        ConstValue::Bool(b) => Some(CachedConstant::Bool(b)),
        ConstValue::Int(i) => Some(CachedConstant::Int(i)),
        ConstValue::Float(f) => Some(CachedConstant::Float(f)),
        ConstValue::Str(s) => Some(CachedConstant::Str(s)),
        ConstValue::Null => Some(CachedConstant::Null),
        ConstValue::Array(_) => None,
    }
}

/// The constant a hashable constant stands for.
pub open spec fn uncached(c: CachedConstant) -> ConstValue {
    match c {
        CachedConstant::Bool(b) => ConstValue::Bool(b),
        CachedConstant::Int(i) => ConstValue::Int(i),
        CachedConstant::Float(f) => ConstValue::Float(f),
        CachedConstant::Str(s) => ConstValue::Str(s),
        CachedConstant::Null => ConstValue::Null,
    }
}

impl Constant {
    /// The hashable form of this constant, when it holds no array.
    pub fn cached(&self) -> (r: Option<CachedConstant>)
        ensures
            r == cached_of(self.model()),
    {
        match self {
            Constant::Bool(b) => Some(CachedConstant::Bool(*b)),
            Constant::Int(i) => Some(CachedConstant::Int(*i)),
            Constant::Str(s) => Some(CachedConstant::Str(*s)),
            Constant::Null => Some(CachedConstant::Null),
            Constant::Float(f) => Some(CachedConstant::Float(*f)),
            Constant::Array(_) => None,
        }
    }
}

impl CachedConstant {
    /// Back to a full constant, so the prologue can load it.
    pub fn to_constant(&self) -> (c: Constant)
        ensures
            c.model() == uncached(*self),
    {
        match self {
            CachedConstant::Bool(b) => Constant::Bool(*b),
            CachedConstant::Int(i) => Constant::Int(*i),
            CachedConstant::Float(bits) => Constant::Float(*bits),
            CachedConstant::Str(s) => Constant::Str(*s),
            CachedConstant::Null => Constant::Null,
        }
    }
}

/// A constant with a hashable form is the constant that form stands for, and the two forms
/// pair off exactly.
pub proof fn lemma_cached_roundtrip(c: ConstValue, k: CachedConstant)
    ensures
        cached_of(c) == Some(k) ==> uncached(k) == c,
        cached_of(uncached(k)) == Some(k),
{
}

impl Constant {
    /// How many bytes follow the tag when this constant is encoded, or `None` when that many
    /// would not fit a `usize`.
    pub fn checked_byte_len(&self) -> (n: Option<usize>)
        ensures
            match n {
                Some(k) => k == const_payload(self.model()).len(),
                None => const_payload(self.model()).len() > usize::MAX,
            },
        decreases self,
    {
        match self {
            Constant::Array(a) => {
                proof {
                    lemma_models_len(a@);
                    lemma_words_roundtrip(0, a@.len() as u32, 0, Seq::empty());
                    lemma_items_bytes_prefix(models(a@), 0);
                }
                let mut total: usize = 4;
                let mut i: usize = 0;
                while i < a.len()
                    invariant
                        *self == Constant::Array(*a),
                        i <= a@.len(),
                        models(a@).len() == a@.len(),
                        forall|j: int| 0 <= j < a@.len() ==> #[trigger] models(a@)[j] == a@[j].model(),
                        const_payload(self.model()).len() == 4 + items_bytes(models(a@)).len(),
                        total == 4 + items_bytes(models(a@).take(i as int)).len(),
                    decreases a@.len() - i,
                {
                    let ghost ms = models(a@);
                    proof {
                        lemma_items_bytes_push(ms.take(i as int), ms[i as int]);
                        assert(ms.take(i + 1) =~= ms.take(i as int).push(ms[i as int]));
                        lemma_items_bytes_prefix(ms, i + 1);
                    }
                    assert(decreases_to!(*self => *a));
                    assert(decreases_to!(*a => a@));
                    assert(decreases_to!(a@ => a@[i as int]));
                    let item = match a[i].checked_byte_len() {
                        Some(k) => k,
                        None => return None,
                    };
                    total = match total.checked_add(1) {
                        Some(t) => match t.checked_add(item) {
                            Some(t2) => t2,
                            None => return None,
                        },
                        None => return None,
                    };
                    i += 1;
                }
                assert(models(a@).take(i as int) =~= models(a@));
                Some(total)
            },
            _ => {
                proof {
                    lemma_words_roundtrip(0, 0, 0, Seq::empty());
                    if let Constant::Int(v) = self {
                        lemma_words_roundtrip(0, 0, *v, Seq::empty());
                    }
                    if let Constant::Float(f) = self {
                        lemma_words_roundtrip(0, 0, *f as i64, Seq::empty());
                    }
                    if let Constant::Str(id) = self {
                        lemma_words_roundtrip(0, id.0, 0, Seq::empty());
                    }
                }
                Some(self.byte_len())
            },
        }
    }
}

} // verus!
