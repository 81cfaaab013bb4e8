//! Sequences written one item after another, and read back the same way.
use vstd::prelude::*;

use crate::constant::prefixed;

verus! {

broadcast use vstd::seq_lib::group_seq_properties;

/// The bytes of each item of `s`, one after the other.
pub open spec fn flat<T>(s: Seq<T>, f: spec_fn(T) -> Seq<u8>) -> Seq<u8>
    decreases s.len(),
{
    if s.len() == 0 {
        Seq::empty()
    } else {
        f(s[0]) + flat(s.drop_first(), f)
    }
}

/// Reads `n` items with `p`, one after the other, from the start of `s`.
pub open spec fn parse_list<T>(
    n: nat,
    s: Seq<u8>,
    p: spec_fn(Seq<u8>) -> Option<(T, nat)>,
) -> Option<(Seq<T>, nat)>
    decreases n,
{
    if n == 0 {
        Some((Seq::empty(), 0))
    } else {
        match p(s) {
            Some((x, k)) => if k <= s.len() {
                prefixed(seq![x], k, parse_list((n - 1) as nat, s.skip(k as int), p))
            } else {
                None
            },
            None => None,
        }
    }
}

pub proof fn lemma_flat_push<T>(s: Seq<T>, x: T, f: spec_fn(T) -> Seq<u8>)
    ensures
        flat(s.push(x), f) == flat(s, f) + f(x),
    decreases s.len(),
{
    if s.len() == 0 {
        assert(s.push(x).drop_first() =~= Seq::<T>::empty());
        assert(s.push(x)[0] == x);
        assert(flat(Seq::<T>::empty(), f) == Seq::<u8>::empty());
        assert(flat(s.push(x), f) =~= f(x));
    } else {
        assert(s.push(x).drop_first() =~= s.drop_first().push(x));
        lemma_flat_push(s.drop_first(), x, f);
        assert(flat(s.push(x), f) =~= flat(s, f) + f(x));
    }
}

/// When every item of `s` reads back from its bytes, so does `s` from the bytes of all of them.
pub proof fn lemma_list_roundtrip<T>(
    s: Seq<T>,
    rest: Seq<u8>,
    f: spec_fn(T) -> Seq<u8>,
    p: spec_fn(Seq<u8>) -> Option<(T, nat)>,
)
    requires
        forall|i: int, r: Seq<u8>|
            0 <= i < s.len() ==> #[trigger] p(f(s[i]) + r) == Some((s[i], f(s[i]).len())),
    ensures
        parse_list(s.len(), flat(s, f) + rest, p) == Some((s, flat(s, f).len())),
    decreases s.len(),
{
    if s.len() > 0 {
        let x = s[0];
        let tail = s.drop_first();
        let bytes = flat(s, f) + rest;
        assert(bytes =~= f(x) + (flat(tail, f) + rest));
        assert(p(f(s[0]) + (flat(tail, f) + rest)) == Some((s[0], f(s[0]).len())));
        assert(bytes.skip(f(x).len() as int) =~= flat(tail, f) + rest);
        assert forall|i: int, r: Seq<u8>|
            0 <= i < tail.len() implies #[trigger] p(f(tail[i]) + r) == Some((tail[i], f(tail[i]).len())) by {
            assert(tail[i] == s[i + 1]);
        }
        lemma_list_roundtrip(tail, rest, f, p);
        assert(seq![x] + tail =~= s);
    }
}

/// A list parsed from `s` has `n` items and takes no more than `s`.
pub proof fn lemma_list_len<T>(n: nat, s: Seq<u8>, p: spec_fn(Seq<u8>) -> Option<(T, nat)>)
    ensures
        parse_list(n, s, p) matches Some((xs, k)) ==> xs.len() == n && k <= s.len(),
    decreases n,
{
    if n > 0 {
        if let Some((x, k)) = p(s) {
            if k <= s.len() {
                lemma_list_len((n - 1) as nat, s.skip(k as int), p);
            }
        }
    }
}

/// One step of reading a list: after the items in `xs`, which took `k` bytes, `n` are left to
/// read from `s`. Reading the next one, `x` in `j` bytes, leaves `n - 1` to read after it.
pub proof fn lemma_list_step<T>(
    n: nat,
    s: Seq<u8>,
    p: spec_fn(Seq<u8>) -> Option<(T, nat)>,
    xs: Seq<T>,
    k: nat,
    x: T,
    j: nat,
)
    requires
        n > 0,
        p(s) == Some((x, j)),
        j <= s.len(),
    ensures
        prefixed(xs, k, parse_list(n, s, p)) == prefixed(
            xs.push(x),
            k + j,
            parse_list((n - 1) as nat, s.skip(j as int), p),
        ),
{
    if let Some((ys, m)) = parse_list((n - 1) as nat, s.skip(j as int), p) {
        assert(xs + (seq![x] + ys) =~= xs.push(x) + ys);
    }
}

} // verus!
