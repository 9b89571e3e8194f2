use vstd::prelude::*;

use crate::order::{has_prefix, lemma_has_prefix_first, lex_le, lex_lt};

verus! {

/// Index of the last byte of `p` that is not 0xFF, or -1 where there is none.
pub open spec fn last_below_max(p: Seq<u8>) -> int
    decreases p.len(),
{
    if p.len() == 0 {
        -1
    } else if p.last() != 255 {
        p.len() - 1
    } else {
        last_below_max(p.drop_last())
    }
}

/// Every byte of `p` is 0xFF (true of the empty sequence).
pub open spec fn all_max(p: Seq<u8>) -> bool {
    forall|i: int| 0 <= i < p.len() ==> p[i] == 255
}

/// The upper bound of a prefix: same length, the last byte below 0xFF
/// incremented, every 0xFF after it reset to zero. Where every byte is 0xFF
/// this is the all-zero sequence of the same length.
pub open spec fn upper_bound_of(p: Seq<u8>) -> Seq<u8> {
    let j = last_below_max(p);
    Seq::new(
        p.len(),
        |i: int|
            if i < j {
                p[i]
            } else if i == j {
                (p[j] + 1) as u8
            } else {
                0u8
            },
    )
}

/// `last_below_max` is in range, names a byte below 0xFF, and only 0xFF
/// bytes follow it.
pub proof fn lemma_last_below_max(p: Seq<u8>)
    ensures
        -1 <= last_below_max(p) < p.len(),
        last_below_max(p) >= 0 ==> p[last_below_max(p)] != 255,
        forall|i: int| last_below_max(p) < i < p.len() ==> p[i] == 255,
    decreases p.len(),
{
    if p.len() > 0 && p.last() == 255 {
        lemma_last_below_max(p.drop_last());
        assert forall|i: int| last_below_max(p) < i < p.len() implies p[i] == 255 by {
            if i < p.len() - 1 {
                assert(p.drop_last()[i] == p[i]);
            }
        }
    }
}

/// The three properties above single out `last_below_max`.
proof fn lemma_last_below_max_unique(p: Seq<u8>, j: int)
    requires
        -1 <= j < p.len(),
        j >= 0 ==> p[j] != 255,
        forall|i: int| j < i < p.len() ==> p[i] == 255,
    ensures
        last_below_max(p) == j,
{
    lemma_last_below_max(p);
}

/// Returns a new vec of the same length as `input`, with the last byte that
/// is not 0xFF incremented by one and every 0xFF byte after it reset to zero.
/// Where every byte is 0xFF the result is all zeros, which is no upper bound;
/// a length-tagged namespace prefix never has that shape.
pub fn namespace_upper_bound(input: &[u8]) -> (r: Vec<u8>)
    ensures
        r@ == upper_bound_of(input@),
{
    let mut copy = vstd::slice::slice_to_vec(input);
    let mut i: usize = input.len();
    let mut done = false;
    assert(input@.subrange(0, i as int) =~= input@);
    while i > 0 && !done
        invariant
            copy@.len() == input@.len(),
            i <= input@.len(),
            !done ==> (forall|k: int| 0 <= k < i ==> copy@[k] == input@[k]),
            !done ==> (forall|k: int| i <= k < input@.len() ==> input@[k] == 255 && copy@[k] == 0),
            !done ==> last_below_max(input@) == last_below_max(input@.subrange(0, i as int)),
            done ==> copy@ == upper_bound_of(input@),
        decreases i + if done { 0int } else { 1int },
    {
        let ghost prefix = input@.subrange(0, i as int);
        if copy[i - 1] == 255 {
            copy.set(i - 1, 0);
            assert(prefix.drop_last() =~= input@.subrange(0, i - 1));
            i = i - 1;
        } else {
            copy.set(i - 1, copy[i - 1] + 1);
            assert(last_below_max(input@) == i - 1);
            assert(copy@ =~= upper_bound_of(input@));
            done = true;
        }
    }
    if !done {
        assert(copy@ =~= upper_bound_of(input@));
    }
    copy
}

/// Where every byte of `p` is 0xFF, a key is at least `p` exactly when it
/// begins with `p`.
proof fn lemma_all_max_lower(p: Seq<u8>, k: Seq<u8>)
    requires
        all_max(p),
    ensures
        has_prefix(k, p) <==> lex_le(p, k),
    decreases p.len(),
{
    if p.len() == 0 {
        assert(k.subrange(0, 0) =~= p);
        if k.len() == 0 {
            assert(k =~= p);
        }
    } else if k.len() > 0 {
        lemma_has_prefix_first(k, p);
        lemma_all_max_lower(p.drop_first(), k);
        if k[0] == 255 {
            lemma_all_max_lower(p.drop_first(), k.drop_first());
            if p.drop_first() == k.drop_first() {
                assert(p =~= k) by {
                    assert forall|i: int| 0 < i < p.len() implies p[i] == k[i] by {
                        assert(p.drop_first()[i - 1] == k.drop_first()[i - 1]);
                    }
                }
            }
            if p == k {
                assert(p.drop_first() == k.drop_first());
            }
        }
    }
}

/// A key below the all-zero sequence of length `m` is a proper prefix of it.
proof fn lemma_below_zeros(x: Seq<u8>, m: nat)
    requires
        lex_lt(x, Seq::new(m, |i: int| 0u8)),
    ensures
        x.len() < m,
        has_prefix(Seq::new(m, |i: int| 0u8), x),
    decreases x.len(),
{
    let z = Seq::new(m, |i: int| 0u8);
    if x.len() == 0 {
        assert(z.subrange(0, 0) =~= x);
    } else {
        assert(z.drop_first() =~= Seq::new((m - 1) as nat, |i: int| 0u8));
        lemma_below_zeros(x.drop_first(), (m - 1) as nat);
        lemma_has_prefix_first(z, x);
    }
}

/// For a prefix `p` that is not all 0xFF, a key `k` begins with `p` exactly
/// when `p <= k < namespace_upper_bound(p)` in byte-wise lexicographic order.
/// The bound keeps the length of `p`, so the law leaves out the keys that are
/// proper prefixes of the bound without beginning with `p` (such as `"fp"`
/// for `p == "fo\xff"`): those lie in the interval, and no key stored under a
/// length-tagged prefix has that shape.
pub proof fn lemma_upper_bound_delimits_prefix(p: Seq<u8>, k: Seq<u8>)
    requires
        !all_max(p),
        !(has_prefix(upper_bound_of(p), k) && k.len() < p.len() && !has_prefix(k, p)),
    ensures
        has_prefix(k, p) <==> (lex_le(p, k) && lex_lt(k, upper_bound_of(p))),
    decreases p.len(),
{
    lemma_last_below_max(p);
    let j = last_below_max(p);
    let b = upper_bound_of(p);
    if k.len() == 0 {
        assert(!has_prefix(k, p));
    } else {
        lemma_has_prefix_first(k, p);
        lemma_has_prefix_first(b, k);
        let tail = p.drop_first();
        if j == 0 {
            assert(all_max(tail)) by {
                assert forall|i: int| 0 <= i < tail.len() implies tail[i] == 255 by {
                    assert(tail[i] == p[i + 1]);
                }
            }
            lemma_all_max_lower(tail, k.drop_first());
            assert(b.drop_first() =~= Seq::new((p.len() - 1) as nat, |i: int| 0u8));
            if lex_lt(k.drop_first(), b.drop_first()) && k[0] == b[0] {
                lemma_below_zeros(k.drop_first(), (p.len() - 1) as nat);
            }
            if k[0] == p[0] && tail == k.drop_first() {
                assert(p =~= k) by {
                    assert forall|i: int| 0 < i < p.len() implies p[i] == k[i] by {
                        assert(tail[i - 1] == k.drop_first()[i - 1]);
                    }
                }
            }
            if p == k {
                assert(tail == k.drop_first());
            }
        } else {
            lemma_last_below_max_unique(tail, j - 1);
            assert(b.drop_first() =~= upper_bound_of(tail));
            assert(!all_max(tail)) by {
                assert(tail[j - 1] == p[j]);
            }
            if k[0] == p[0] {
                lemma_has_prefix_first(k, p);
                lemma_upper_bound_delimits_prefix(tail, k.drop_first());
                if tail == k.drop_first() {
                    assert(p =~= k) by {
                        assert forall|i: int| 0 < i < p.len() implies p[i] == k[i] by {
                            assert(tail[i - 1] == k.drop_first()[i - 1]);
                        }
                    }
                }
                if p == k {
                    assert(tail == k.drop_first());
                }
            }
        }
    }
}

} // verus!
