use vstd::prelude::*;

verus! {

/// Strict byte-wise lexicographic order, as a store orders its raw keys:
/// a proper prefix sorts before every extension of it.
pub open spec fn lex_lt(a: Seq<u8>, b: Seq<u8>) -> bool
    decreases a.len(),
{
    if b.len() == 0 {
        false
    } else if a.len() == 0 {
        true
    } else if a[0] != b[0] {
        a[0] < b[0]
    } else {
        lex_lt(a.drop_first(), b.drop_first())
    }
}

/// Non-strict lexicographic order.
pub open spec fn lex_le(a: Seq<u8>, b: Seq<u8>) -> bool {
    a == b || lex_lt(a, b)
}

/// `key` begins with the bytes of `prefix`.
pub open spec fn has_prefix(key: Seq<u8>, prefix: Seq<u8>) -> bool {
    prefix.len() <= key.len() && key.subrange(0, prefix.len() as int) == prefix
}

/// A prefix test splits into a test of the first byte and a test of the rest.
pub proof fn lemma_has_prefix_first(key: Seq<u8>, prefix: Seq<u8>)
    requires
        key.len() > 0,
        prefix.len() > 0,
    ensures
        has_prefix(key, prefix) <==> (key[0] == prefix[0] && has_prefix(
            key.drop_first(),
            prefix.drop_first(),
        )),
{
    if has_prefix(key, prefix) {
        assert(key[0] == key.subrange(0, prefix.len() as int)[0]);
        assert(key.drop_first().subrange(0, prefix.len() - 1) =~= prefix.drop_first()) by {
            assert forall|i: int| 0 <= i < prefix.len() - 1 implies key.drop_first().subrange(
                0,
                prefix.len() - 1,
            )[i] == prefix.drop_first()[i] by {
                assert(key.subrange(0, prefix.len() as int)[i + 1] == key[i + 1]);
            }
        }
    }
    if key[0] == prefix[0] && has_prefix(key.drop_first(), prefix.drop_first()) {
        assert(key.subrange(0, prefix.len() as int) =~= prefix) by {
            assert forall|i: int| 0 < i < prefix.len() implies key.subrange(
                0,
                prefix.len() as int,
            )[i] == prefix[i] by {
                assert(key.drop_first().subrange(0, prefix.len() - 1)[i - 1] == key[i]);
            }
        }
    }
}

/// Appending the same bytes in front of two keys keeps their order.
pub proof fn lemma_lex_lt_common_prefix(p: Seq<u8>, a: Seq<u8>, b: Seq<u8>)
    ensures
        lex_lt(p + a, p + b) <==> lex_lt(a, b),
    decreases p.len(),
{
    if p.len() > 0 {
        assert((p + a).drop_first() =~= p.drop_first() + a);
        assert((p + b).drop_first() =~= p.drop_first() + b);
        lemma_lex_lt_common_prefix(p.drop_first(), a, b);
    } else {
        assert(p + a =~= a);
        assert(p + b =~= b);
    }
}

/// The lexicographic order is transitive.
pub proof fn lemma_lex_lt_transitive(a: Seq<u8>, b: Seq<u8>, c: Seq<u8>)
    requires
        lex_lt(a, b),
        lex_lt(b, c),
    ensures
        lex_lt(a, c),
    decreases a.len(),
{
    if a.len() > 0 && b.len() > 0 && c.len() > 0 && a[0] == b[0] && b[0] == c[0] {
        lemma_lex_lt_transitive(a.drop_first(), b.drop_first(), c.drop_first());
    }
}

/// The lexicographic order is asymmetric, hence irreflexive.
pub proof fn lemma_lex_lt_asymmetric(a: Seq<u8>, b: Seq<u8>)
    requires
        lex_lt(a, b),
    ensures
        !lex_lt(b, a),
        a != b,
    decreases a.len(),
{
    if a.len() > 0 && a[0] == b[0] {
        lemma_lex_lt_asymmetric(a.drop_first(), b.drop_first());
        if a == b {
            assert(a.drop_first() == b.drop_first());
        }
    }
}

/// A key at or above `p` that does not begin with `p` lies above every key
/// that does.
pub proof fn lemma_above_prefix_block(p: Seq<u8>, k: Seq<u8>, x: Seq<u8>)
    requires
        lex_le(p, k),
        !has_prefix(k, p),
        has_prefix(x, p),
    ensures
        lex_lt(x, k),
    decreases p.len(),
{
    if p.len() == 0 {
        assert(k.subrange(0, 0) =~= p);
    } else {
        if k == p {
            assert(k.subrange(0, p.len() as int) =~= p);
        }
        assert(x[0] == x.subrange(0, p.len() as int)[0]);
        if k.len() > 0 && k[0] == p[0] {
            lemma_has_prefix_first(k, p);
            lemma_has_prefix_first(x, p);
            if p.drop_first() == k.drop_first() {
                assert(p =~= k) by {
                    assert forall|i: int| 0 < i < p.len() implies p[i] == k[i] by {
                        assert(p.drop_first()[i - 1] == k.drop_first()[i - 1]);
                    }
                }
            }
            lemma_above_prefix_block(p.drop_first(), k.drop_first(), x.drop_first());
        }
    }
}

} // verus!
