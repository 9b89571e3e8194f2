use vstd::prelude::*;

use crate::bound::{
    all_max, lemma_upper_bound_delimits_prefix, namespace_upper_bound, upper_bound_of,
};
use crate::order::{
    has_prefix, lemma_above_prefix_block, lemma_lex_lt_asymmetric, lemma_lex_lt_common_prefix,
    lemma_lex_lt_transitive, lex_le, lex_lt,
};

verus! {

/// Raw key of `key` under `namespace`.
pub fn concat(namespace: &[u8], key: &[u8]) -> (r: Vec<u8>)
    ensures
        r@ == namespace@ + key@,
{
    let mut k = vstd::slice::slice_to_vec(namespace);
    k.extend_from_slice(key);
    assert(k@ =~= namespace@ + key@);
    k
}

/// Relative key of a raw key: its bytes after the first `namespace.len()`.
pub fn trim(namespace: &[u8], key: &[u8]) -> (r: Vec<u8>)
    requires
        namespace@.len() <= key@.len(),
    ensures
        r@ == key@.subrange(namespace@.len() as int, key@.len() as int),
{
    vstd::slice::slice_to_vec(vstd::slice::slice_subrange(key, namespace.len(), key.len()))
}

/// Inclusive raw start of a scan of `namespace` from the relative key `start`.
pub open spec fn scan_start(namespace: Seq<u8>, start: Option<Seq<u8>>) -> Seq<u8> {
    match start {
        Some(s) => namespace + s,
        None => namespace,
    }
}

/// Exclusive raw end of a scan of `namespace` up to the relative key `end`.
pub open spec fn scan_end(namespace: Seq<u8>, end: Option<Seq<u8>>) -> Seq<u8> {
    match end {
        Some(e) => namespace + e,
        None => upper_bound_of(namespace),
    }
}

pub open spec fn opt_view(o: Option<&[u8]>) -> Option<Seq<u8>> {
    match o {
        Some(s) => Some(s@),
        None => None,
    }
}

/// The raw half-open interval `[start, end)` that a store scans for the
/// entries of `namespace` between the relative keys `start` (inclusive) and
/// `end` (exclusive); an absent bound leaves that side open within the
/// namespace.
pub fn range_with_prefix_bounds(namespace: &[u8], start: Option<&[u8]>, end: Option<&[u8]>) -> (r: (
    Vec<u8>,
    Vec<u8>,
))
    ensures
        r.0@ == scan_start(namespace@, opt_view(start)),
        r.1@ == scan_end(namespace@, opt_view(end)),
{
    let raw_start = match start {
        Some(s) => concat(namespace, s),
        None => vstd::slice::slice_to_vec(namespace),
    };
    let raw_end = match end {
        Some(e) => concat(namespace, e),
        None => namespace_upper_bound(namespace),
    };
    (raw_start, raw_end)
}

/// `rel` lies between the relative bounds: at or above `start` and below
/// `end`, an absent bound admitting every key on its side.
pub open spec fn in_relative_range(rel: Seq<u8>, start: Option<Seq<u8>>, end: Option<Seq<u8>>) -> bool {
    (match start {
        Some(s) => lex_le(s, rel),
        None => true,
    }) && (match end {
        Some(e) => lex_lt(rel, e),
        None => true,
    })
}

proof fn lemma_lex_le_common_prefix(p: Seq<u8>, a: Seq<u8>, b: Seq<u8>)
    ensures
        lex_le(p + a, p + b) <==> lex_le(a, b),
{
    lemma_lex_lt_common_prefix(p, a, b);
    if p + a == p + b {
        assert(a =~= (p + a).subrange(p.len() as int, (p + a).len() as int));
        assert(b =~= (p + b).subrange(p.len() as int, (p + b).len() as int));
    }
}

/// For a namespace prefix that is not all 0xFF, a raw key lies in the
/// interval `[scan_start, scan_end)` of a scan exactly when it begins with
/// the prefix and the rest of it, its relative key, lies between the
/// relative bounds. Where the end is open, the law leaves out the keys that
/// `lemma_upper_bound_delimits_prefix` leaves out.
pub proof fn lemma_scan_selects_relative_range(
    namespace: Seq<u8>,
    start: Option<Seq<u8>>,
    end: Option<Seq<u8>>,
    k: Seq<u8>,
)
    requires
        !all_max(namespace),
        end is None ==> !(has_prefix(upper_bound_of(namespace), k) && k.len() < namespace.len()
            && !has_prefix(k, namespace)),
    ensures
        (lex_le(scan_start(namespace, start), k) && lex_lt(k, scan_end(namespace, end))) <==> (
        has_prefix(k, namespace) && in_relative_range(
            k.subrange(namespace.len() as int, k.len() as int),
            start,
            end,
        )),
{
    let ns = namespace;
    let lo = scan_start(ns, start);
    let hi = scan_end(ns, end);
    let empty = Seq::<u8>::empty();
    // the raw start is at or above the namespace itself
    assert(lex_le(ns, lo)) by {
        if let Some(s) = start {
            lemma_lex_le_common_prefix(ns, empty, s);
            assert(ns + empty =~= ns);
            assert(lex_le(empty, s));
        }
    }
    if has_prefix(k, ns) {
        let rel = k.subrange(ns.len() as int, k.len() as int);
        assert(k =~= ns + rel);
        if let Some(s) = start {
            lemma_lex_le_common_prefix(ns, s, rel);
        } else {
            lemma_lex_le_common_prefix(ns, empty, rel);
            assert(ns + empty =~= ns);
        }
        if let Some(e) = end {
            lemma_lex_lt_common_prefix(ns, rel, e);
        } else {
            lemma_upper_bound_delimits_prefix(ns, k);
        }
    } else if lex_le(lo, k) && lex_lt(k, hi) {
        if lo != k {
            if ns != lo {
                lemma_lex_lt_transitive(ns, lo, k);
            }
        }
        assert(lex_le(ns, k));
        if let Some(e) = end {
            assert(has_prefix(ns + e, ns)) by {
                assert((ns + e).subrange(0, ns.len() as int) =~= ns);
            }
            lemma_above_prefix_block(ns, k, ns + e);
            lemma_lex_lt_asymmetric(k, ns + e);
        } else {
            lemma_upper_bound_delimits_prefix(ns, k);
        }
    }
}

} // verus!
