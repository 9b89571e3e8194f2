use vstd::prelude::*;

verus! {

/// Why a sequence of segments has no nested prefix.
#[derive(Debug, Clone, Copy, PartialEq, Eq, Structural)]
pub enum KeyError {
    /// The segment at `index` is `length` bytes long, more than a two-byte
    /// tag can carry.
    SegmentTooLong { index: usize, length: usize },
    /// The whole prefix would be longer than a `usize` can count.
    PrefixTooLong,
}

/// The largest segment length that a two-byte tag can carry.
pub const MAX_SEGMENT_LEN: usize = 0xFFFF;

/// Big-endian two-byte encoding of a segment length.
pub open spec fn length_tag(n: nat) -> Seq<u8> {
    seq![(n / 256) as u8, (n % 256) as u8]
}

/// One segment: its length tag followed by its bytes.
pub open spec fn encode_segment(s: Seq<u8>) -> Seq<u8> {
    length_tag(s.len()) + s
}

/// The nesting-safe prefix of a sequence of segments.
pub open spec fn encode_nested(segs: Seq<Seq<u8>>) -> Seq<u8>
    decreases segs.len(),
{
    if segs.len() == 0 {
        Seq::empty()
    } else {
        encode_segment(segs[0]) + encode_nested(segs.drop_first())
    }
}

/// Every segment's length fits in a two-byte tag.
pub open spec fn segments_fit(segs: Seq<Seq<u8>>) -> bool {
    forall|i: int| 0 <= i < segs.len() ==> segs[i].len() <= MAX_SEGMENT_LEN
}

/// The byte contents of a slice of segments.
pub open spec fn segments_view(namespaces: Seq<&[u8]>) -> Seq<Seq<u8>> {
    namespaces.map_values(|s: &[u8]| s@)
}

/// Encoding distributes over concatenation of segment sequences.
pub proof fn lemma_encode_nested_concat(a: Seq<Seq<u8>>, b: Seq<Seq<u8>>)
    ensures
        encode_nested(a + b) == encode_nested(a) + encode_nested(b),
    decreases a.len(),
{
    if a.len() == 0 {
        assert(a + b =~= b);
        assert(encode_nested(a) + encode_nested(b) =~= encode_nested(b));
    } else {
        assert((a + b).drop_first() =~= a.drop_first() + b);
        lemma_encode_nested_concat(a.drop_first(), b);
        assert(encode_nested(a + b) =~= encode_nested(a) + encode_nested(b));
    }
}

proof fn lemma_encode_nested_push(a: Seq<Seq<u8>>, s: Seq<u8>)
    ensures
        encode_nested(a.push(s)) == encode_nested(a) + encode_segment(s),
{
    lemma_encode_nested_concat(a, seq![s]);
    assert(a.push(s) =~= a + seq![s]);
    assert(seq![s].drop_first() =~= Seq::<Seq<u8>>::empty());
    assert(seq![s][0] == s);
    assert(encode_nested(seq![s].drop_first()) =~= Seq::<u8>::empty());
    assert(encode_nested(seq![s]) =~= encode_segment(s));
}

/// Distinct sequences of segments, each at most `MAX_SEGMENT_LEN` bytes long,
/// have distinct encodings.
pub proof fn lemma_encode_nested_injective(s1: Seq<Seq<u8>>, s2: Seq<Seq<u8>>)
    requires
        segments_fit(s1),
        segments_fit(s2),
        encode_nested(s1) == encode_nested(s2),
    ensures
        s1 == s2,
    decreases s1.len(),
{
    if s1.len() == 0 || s2.len() == 0 {
        if s1.len() != 0 {
            assert(encode_nested(s1).len() >= 2);
        }
        if s2.len() != 0 {
            assert(encode_nested(s2).len() >= 2);
        }
        assert(s1 =~= s2);
    } else {
        let e = encode_nested(s1);
        let n1 = s1[0].len() as int;
        let n2 = s2[0].len() as int;
        assert(e[0] == (n1 / 256) as u8 && e[1] == (n1 % 256) as u8);
        assert(e[0] == (n2 / 256) as u8 && e[1] == (n2 % 256) as u8);
        assert(0 <= n1 / 256 < 256 && 0 <= n2 / 256 < 256) by (nonlinear_arith)
            requires
                0 <= n1 <= 0xFFFF,
                0 <= n2 <= 0xFFFF,
        {
        }
        assert(n1 / 256 == n2 / 256 && n1 % 256 == n2 % 256);
        assert(n1 == n2) by (nonlinear_arith)
            requires
                0 <= n1,
                0 <= n2,
                n1 / 256 == n2 / 256,
                n1 % 256 == n2 % 256,
        {
        }
        assert(s1[0] =~= e.subrange(2, 2 + n1));
        assert(s2[0] =~= e.subrange(2, 2 + n2));
        assert(encode_nested(s1.drop_first()) =~= e.subrange(2 + n1, e.len() as int));
        assert(encode_nested(s2.drop_first()) =~= e.subrange(2 + n2, e.len() as int));
        lemma_encode_nested_injective(s1.drop_first(), s2.drop_first());
        assert forall|i: int| 0 <= i < s1.len() implies s1[i] == s2[i] by {
            if i > 0 {
                assert(s1.drop_first()[i - 1] == s2.drop_first()[i - 1]);
            }
        }
        assert(s1 =~= s2);
    }
}

/// Length of the nested prefix of `namespaces`, or `None` where it does not
/// fit in a `usize`.
pub fn length_prefixed_nested_len(namespaces: &[&[u8]]) -> (r: Option<usize>)
    ensures
        match r {
            Some(n) => n == encode_nested(segments_view(namespaces@)).len(),
            None => encode_nested(segments_view(namespaces@)).len() > usize::MAX,
        },
{
    let ghost segs = segments_view(namespaces@);
    let mut size: usize = 0;
    let mut i: usize = 0;
    while i < namespaces.len()
        invariant
            i <= namespaces@.len(),
            segs == segments_view(namespaces@),
            size == encode_nested(segs.take(i as int)).len(),
        decreases namespaces@.len() - i,
    {
        let namespace: &[u8] = namespaces[i];
        proof {
            assert(segs.take(i + 1) =~= segs.take(i as int).push(namespace@));
            lemma_encode_nested_push(segs.take(i as int), namespace@);
        }
        let step = size.checked_add(namespace.len());
        let next = match step {
            Some(m) => m.checked_add(2),
            None => None,
        };
        match next {
            Some(m) => {
                size = m;
            },
            None => {
                proof {
                    lemma_encode_nested_concat(segs.take(i + 1), segs.skip(i + 1));
                    assert(segs =~= segs.take(i + 1) + segs.skip(i + 1));
                }
                return None;
            },
        }
        i = i + 1;
    }
    assert(segs.take(i as int) =~= segs);
    Some(size)
}

/// Calculates the raw key prefix of a nested namespace: for each segment in
/// order, its length as two big-endian bytes, then its bytes. The result is
/// allocated at its final length up front.
pub fn to_length_prefixed_nested(namespaces: &[&[u8]]) -> (r: Vec<u8>)
    requires
        segments_fit(segments_view(namespaces@)),
        encode_nested(segments_view(namespaces@)).len() <= usize::MAX,
    ensures
        r@ == encode_nested(segments_view(namespaces@)),
{
    let ghost segs = segments_view(namespaces@);
    let size = match length_prefixed_nested_len(namespaces) {
        Some(n) => n,
        None => 0,
    };
    let mut out: Vec<u8> = Vec::with_capacity(size);
    let mut i: usize = 0;
    while i < namespaces.len()
        invariant
            i <= namespaces@.len(),
            segs == segments_view(namespaces@),
            segments_fit(segs),
            out@ == encode_nested(segs.take(i as int)),
        decreases namespaces@.len() - i,
    {
        let namespace: &[u8] = namespaces[i];
        let len = namespace.len();
        assert(segs[i as int] == namespace@);
        out.push((len / 256) as u8);
        out.push((len % 256) as u8);
        out.extend_from_slice(namespace);
        proof {
            assert(segs.take(i + 1) =~= segs.take(i as int).push(namespace@));
            lemma_encode_nested_push(segs.take(i as int), namespace@);
            assert(out@ =~= encode_nested(segs.take(i + 1)));
        }
        i = i + 1;
    }
    assert(segs.take(i as int) =~= segs);
    out
}

/// Like `to_length_prefixed_nested`, but reports the first segment that is
/// too long for its tag, or a prefix too long to hold, instead of requiring
/// that neither happens.
pub fn checked_length_prefixed_nested(namespaces: &[&[u8]]) -> (r: Result<Vec<u8>, KeyError>)
    ensures
        match r {
            Ok(v) => segments_fit(segments_view(namespaces@)) && v@ == encode_nested(
                segments_view(namespaces@),
            ),
            Err(KeyError::SegmentTooLong { index, length }) => index < namespaces@.len()
                && length == namespaces@[index as int]@.len() && length > MAX_SEGMENT_LEN
                && forall|j: int| 0 <= j < index ==> namespaces@[j]@.len() <= MAX_SEGMENT_LEN,
            Err(KeyError::PrefixTooLong) => segments_fit(segments_view(namespaces@))
                && encode_nested(segments_view(namespaces@)).len() > usize::MAX,
        },
{
    let ghost segs = segments_view(namespaces@);
    let mut i: usize = 0;
    while i < namespaces.len()
        invariant
            i <= namespaces@.len(),
            segs == segments_view(namespaces@),
            forall|j: int| 0 <= j < i ==> namespaces@[j]@.len() <= MAX_SEGMENT_LEN,
        decreases namespaces@.len() - i,
    {
        let length = namespaces[i].len();
        if length > MAX_SEGMENT_LEN {
            return Err(KeyError::SegmentTooLong { index: i, length });
        }
        i = i + 1;
    }
    assert(segments_fit(segs)) by {
        assert forall|j: int| 0 <= j < segs.len() implies segs[j].len() <= MAX_SEGMENT_LEN by {
            assert(segs[j] == namespaces@[j]@);
        }
    }
    match length_prefixed_nested_len(namespaces) {
        Some(_) => Ok(to_length_prefixed_nested(namespaces)),
        None => Err(KeyError::PrefixTooLong),
    }
}

} // verus!
