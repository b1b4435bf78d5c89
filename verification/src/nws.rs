//! Counting of non-whitespace bytes, the size measure of the chunking algorithm.

use vstd::prelude::*;
use vstd::string::StringSliceAdditionalSpecFns;

use crate::byte_range::ByteRange;

verus! {

/// ASCII whitespace: space, tab, newline,
/// carriage return, vertical tab and form feed.
pub open spec fn is_ws(b: u8) -> bool {
    b == 0x20 || b == 0x09 || b == 0x0a || b == 0x0d || b == 0x0b || b == 0x0c
}

/// The number of bytes of `s` that are not ASCII whitespace.
pub open spec fn nws_count(s: Seq<u8>) -> nat
    decreases s.len(),
{
    if s.len() == 0 {
        0
    } else {
        nws_count(s.drop_last()) + if is_ws(s.last()) {
            0nat
        } else {
            1nat
        }
    }
}

/// Executable test for the whitespace bytes of [`is_ws`].
pub fn is_ascii_whitespace(b: u8) -> (r: bool)
    ensures
        r == is_ws(b),
{
    b == 0x20 || b == 0x09 || b == 0x0a || b == 0x0d || b == 0x0b || b == 0x0c
}

/// The count never exceeds the length.
pub proof fn lemma_nws_le_len(s: Seq<u8>)
    ensures
        nws_count(s) <= s.len(),
    decreases s.len(),
{
    if s.len() > 0 {
        lemma_nws_le_len(s.drop_last());
    }
}

/// The count of a concatenation is the sum of the counts.
pub proof fn lemma_nws_concat(a: Seq<u8>, b: Seq<u8>)
    ensures
        nws_count(a + b) == nws_count(a) + nws_count(b),
    decreases b.len(),
{
    if b.len() == 0 {
        assert(a + b =~= a);
    } else {
        lemma_nws_concat(a, b.drop_last());
        assert((a + b).drop_last() =~= a + b.drop_last());
    }
}

/// The count over a subrange is the difference of the prefix counts.
pub proof fn lemma_nws_subrange(s: Seq<u8>, lo: int, hi: int)
    requires
        0 <= lo <= hi <= s.len(),
    ensures
        nws_count(s.subrange(lo, hi)) == nws_count(s.take(hi)) - nws_count(s.take(lo)),
{
    assert(s.take(hi) =~= s.take(lo) + s.subrange(lo, hi));
    lemma_nws_concat(s.take(lo), s.subrange(lo, hi));
}

/// A sequence made only of whitespace has count zero.
pub proof fn lemma_nws_all_ws(s: Seq<u8>)
    requires
        forall|i: int| 0 <= i < s.len() ==> is_ws(#[trigger] s[i]),
    ensures
        nws_count(s) == 0,
    decreases s.len(),
{
    if s.len() > 0 {
        lemma_nws_all_ws(s.drop_last());
    }
}

/// Cumulative sum of non-whitespace counts over a byte string, for
/// constant-time range queries after linear preprocessing.
pub struct NwsCumsum {
    /// `cumsum[i]` is the number of non-whitespace bytes in `source[0..i]`.
    cumsum: Vec<u32>,
    /// The source the sums were computed from.
    source: Ghost<Seq<u8>>,
}

impl NwsCumsum {
    /// The byte string that the sums describe.
    pub closed spec fn source(&self) -> Seq<u8> {
        self.source@
    }

    #[verifier::type_invariant]
    spec fn inv(&self) -> bool {
        &&& self.cumsum@.len() == self.source@.len() + 1
        &&& forall|i: int|
            0 <= i < self.cumsum@.len() ==> #[trigger] self.cumsum@[i] == nws_count(
                self.source@.take(i),
            )
    }

    /// Builds the cumulative sums of `source`.
    pub fn new(source: &[u8]) -> (r: Self)
        requires
            nws_count(source@) <= u32::MAX,
        ensures
            r.source() == source@,
    {
        let mut cumsum: Vec<u32> = Vec::new();
        cumsum.push(0);
        let mut acc: u32 = 0;
        let mut i: usize = 0;
        assert(source@.take(0) =~= Seq::<u8>::empty());
        while i < source.len()
            invariant
                i <= source@.len(),
                nws_count(source@) <= u32::MAX,
                cumsum@.len() == i + 1,
                acc == nws_count(source@.take(i as int)),
                forall|j: int|
                    0 <= j < cumsum@.len() ==> #[trigger] cumsum@[j] == nws_count(
                        source@.take(j),
                    ),
            decreases source@.len() - i,
        {
            let b = source[i];
            assert(source@.take(i + 1).drop_last() =~= source@.take(i as int));
            proof {
                lemma_nws_subrange(source@, 0, i + 1);
                lemma_nws_concat(source@.take(i + 1), source@.subrange(i + 1, source@.len() as int));
                assert(source@.take(i + 1) + source@.subrange(i + 1, source@.len() as int) =~= source@);
            }
            if !is_ascii_whitespace(b) {
                acc = acc + 1;
            }
            cumsum.push(acc);
            i = i + 1;
        }
        assert(source@.take(source@.len() as int) =~= source@);
        NwsCumsum { cumsum, source: Ghost(source@) }
    }

    /// The non-whitespace count of `source[range.start..range.end]`.
    pub fn get(&self, range: ByteRange) -> (r: u32)
        requires
            range.start <= range.end <= self.source().len(),
        ensures
            r == nws_count(self.source().subrange(range.start as int, range.end as int)),
    {
        proof {
            use_type_invariant(self);
            lemma_nws_subrange(self.source@, range.start as int, range.end as int);
        }
        self.cumsum[range.end as usize] - self.cumsum[range.start as usize]
    }
}

/// Counts the non-whitespace bytes of `code` directly.
pub fn nws_count_direct(code: &str) -> (r: u32)
    requires
        nws_count(code.spec_bytes()) <= u32::MAX,
    ensures
        r == nws_count(code.spec_bytes()),
{
    let bytes = code.as_bytes();
    nws_count_bytes(bytes)
}

/// Counts the non-whitespace bytes of a byte slice.
pub fn nws_count_bytes(bytes: &[u8]) -> (r: u32)
    requires
        nws_count(bytes@) <= u32::MAX,
    ensures
        r == nws_count(bytes@),
{
    let mut count: u32 = 0;
    let mut i: usize = 0;
    assert(bytes@.take(0) =~= Seq::<u8>::empty());
    while i < bytes.len()
        invariant
            i <= bytes@.len(),
            nws_count(bytes@) <= u32::MAX,
            count == nws_count(bytes@.take(i as int)),
        decreases bytes@.len() - i,
    {
        assert(bytes@.take(i + 1).drop_last() =~= bytes@.take(i as int));
        proof {
            lemma_nws_concat(bytes@.take(i + 1), bytes@.subrange(i + 1, bytes@.len() as int));
            assert(bytes@.take(i + 1) + bytes@.subrange(i + 1, bytes@.len() as int) =~= bytes@);
        }
        if !is_ascii_whitespace(bytes[i]) {
            count = count + 1;
        }
        i = i + 1;
    }
    assert(bytes@.take(bytes@.len() as int) =~= bytes@);
    count
}

/// Counts the non-whitespace bytes of a byte slice; `None` when the count
/// does not fit in `u32`.
pub fn nws_count_bytes_checked(bytes: &[u8]) -> (r: Option<u32>)
    ensures
        r is Some <==> nws_count(bytes@) <= u32::MAX,
        r matches Some(n) ==> n == nws_count(bytes@),
{
    let mut count: u64 = 0;
    let mut i: usize = 0;
    assert(bytes@.take(0) =~= Seq::<u8>::empty());
    while i < bytes.len()
        invariant
            i <= bytes@.len(),
            count == nws_count(bytes@.take(i as int)),
            count <= i,
        decreases bytes@.len() - i,
    {
        assert(bytes@.take(i + 1).drop_last() =~= bytes@.take(i as int));
        if !is_ascii_whitespace(bytes[i]) {
            count = count + 1;
        }
        i = i + 1;
    }
    assert(bytes@.take(bytes@.len() as int) =~= bytes@);
    if count <= 0xffff_ffff {
        Some(count as u32)
    } else {
        None
    }
}

/// Range counts add up: the counts of `[a, b)` and `[b, d)` together make
/// that of `[a, d)`, so [`NwsCumsum::get`] on adjacent ranges sums to `get` on
/// their union.
pub proof fn lemma_nws_ranges_add(source: Seq<u8>, a: int, b: int, d: int)
    requires
        0 <= a <= b <= d <= source.len(),
    ensures
        nws_count(source.subrange(a, b)) + nws_count(source.subrange(b, d)) == nws_count(source.subrange(a, d)),
{
    assert(source.subrange(a, d) =~= source.subrange(a, b) + source.subrange(b, d));
    lemma_nws_concat(source.subrange(a, b), source.subrange(b, d));
}

/// A range query over the cumulative sums agrees with counting the bytes of
/// that range directly.
pub proof fn lemma_cumsum_matches_direct(source: Seq<u8>, lo: int, hi: int)
    requires
        0 <= lo <= hi <= source.len(),
    ensures
        nws_count(source.subrange(lo, hi)) == nws_count(source.take(hi)) - nws_count(source.take(lo)),
        nws_count(source.subrange(0, source.len() as int)) == nws_count(source),
{
    lemma_nws_subrange(source, lo, hi);
    assert(source.subrange(0, source.len() as int) =~= source);
}

} // verus!
