//! Byte- and character-level text utilities shared by the chunking,
//! formatting and export stages: UTF-8 facts, string comparison, line
//! splitting and decimal rendering.

use vstd::prelude::*;
use vstd::string::StringSliceAdditionalSpecFns;
use vstd::utf8::*;

verus! {

broadcast use vstd::seq::group_seq_axioms;

/// UTF-8 encoding distributes over concatenation.
pub proof fn lemma_encode_utf8_concat(a: Seq<char>, b: Seq<char>)
    ensures
        encode_utf8(a + b) == encode_utf8(a) + encode_utf8(b),
    decreases a.len(),
{
    if a.len() == 0 {
        assert(a + b =~= b);
        assert(encode_utf8(a) =~= Seq::<u8>::empty());
        assert(encode_utf8(a) + encode_utf8(b) =~= encode_utf8(b));
    } else {
        assert((a + b).drop_first() =~= a.drop_first() + b);
        assert((a + b)[0] == a[0]);
        lemma_encode_utf8_concat(a.drop_first(), b);
        assert(encode_utf8(a + b) =~= encode_scalar(a[0] as u32) + (encode_utf8(a.drop_first())
            + encode_utf8(b)));
        assert(encode_utf8(a) + encode_utf8(b) =~= encode_scalar(a[0] as u32) + (encode_utf8(
            a.drop_first(),
        ) + encode_utf8(b)));
    }
}

/// The concatenation of two valid UTF-8 byte strings is valid UTF-8.
pub proof fn lemma_valid_utf8_concat(x: Seq<u8>, y: Seq<u8>)
    requires
        valid_utf8(x),
        valid_utf8(y),
    ensures
        valid_utf8(x + y),
{
    decode_utf8_encode_utf8(x);
    decode_utf8_encode_utf8(y);
    lemma_encode_utf8_concat(decode_utf8(x), decode_utf8(y));
    encode_utf8_valid_utf8(decode_utf8(x) + decode_utf8(y));
}

proof fn lemma_ascii_byte_facts(b: u8)
    requires
        b < 0x80,
    ensures
        ((b & 0x7F) as u32) == b as u32,
{
    assert(b < 0x80 ==> ((b & 0x7F) as u32) == b as u32) by (bit_vector);
}

/// A byte string made only of ASCII bytes is valid UTF-8.
pub proof fn lemma_ascii_valid(s: Seq<u8>)
    requires
        forall|i: int| 0 <= i < s.len() ==> #[trigger] s[i] < 0x80,
    ensures
        valid_utf8(s),
    decreases s.len(),
{
    if s.len() > 0 {
        lemma_ascii_byte_facts(s[0]);
        assert(pop_first_scalar(s) =~= s.drop_first());
        lemma_ascii_valid(s.drop_first());
    }
}

proof fn lemma_continuation_high(x: u32)
    ensures
        (0x80u8 | (x & 0x3F) as u8) >= 0x80,
        (0x80u8 | ((x >> 6) & 0x3F) as u8) >= 0x80,
        (0x80u8 | ((x >> 12) & 0x3F) as u8) >= 0x80,
{
    assert((0x80u8 | (x & 0x3F) as u8) >= 0x80) by (bit_vector);
    assert((0x80u8 | ((x >> 6) & 0x3F) as u8) >= 0x80) by (bit_vector);
    assert((0x80u8 | ((x >> 12) & 0x3F) as u8) >= 0x80) by (bit_vector);
}

/// All bytes after the first in the encoding of a scalar are continuation
/// bytes, hence not ASCII.
proof fn lemma_encode_scalar_tail_high(c: u32)
    ensures
        encode_scalar(c).len() >= 1,
        forall|i: int| 1 <= i < encode_scalar(c).len() ==> #[trigger] encode_scalar(c)[i] >= 0x80,
{
    lemma_continuation_high(c);
}

/// Cutting a valid UTF-8 byte string just before an ASCII byte (or at its end)
/// leaves a valid UTF-8 prefix.
pub proof fn lemma_valid_utf8_prefix(s: Seq<u8>, k: int)
    requires
        valid_utf8(s),
        0 <= k <= s.len(),
        k == s.len() || s[k] < 0x80,
    ensures
        valid_utf8(s.take(k)),
{
    decode_utf8_encode_utf8(s);
    lemma_encoded_prefix(decode_utf8(s), k);
}

proof fn lemma_encoded_prefix(c: Seq<char>, k: int)
    requires
        0 <= k <= encode_utf8(c).len(),
        k == encode_utf8(c).len() || encode_utf8(c)[k] < 0x80,
    ensures
        valid_utf8(encode_utf8(c).take(k)),
    decreases c.len(),
{
    let s = encode_utf8(c);
    if k == 0 {
        assert(s.take(0) =~= Seq::<u8>::empty());
    } else if c.len() == 0 {
    } else {
        let e0 = encode_scalar(c[0] as u32);
        let rest = encode_utf8(c.drop_first());
        assert(s == e0 + rest);
        lemma_encode_scalar_tail_high(c[0] as u32);
        if k < e0.len() {
            assert(s[k] == e0[k]);
            assert(false);
        }
        let k2 = k - e0.len();
        if k2 < rest.len() {
            assert(rest[k2] == s[k]);
        }
        lemma_encoded_prefix(c.drop_first(), k2);
        assert(s.take(k) =~= e0 + rest.take(k2));
        assert(encode_utf8(seq![c[0]]) =~= e0) by {
            let one = seq![c[0]];
            assert(one.drop_first() =~= Seq::<char>::empty());
            assert(encode_utf8(one.drop_first()) =~= Seq::<u8>::empty());
            assert(encode_utf8(one) == encode_scalar(one[0] as u32) + encode_utf8(one.drop_first()));
        }
        encode_utf8_valid_utf8(seq![c[0]]);
        lemma_valid_utf8_concat(e0, rest.take(k2));
    }
}

/// The encodings of two character sequences agree only if the sequences do.
pub proof fn lemma_encode_utf8_injective(a: Seq<char>, b: Seq<char>)
    requires
        encode_utf8(a) == encode_utf8(b),
    ensures
        a == b,
{
    encode_utf8_decode_utf8(a);
    encode_utf8_decode_utf8(b);
}

/// Views bytes as a `str` (through `std::str::from_utf8`); `None` exactly
/// when the bytes are not valid UTF-8.
#[verifier::external_body]
pub fn str_from_utf8(bytes: &[u8]) -> (r: Option<&str>)
    ensures
        r is Some <==> valid_utf8(bytes@),
        r matches Some(s) ==> s.spec_bytes() == bytes@,
{
    std::str::from_utf8(bytes).ok()
}

/// Turns bytes into a `String` (through `String::from_utf8`); `None` exactly
/// when the bytes are not valid UTF-8.
#[verifier::external_body]
pub fn string_from_utf8(bytes: Vec<u8>) -> (r: Option<String>)
    ensures
        r is Some <==> valid_utf8(bytes@),
        r matches Some(s) ==> encode_utf8(s@) == bytes@,
{
    String::from_utf8(bytes).ok()
}

/// Turns valid UTF-8 bytes into a `String`.
pub fn string_from_valid_utf8(bytes: Vec<u8>) -> (r: String)
    requires
        valid_utf8(bytes@),
    ensures
        encode_utf8(r@) == bytes@,
        r@ == decode_utf8(bytes@),
{
    let ghost b = bytes@;
    match string_from_utf8(bytes) {
        Some(s) => {
            proof {
                encode_utf8_decode_utf8(s@);
            }
            s
        },
        None => {
            proof {
                assert(false);
            }
            String::new()
        },
    }
}

/// Copies a byte slice into a vector.
pub fn bytes_to_vec(bytes: &[u8]) -> (r: Vec<u8>)
    ensures
        r@ == bytes@,
{
    let mut v: Vec<u8> = Vec::new();
    let mut i: usize = 0;
    while i < bytes.len()
        invariant
            i <= bytes@.len(),
            v@ == bytes@.take(i as int),
        decreases bytes@.len() - i,
    {
        v.push(bytes[i]);
        i = i + 1;
        assert(v@ =~= bytes@.take(i as int));
    }
    assert(bytes@.take(bytes@.len() as int) =~= bytes@);
    v
}

/// Appends the bytes `bytes[lo..hi]` to `out`.
pub fn extend_from_range(out: &mut Vec<u8>, bytes: &[u8], lo: usize, hi: usize)
    requires
        lo <= hi <= bytes@.len(),
    ensures
        final(out)@ == old(out)@ + bytes@.subrange(lo as int, hi as int),
{
    let ghost start = out@;
    let mut i = lo;
    while i < hi
        invariant
            lo <= i <= hi <= bytes@.len(),
            out@ == start + bytes@.subrange(lo as int, i as int),
        decreases hi - i,
    {
        out.push(bytes[i]);
        i = i + 1;
        assert(out@ =~= start + bytes@.subrange(lo as int, i as int));
    }
}

/// Appends `n` copies of the byte `b` to `out`.
pub fn push_repeated(out: &mut Vec<u8>, b: u8, n: u32)
    ensures
        final(out)@ == old(out)@ + Seq::new(n as nat, |_i: int| b),
{
    let ghost start = out@;
    let mut i: u32 = 0;
    while i < n
        invariant
            i <= n,
            out@ == start + Seq::new(i as nat, |_i: int| b),
        decreases n - i,
    {
        out.push(b);
        i = i + 1;
        assert(out@ =~= start + Seq::new(i as nat, |_i: int| b));
    }
}

/// Compares two strings character by character.
pub fn str_eq(a: &str, b: &str) -> (r: bool)
    ensures
        r == (a@ == b@),
{
    let x = a.as_bytes();
    let y = b.as_bytes();
    if x.len() != y.len() {
        return false;
    }
    let mut i: usize = 0;
    while i < x.len()
        invariant
            x@ == a.spec_bytes(),
            y@ == b.spec_bytes(),
            x@.len() == y@.len(),
            i <= x@.len(),
            forall|j: int| 0 <= j < i ==> x@[j] == y@[j],
        decreases x@.len() - i,
    {
        if x[i] != y[i] {
            return false;
        }
        i = i + 1;
    }
    proof {
        assert(x@ =~= y@);
        lemma_encode_utf8_injective(a@, b@);
    }
    true
}

/// Number of newline bytes in `s`.
pub open spec fn newline_count(s: Seq<u8>) -> nat
    decreases s.len(),
{
    if s.len() == 0 {
        0
    } else {
        newline_count(s.drop_last()) + if s.last() == 0x0a {
            1nat
        } else {
            0nat
        }
    }
}

/// Number of the lines of a text as `str::lines` counts them: one per
/// newline, plus one for a final line that does not end with a newline.
pub open spec fn line_count(s: Seq<u8>) -> nat {
    newline_count(s) + if s.len() > 0 && s.last() != 0x0a {
        1nat
    } else {
        0nat
    }
}

/// Counts the lines of a byte string as [`line_count`] defines them.
pub fn count_lines(s: &[u8]) -> (r: u32)
    requires
        line_count(s@) <= u32::MAX,
    ensures
        r == line_count(s@),
{
    let mut n: u64 = 0;
    let mut i: usize = 0;
    while i < s.len()
        invariant
            i <= s@.len(),
            n == newline_count(s@.take(i as int)),
            n <= i,
        decreases s@.len() - i,
    {
        assert(s@.take(i + 1).drop_last() =~= s@.take(i as int));
        if s[i] == 0x0a {
            n = n + 1;
        }
        i = i + 1;
    }
    assert(s@.take(s@.len() as int) =~= s@);
    if s.len() > 0 && s[s.len() - 1] != 0x0a {
        n = n + 1;
    }
    n as u32
}

/// Appends an ASCII byte, keeping `out` valid UTF-8.
pub fn push_ascii_valid(out: &mut Vec<u8>, b: u8)
    requires
        b < 0x80,
        valid_utf8(old(out)@),
    ensures
        final(out)@ == old(out)@.push(b),
        valid_utf8(final(out)@),
{
    let ghost before = out@;
    out.push(b);
    proof {
        lemma_ascii_valid(seq![b]);
        assert(out@ =~= before + seq![b]);
        lemma_valid_utf8_concat(before, seq![b]);
    }
}

/// Appends the bytes of a string, keeping `out` valid UTF-8.
pub fn push_str_valid(out: &mut Vec<u8>, s: &str)
    requires
        valid_utf8(old(out)@),
    ensures
        final(out)@ == old(out)@ + s.spec_bytes(),
        valid_utf8(final(out)@),
{
    let bytes = s.as_bytes();
    let ghost before = out@;
    extend_from_range(out, bytes, 0, bytes.len());
    proof {
        assert(bytes@.subrange(0, bytes@.len() as int) =~= bytes@);
        encode_utf8_valid_utf8(s@);
        lemma_valid_utf8_concat(before, bytes@);
    }
}

/// Appends the decimal digits of `n`, keeping `out` valid UTF-8.
pub fn push_decimal_valid(out: &mut Vec<u8>, n: u64)
    requires
        valid_utf8(old(out)@),
    ensures
        final(out)@ == old(out)@ + decimal(n as nat),
        valid_utf8(final(out)@),
{
    let ghost before = out@;
    push_decimal(out, n);
    proof {
        lemma_decimal_ascii(n as nat);
        lemma_ascii_valid(decimal(n as nat));
        lemma_valid_utf8_concat(before, decimal(n as nat));
    }
}

/// Two optional strings are both absent, or both present with equal text.
pub open spec fn same_opt_string(a: Option<String>, b: Option<String>) -> bool {
    match (a, b) {
        (Some(x), Some(y)) => x@ == y@,
        (None, None) => true,
        _ => false,
    }
}

/// Copies an optional string.
pub fn clone_opt_string(s: &Option<String>) -> (r: Option<String>)
    ensures
        same_opt_string(r, *s),
{
    match s {
        Some(x) => Some(x.clone()),
        None => None,
    }
}

/// Counts the lines of a byte string as [`line_count`] defines them; `None`
/// when the count exceeds `u32::MAX`.
pub fn count_lines_checked(s: &[u8]) -> (r: Option<u32>)
    ensures
        r is Some <==> line_count(s@) <= u32::MAX,
        r matches Some(n) ==> n == line_count(s@),
{
    let mut n: u64 = 0;
    let mut i: usize = 0;
    while i < s.len()
        invariant
            i <= s@.len(),
            n == newline_count(s@.take(i as int)),
            n <= i,
        decreases s@.len() - i,
    {
        assert(s@.take(i + 1).drop_last() =~= s@.take(i as int));
        if s[i] == 0x0a {
            n = n + 1;
        }
        i = i + 1;
    }
    assert(s@.take(s@.len() as int) =~= s@);
    if n > 0xffff_ffff {
        return None;
    }
    if s.len() > 0 && s[s.len() - 1] != 0x0a {
        n = n + 1;
    }
    if n > 0xffff_ffff {
        None
    } else {
        Some(n as u32)
    }
}

/// Index of the first newline in `s`, or its length when there is none.
pub open spec fn first_newline(s: Seq<u8>) -> int
    decreases s.len(),
{
    if s.len() == 0 {
        0
    } else if s[0] == 0x0a {
        0
    } else {
        1 + first_newline(s.drop_first())
    }
}

proof fn lemma_first_newline(s: Seq<u8>)
    ensures
        0 <= first_newline(s) <= s.len(),
        first_newline(s) < s.len() ==> s[first_newline(s)] == 0x0a,
        forall|j: int| 0 <= j < first_newline(s) ==> s[j] != 0x0a,
    decreases s.len(),
{
    if s.len() > 0 && s[0] != 0x0a {
        lemma_first_newline(s.drop_first());
        assert forall|j: int| 0 <= j < first_newline(s) implies s[j] != 0x0a by {
            if j > 0 {
                assert(s[j] == s.drop_first()[j - 1]);
            }
        }
    }
}

/// End of the first line of `s` as `str::lines` yields it: the line stops at
/// the first newline, and a carriage return just before that newline is
/// dropped; without a newline the whole text is the line.
pub open spec fn first_line_end(s: Seq<u8>) -> int {
    let k = first_newline(s);
    if k < s.len() && k > 0 && s[k - 1] == 0x0d {
        k - 1
    } else {
        k
    }
}

/// Computes [`first_line_end`].
pub fn find_first_line_end(s: &[u8]) -> (r: usize)
    ensures
        r == first_line_end(s@),
        r <= s@.len(),
        r == s@.len() || s@[r as int] < 0x80,
{
    let mut i: usize = 0;
    proof {
        lemma_first_newline(s@);
    }
    while i < s.len() && s[i] != 0x0a
        invariant
            i <= s@.len(),
            i <= first_newline(s@),
            0 <= first_newline(s@) <= s@.len(),
            first_newline(s@) < s@.len() ==> s@[first_newline(s@)] == 0x0a,
            forall|j: int| 0 <= j < first_newline(s@) ==> s@[j] != 0x0a,
        decreases s@.len() - i,
    {
        i = i + 1;
    }
    if i < s.len() && i > 0 && s[i - 1] == 0x0d {
        i - 1
    } else {
        i
    }
}

/// The decimal digits of `n`, most significant first.
pub open spec fn decimal(n: nat) -> Seq<u8>
    decreases n,
{
    if n < 10 {
        seq![(0x30 + n) as u8]
    } else {
        decimal(n / 10).push((0x30 + n % 10) as u8)
    }
}

/// Appends the decimal rendering of `n` to `out`.
pub fn push_decimal(out: &mut Vec<u8>, n: u64)
    ensures
        final(out)@ == old(out)@ + decimal(n as nat),
    decreases n,
{
    if n < 10 {
        out.push(0x30 + n as u8);
        assert(decimal(n as nat) =~= seq![(0x30 + n) as u8]);
    } else {
        push_decimal(out, n / 10);
        out.push(0x30 + (n % 10) as u8);
    }
}

/// Decimal digits are ASCII.
pub proof fn lemma_decimal_ascii(n: nat)
    ensures
        forall|i: int| 0 <= i < decimal(n).len() ==> #[trigger] decimal(n)[i] < 0x80,
    decreases n,
{
    if n >= 10 {
        lemma_decimal_ascii(n / 10);
        assert(n % 10 < 10);
        assert(decimal(n) == decimal(n / 10).push((0x30 + n % 10) as u8));
    } else {
        assert(decimal(n) == seq![(0x30 + n) as u8]);
    }
}

proof fn lemma_leading_high(x: u32)
    ensures
        (0xC0u8 | ((x >> 6) & 0x1F) as u8) >= 0x80,
        (0xE0u8 | ((x >> 12) & 0x0F) as u8) >= 0x80,
        (0xF0u8 | ((x >> 18) & 0x7) as u8) >= 0x80,
{
    assert((0xC0u8 | ((x >> 6) & 0x1F) as u8) >= 0x80) by (bit_vector);
    assert((0xE0u8 | ((x >> 12) & 0x0F) as u8) >= 0x80) by (bit_vector);
    assert((0xF0u8 | ((x >> 18) & 0x7) as u8) >= 0x80) by (bit_vector);
}

/// An encoded scalar that starts with an ASCII byte is that single byte.
proof fn lemma_encode_scalar_ascii_start(c: u32)
    requires
        encode_scalar(c)[0] < 0x80,
    ensures
        encode_scalar(c).len() == 1,
{
    lemma_leading_high(c);
}

proof fn lemma_encoded_suffix(c: Seq<char>, k: int)
    requires
        0 <= k <= encode_utf8(c).len(),
        k == 0 || encode_utf8(c)[k - 1] < 0x80,
    ensures
        valid_utf8(encode_utf8(c).skip(k)),
    decreases c.len(),
{
    let s = encode_utf8(c);
    if k == 0 {
        assert(s.skip(0) =~= s);
        encode_utf8_valid_utf8(c);
    } else if c.len() == 0 {
    } else {
        let e0 = encode_scalar(c[0] as u32);
        let rest = encode_utf8(c.drop_first());
        assert(s == e0 + rest);
        lemma_encode_scalar_tail_high(c[0] as u32);
        if k < e0.len() {
            assert(s[k - 1] == e0[k - 1]);
            if k - 1 == 0 {
                lemma_encode_scalar_ascii_start(c[0] as u32);
            }
            assert(false);
        }
        let k2 = k - e0.len();
        if k2 > 0 {
            assert(rest[k2 - 1] == s[k - 1]);
        }
        lemma_encoded_suffix(c.drop_first(), k2);
        assert(s.skip(k) =~= rest.skip(k2));
    }
}

/// Cutting a valid UTF-8 byte string just after an ASCII byte (or at its
/// start) leaves a valid UTF-8 suffix.
pub proof fn lemma_valid_utf8_suffix(s: Seq<u8>, k: int)
    requires
        valid_utf8(s),
        0 <= k <= s.len(),
        k == 0 || s[k - 1] < 0x80,
    ensures
        valid_utf8(s.skip(k)),
{
    decode_utf8_encode_utf8(s);
    lemma_encoded_suffix(decode_utf8(s), k);
}

/// A slice of a valid UTF-8 byte string between two ASCII boundaries is
/// valid UTF-8.
pub proof fn lemma_valid_utf8_slice(s: Seq<u8>, a: int, b: int)
    requires
        valid_utf8(s),
        0 <= a <= b <= s.len(),
        a == 0 || s[a - 1] < 0x80,
        b == s.len() || s[b] < 0x80,
    ensures
        valid_utf8(s.subrange(a, b)),
{
    lemma_valid_utf8_suffix(s, a);
    let t = s.skip(a);
    if b < s.len() {
        assert(t[b - a] == s[b]);
    }
    lemma_valid_utf8_prefix(t, b - a);
    assert(t.take(b - a) =~= s.subrange(a, b));
}

/// The pieces of `s` between occurrences of `sep`, as `str::split` yields
/// them (an empty input gives one empty piece).
pub open spec fn split_bytes(s: Seq<u8>, sep: u8) -> Seq<Seq<u8>>
    decreases s.len(),
{
    if s.len() == 0 {
        seq![seq![]]
    } else {
        let r = split_bytes(s.drop_last(), sep);
        if s.last() == sep {
            r.push(seq![])
        } else {
            r.update(r.len() - 1, r.last().push(s.last()))
        }
    }
}

/// Index where the last piece of [`split_bytes`] begins: just after the
/// last separator, or 0.
pub open spec fn last_piece_start(s: Seq<u8>, sep: u8) -> int
    decreases s.len(),
{
    if s.len() == 0 {
        0
    } else if s.last() == sep {
        s.len() as int
    } else {
        last_piece_start(s.drop_last(), sep)
    }
}

proof fn lemma_split_nonempty(s: Seq<u8>, sep: u8)
    ensures
        split_bytes(s, sep).len() > 0,
        split_bytes(s, sep).last() == s.skip(last_piece_start(s, sep)),
        0 <= last_piece_start(s, sep) <= s.len(),
        last_piece_start(s, sep) == 0 || s[last_piece_start(s, sep) - 1] == sep,
        forall|j: int| last_piece_start(s, sep) <= j < s.len() ==> s[j] != sep,
    decreases s.len(),
{
    if s.len() > 0 {
        let t = s.drop_last();
        lemma_split_nonempty(t, sep);
        if s.last() == sep {
            assert(s.skip(s.len() as int) =~= Seq::<u8>::empty());
        } else {
            assert(s.skip(last_piece_start(s, sep)) =~= t.skip(last_piece_start(t, sep)).push(s.last()));
            assert forall|j: int| last_piece_start(s, sep) <= j < s.len() implies s[j] != sep by {
                if j < s.len() - 1 {
                    assert(s[j] == t[j]);
                }
            }
            if last_piece_start(s, sep) > 0 {
                assert(s[last_piece_start(s, sep) - 1] == t[last_piece_start(t, sep) - 1]);
            }
        }
    }
}

/// Splits a string at every `sep` byte (an ASCII separator), as `str::split`.
pub fn split_on(s: &str, sep: u8) -> (r: Vec<String>)
    requires
        sep < 0x80,
    ensures
        r@.len() == split_bytes(s.spec_bytes(), sep).len(),
        forall|i: int| 0 <= i < r@.len() ==> encode_utf8(#[trigger] r@[i]@) == split_bytes(s.spec_bytes(), sep)[i],
{
    let bytes = s.as_bytes();
    let ghost b = bytes@;
    proof {
        encode_utf8_valid_utf8(s@);
    }
    let mut out: Vec<String> = Vec::new();
    let mut start: usize = 0;
    let mut i: usize = 0;
    assert(b.take(0) =~= Seq::<u8>::empty());
    while i < bytes.len()
        invariant
            b == bytes@,
            b == s.spec_bytes(),
            valid_utf8(b),
            sep < 0x80,
            start <= i <= b.len(),
            start == last_piece_start(b.take(i as int), sep),
            start == 0 || b[start - 1] == sep,
            out@.len() + 1 == split_bytes(b.take(i as int), sep).len(),
            forall|x: int| 0 <= x < out@.len() ==> encode_utf8(#[trigger] out@[x]@) == split_bytes(
                b.take(i as int),
                sep,
            )[x],
            split_bytes(b.take(i as int), sep).last() == b.subrange(start as int, i as int),
        decreases b.len() - i,
    {
        let ghost prev = split_bytes(b.take(i as int), sep);
        assert(b.take(i + 1).drop_last() =~= b.take(i as int));
        assert(b.take(i + 1).last() == b[i as int]);
        if bytes[i] == sep {
            proof {
                lemma_valid_utf8_slice(b, start as int, i as int);
            }
            let piece = bytes_to_vec(vstd::slice::slice_subrange(bytes, start, i));
            let text = string_from_valid_utf8(piece);
            out.push(text);
            start = i + 1;
            i = i + 1;
            assert(b.subrange(start as int, i as int) =~= Seq::<u8>::empty());
        } else {
            i = i + 1;
            assert(b.subrange(start as int, i as int) =~= b.subrange(start as int, i - 1).push(b[i - 1]));
            assert forall|x: int| 0 <= x < out@.len() implies encode_utf8(#[trigger] out@[x]@)
                == split_bytes(b.take(i as int), sep)[x] by {
                assert(split_bytes(b.take(i as int), sep)[x] == prev[x]);
            }
        }
    }
    assert(b.take(b.len() as int) =~= b);
    proof {
        lemma_valid_utf8_slice(b, start as int, b.len() as int);
    }
    let piece = bytes_to_vec(vstd::slice::slice_subrange(bytes, start, bytes.len()));
    let text = string_from_valid_utf8(piece);
    let ghost before = out@;
    out.push(text);
    assert forall|i: int| 0 <= i < out@.len() implies encode_utf8(#[trigger] out@[i]@) == split_bytes(
        b,
        sep,
    )[i] by {
        if i < before.len() {
            assert(out@[i] == before[i]);
        }
    }
    out
}

/// The last piece of `s` after splitting at `sep`, as
/// `str::rsplit(..).next()` yields it.
pub fn last_piece(s: &str, sep: u8) -> (r: String)
    requires
        sep < 0x80,
    ensures
        encode_utf8(r@) == split_bytes(s.spec_bytes(), sep).last(),
{
    let bytes = s.as_bytes();
    let ghost b = bytes@;
    proof {
        encode_utf8_valid_utf8(s@);
        lemma_split_nonempty(b, sep);
    }
    let mut i: usize = bytes.len();
    while i > 0 && bytes[i - 1] != sep
        invariant
            b == bytes@,
            i <= b.len(),
            last_piece_start(b, sep) <= i,
            0 <= last_piece_start(b, sep) <= b.len(),
            last_piece_start(b, sep) == 0 || b[last_piece_start(b, sep) - 1] == sep,
            forall|j: int| last_piece_start(b, sep) <= j < b.len() ==> b[j] != sep,
        decreases i,
    {
        i = i - 1;
    }
    assert(i == last_piece_start(b, sep));
    proof {
        lemma_valid_utf8_suffix(b, i as int);
        assert(b.subrange(i as int, b.len() as int) =~= b.skip(i as int));
    }
    let piece = bytes_to_vec(vstd::slice::slice_subrange(bytes, i, bytes.len()));
    string_from_valid_utf8(piece)
}

} // verus!
