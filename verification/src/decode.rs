//! Byte-level UTF-8 scanning used by the output reassembler.
//!
//! The reader side of a session receives raw bytes in chunks that can split a
//! multi-byte encoding at any point. The functions here classify how far a
//! byte sequence is valid UTF-8 (`utf8_valid_prefix`), and decode a byte
//! sequence with replacement characters substituted for malformed parts
//! (`lossy_decode`). Their specifications are stated against the UTF-8
//! definitions of `vstd::utf8`.

use vstd::prelude::*;
use vstd::utf8::{
    decode_first_codepoint, is_continuation_byte, length_of_first_codepoint,
    length_of_first_scalar, not_overlong_encoding, pop_first_scalar, valid_first_scalar,
    valid_leading_and_continuation_bytes_first_codepoint, valid_utf8, valid_utf8_concat,
};

verus! {

// ---------------------------------------------------------------------------
// Shape of the first encoded scalar, stated over plain byte ranges
// ---------------------------------------------------------------------------

/// True when `b` can begin a two-byte encoding that is not overlong.
pub open spec fn lead2_ok(b: u8) -> bool {
    0xc2 <= b <= 0xdf
}

/// True when `b0, b1` can begin a three-byte encoding that is neither
/// overlong nor in the surrogate range.
pub open spec fn lead3_pair_ok(b0: u8, b1: u8) -> bool {
    ||| (b0 == 0xe0 && 0xa0 <= b1 <= 0xbf)
    ||| (0xe1 <= b0 <= 0xec && is_continuation_byte(b1))
    ||| (b0 == 0xed && 0x80 <= b1 <= 0x9f)
    ||| (0xee <= b0 <= 0xef && is_continuation_byte(b1))
}

/// True when `b0, b1` can begin a four-byte encoding of a scalar inside the
/// Unicode range.
pub open spec fn lead4_pair_ok(b0: u8, b1: u8) -> bool {
    ||| (b0 == 0xf0 && 0x90 <= b1 <= 0xbf)
    ||| (0xf1 <= b0 <= 0xf3 && is_continuation_byte(b1))
    ||| (b0 == 0xf4 && 0x80 <= b1 <= 0x8f)
}

/// The byte length of the well-formed scalar encoding at the start of `s`,
/// or 0 when `s` does not start with one. Stated purely over byte ranges;
/// `lemma_first_scalar_shape` connects it to `vstd::utf8::valid_first_scalar`.
pub open spec fn first_shape_len(s: Seq<u8>) -> int {
    if s.len() >= 1 && s[0] <= 0x7f {
        1
    } else if s.len() >= 2 && lead2_ok(s[0]) && is_continuation_byte(s[1]) {
        2
    } else if s.len() >= 3 && lead3_pair_ok(s[0], s[1]) && is_continuation_byte(s[2]) {
        3
    } else if s.len() >= 4 && lead4_pair_ok(s[0], s[1]) && is_continuation_byte(s[2])
        && is_continuation_byte(s[3]) {
        4
    } else {
        0
    }
}

// ---------------------------------------------------------------------------
// Bit-level bridges between byte ranges and decoded codepoint ranges
// ---------------------------------------------------------------------------

proof fn bv_cp1(b0: u8)
    by (bit_vector)
    requires
        b0 <= 0x7f,
    ensures
        ((b0 & 0x7f) as u32) <= 0x7f,
{
}

proof fn bv_cp2(b0: u8, b1: u8)
    by (bit_vector)
    requires
        0xc0 <= b0,
        b0 <= 0xdf,
        0x80 <= b1,
        b1 <= 0xbf,
    ensures
        (((((b0 & 0x1f) as u32) << 6) | ((b1 & 0x3f) as u32)) >= 0x80) == (b0 >= 0xc2),
        ((((b0 & 0x1f) as u32) << 6) | ((b1 & 0x3f) as u32)) <= 0x7ff,
{
}

proof fn bv_cp3(b0: u8, b1: u8, b2: u8)
    by (bit_vector)
    requires
        0xe0 <= b0,
        b0 <= 0xef,
        0x80 <= b1,
        b1 <= 0xbf,
        0x80 <= b2,
        b2 <= 0xbf,
    ensures
        (((((b0 & 0x0f) as u32) << 12) | (((b1 & 0x3f) as u32) << 6) | ((b2 & 0x3f) as u32))
            <= 0xffff),
        ((((((b0 & 0x0f) as u32) << 12) | (((b1 & 0x3f) as u32) << 6) | ((b2 & 0x3f) as u32))
            >= 0x800)) == !(b0 == 0xe0 && b1 <= 0x9f),
        ((0xd800 <= ((((b0 & 0x0f) as u32) << 12) | (((b1 & 0x3f) as u32) << 6) | ((b2
            & 0x3f) as u32))) && (((((b0 & 0x0f) as u32) << 12) | (((b1 & 0x3f) as u32) << 6) | ((b2
            & 0x3f) as u32)) <= 0xdfff)) == (b0 == 0xed && b1 >= 0xa0),
{
}

proof fn bv_cp4(b0: u8, b1: u8, b2: u8, b3: u8)
    by (bit_vector)
    requires
        0xf0 <= b0,
        b0 <= 0xf7,
        0x80 <= b1,
        b1 <= 0xbf,
        0x80 <= b2,
        b2 <= 0xbf,
        0x80 <= b3,
        b3 <= 0xbf,
    ensures
        ((0x10000 <= ((((b0 & 0x07) as u32) << 18) | (((b1 & 0x3f) as u32) << 12) | (((b2
            & 0x3f) as u32) << 6) | ((b3 & 0x3f) as u32))) && (((((b0 & 0x07) as u32) << 18)
            | (((b1 & 0x3f) as u32) << 12) | (((b2 & 0x3f) as u32) << 6) | ((b3
            & 0x3f) as u32)) <= 0x10ffff)) == ((b0 == 0xf0 && b1 >= 0x90) || (0xf1 <= b0 && b0
            <= 0xf3) || (b0 == 0xf4 && b1 <= 0x8f)),
{
}

/// The byte-range classification `first_shape_len` agrees exactly with the
/// scalar validity predicate of `vstd::utf8`.
pub proof fn lemma_first_scalar_shape(s: Seq<u8>)
    ensures
        first_shape_len(s) != 0 ==> valid_first_scalar(s) && length_of_first_scalar(s)
            == first_shape_len(s),
        first_shape_len(s) == 0 ==> !valid_first_scalar(s),
{
    if s.len() > 0 {
        let b0 = s[0];
        if b0 <= 0x7f {
            bv_cp1(b0);
            assert(valid_first_scalar(s));
        } else if b0 <= 0xbf {
            assert(!valid_leading_and_continuation_bytes_first_codepoint(s));
        } else if b0 <= 0xdf {
            if s.len() >= 2 && is_continuation_byte(s[1]) {
                bv_cp2(b0, s[1]);
                if b0 >= 0xc2 {
                    assert(valid_first_scalar(s));
                    assert(length_of_first_scalar(s) == 2);
                } else {
                    assert(!not_overlong_encoding(decode_first_codepoint(s),
                        length_of_first_codepoint(s)));
                }
            } else {
                assert(!valid_leading_and_continuation_bytes_first_codepoint(s));
            }
        } else if b0 <= 0xef {
            if s.len() >= 3 && is_continuation_byte(s[1]) && is_continuation_byte(s[2]) {
                bv_cp3(b0, s[1], s[2]);
                if lead3_pair_ok(b0, s[1]) {
                    assert(valid_first_scalar(s));
                    assert(length_of_first_scalar(s) == 3);
                } else {
                    assert(!valid_first_scalar(s));
                }
            } else {
                assert(!valid_leading_and_continuation_bytes_first_codepoint(s));
            }
        } else if b0 <= 0xf7 {
            if s.len() >= 4 && is_continuation_byte(s[1]) && is_continuation_byte(s[2])
                && is_continuation_byte(s[3]) {
                bv_cp4(b0, s[1], s[2], s[3]);
                if lead4_pair_ok(b0, s[1]) {
                    assert(valid_first_scalar(s));
                    assert(length_of_first_scalar(s) == 4);
                } else {
                    assert(!valid_first_scalar(s));
                }
            } else {
                assert(!valid_leading_and_continuation_bytes_first_codepoint(s));
            }
        } else {
            assert(!valid_leading_and_continuation_bytes_first_codepoint(s));
        }
    }
}

/// A well-formed scalar encoding never begins with a continuation byte.
pub proof fn lemma_scalar_start_not_continuation(s: Seq<u8>)
    requires
        valid_first_scalar(s),
    ensures
        !is_continuation_byte(s[0]),
{
    lemma_first_scalar_shape(s);
}

/// `first_shape_len` stays within the sequence and below the longest
/// encoding length.
pub proof fn lemma_shape_bounds(s: Seq<u8>)
    ensures
        0 <= first_shape_len(s) <= 4,
        first_shape_len(s) <= s.len(),
{
}

/// `first_shape_len` only reads the bytes of the encoding it reports, so any
/// extension of the sequence that keeps those bytes reports the same shape.
pub proof fn lemma_shape_extend(s: Seq<u8>, t: Seq<u8>)
    requires
        first_shape_len(s) > 0,
        t.len() >= first_shape_len(s),
        t.len() >= 1,
        forall|j: int| 0 <= j < first_shape_len(s) ==> s[j] == t[j],
    ensures
        first_shape_len(t) == first_shape_len(s),
{
}

// ---------------------------------------------------------------------------
// The longest valid prefix
// ---------------------------------------------------------------------------

/// The length of the longest prefix of `s` that is a concatenation of
/// complete well-formed scalar encodings. This is the point up to which a
/// chunk can be surfaced as text without waiting for more bytes.
pub open spec fn valid_prefix_len(s: Seq<u8>) -> int
    decreases s.len(),
{
    if first_shape_len(s) == 0 {
        0
    } else {
        first_shape_len(s) + valid_prefix_len(s.skip(first_shape_len(s)))
    }
}

pub proof fn lemma_vpl_bounds(s: Seq<u8>)
    ensures
        0 <= valid_prefix_len(s) <= s.len(),
    decreases s.len(),
{
    if first_shape_len(s) != 0 {
        lemma_shape_bounds(s);
        lemma_vpl_bounds(s.skip(first_shape_len(s)));
    }
}

/// The longest valid prefix is indeed valid UTF-8.
pub proof fn lemma_vpl_prefix_valid(s: Seq<u8>)
    ensures
        valid_utf8(s.take(valid_prefix_len(s))),
    decreases s.len(),
{
    let n = first_shape_len(s);
    if n == 0 {
        assert(s.take(0) =~= Seq::<u8>::empty());
    } else {
        lemma_shape_bounds(s);
        lemma_vpl_bounds(s.skip(n));
        let k = valid_prefix_len(s);
        let t = s.take(k);
        lemma_vpl_prefix_valid(s.skip(n));
        lemma_first_scalar_shape(s);
        if k > 0 {
            lemma_shape_extend(s, t);
            lemma_first_scalar_shape(t);
            assert(pop_first_scalar(t) =~= s.skip(n).take(valid_prefix_len(s.skip(n))));
            assert(valid_utf8(t));
        } else {
            assert(s.take(0) =~= Seq::<u8>::empty());
        }
    }
}

/// A sequence is wholly valid exactly when its longest valid prefix is the
/// whole sequence.
pub proof fn lemma_valid_iff_vpl_full(s: Seq<u8>)
    ensures
        valid_utf8(s) <==> valid_prefix_len(s) == s.len(),
    decreases s.len(),
{
    lemma_first_scalar_shape(s);
    let n = first_shape_len(s);
    if s.len() == 0 {
    } else if n != 0 {
        lemma_shape_bounds(s);
        assert(pop_first_scalar(s) =~= s.skip(n));
        lemma_valid_iff_vpl_full(s.skip(n));
        lemma_vpl_bounds(s.skip(n));
    } else {
        lemma_vpl_bounds(s);
    }
}

/// Splitting off a fully valid prefix shifts the longest-valid-prefix point
/// by exactly that prefix.
pub proof fn lemma_vpl_concat_valid(a: Seq<u8>, b: Seq<u8>)
    requires
        valid_utf8(a),
    ensures
        valid_prefix_len(a + b) == a.len() + valid_prefix_len(b),
    decreases a.len(),
{
    if a.len() == 0 {
        assert(a + b =~= b);
    } else {
        lemma_first_scalar_shape(a);
        let n = first_shape_len(a);
        if n == 0 {
            lemma_valid_iff_vpl_full(a);
            assert(false);
        } else {
            lemma_shape_bounds(a);
            lemma_shape_extend(a, a + b);
            assert(pop_first_scalar(a) =~= a.skip(n));
            assert((a + b).skip(n) =~= a.skip(n) + b);
            lemma_vpl_concat_valid(a.skip(n), b);
        }
    }
}

// ---------------------------------------------------------------------------
// Incomplete (boundary-split) trailing encodings
// ---------------------------------------------------------------------------

/// True when `s` is a proper prefix of some well-formed scalar encoding:
/// the shape of carry-over that a chunk boundary can produce from valid text.
pub open spec fn incomplete_suffix(s: Seq<u8>) -> bool {
    ||| s.len() == 0
    ||| (s.len() == 1 && (lead2_ok(s[0]) || 0xe0 <= s[0] <= 0xef || 0xf0 <= s[0] <= 0xf4))
    ||| (s.len() == 2 && (lead3_pair_ok(s[0], s[1]) || lead4_pair_ok(s[0], s[1])))
    ||| (s.len() == 3 && lead4_pair_ok(s[0], s[1]) && is_continuation_byte(s[2]))
}

/// An incomplete trailing encoding contains no complete scalar, so nothing of
/// it can be surfaced yet.
pub proof fn lemma_incomplete_vpl_zero(s: Seq<u8>)
    requires
        incomplete_suffix(s),
    ensures
        valid_prefix_len(s) == 0,
{
}

/// Cutting a well-formed scalar encoding short leaves an incomplete suffix.
pub proof fn lemma_scalar_cut_incomplete(s: Seq<u8>, i: int)
    requires
        valid_first_scalar(s),
        first_shape_len(s) == length_of_first_scalar(s),
        0 < i < length_of_first_scalar(s),
    ensures
        incomplete_suffix(s.take(i)),
{
}

/// Any prefix of valid UTF-8 splits into a fully valid part followed by an
/// incomplete trailing encoding of at most 3 bytes.
pub proof fn lemma_prefix_of_valid_clean(s: Seq<u8>, i: int)
    requires
        valid_utf8(s),
        0 <= i <= s.len(),
    ensures
        incomplete_suffix(s.take(i).skip(valid_prefix_len(s.take(i)))),
        s.take(i).len() - valid_prefix_len(s.take(i)) <= 3,
    decreases s.len(),
{
    let t = s.take(i);
    if i == 0 {
        assert(t =~= Seq::<u8>::empty());
        assert(t.skip(0) =~= Seq::<u8>::empty());
    } else {
        lemma_first_scalar_shape(s);
        let n = first_shape_len(s);
        assert(n > 0);
        lemma_shape_bounds(s);
        if i < n {
            lemma_scalar_cut_incomplete(s, i);
            assert(s.take(i) =~= t);
            lemma_incomplete_vpl_zero(t);
            assert(t.skip(0) =~= t);
        } else {
            lemma_shape_extend(s, t);
            assert(first_shape_len(t) == n);
            assert(pop_first_scalar(s) =~= s.skip(n));
            lemma_prefix_of_valid_clean(s.skip(n), i - n);
            let r = s.skip(n).take(i - n);
            assert(t.skip(n) =~= r);
            let k = valid_prefix_len(r);
            assert(valid_prefix_len(t) == n + k);
            lemma_vpl_bounds(r);
            assert(t.skip(n + k) =~= r.skip(k));
        }
    }
}

// ---------------------------------------------------------------------------
// Replacement-character decoding of malformed input
// ---------------------------------------------------------------------------

/// The UTF-8 encoding of the replacement character that stands in for
/// malformed input.
pub open spec fn replacement_bytes() -> Seq<u8> {
    seq![0xefu8, 0xbfu8, 0xbdu8]
}

/// How many bytes one replacement character stands for at the start of a
/// malformed sequence: the longest start of a scalar encoding that the bytes
/// still fit (at least one byte).
pub open spec fn error_len(s: Seq<u8>) -> int
    recommends
        s.len() > 0,
        first_shape_len(s) == 0,
{
    if s.len() >= 3 && lead4_pair_ok(s[0], s[1]) && is_continuation_byte(s[2]) {
        3
    } else if s.len() >= 2 && (lead3_pair_ok(s[0], s[1]) || lead4_pair_ok(s[0], s[1])) {
        2
    } else {
        1
    }
}

/// The bytes of `s` decoded as UTF-8 with best effort: complete scalar
/// encodings pass through unchanged, and each maximal start of a broken
/// encoding becomes one replacement character.
pub open spec fn lossy_utf8(s: Seq<u8>) -> Seq<u8>
    decreases s.len(),
{
    if s.len() == 0 {
        Seq::<u8>::empty()
    } else if first_shape_len(s) != 0 {
        s.take(first_shape_len(s)) + lossy_utf8(s.skip(first_shape_len(s)))
    } else {
        replacement_bytes() + lossy_utf8(s.skip(error_len(s)))
    }
}

pub proof fn lemma_error_len_bounds(s: Seq<u8>)
    requires
        s.len() > 0,
    ensures
        1 <= error_len(s) <= 3,
        error_len(s) <= s.len(),
{
}

/// The replacement character is itself a well-formed scalar encoding.
proof fn lemma_replacement_valid()
    ensures
        valid_utf8(replacement_bytes()),
{
    let r = replacement_bytes();
    assert(first_shape_len(r) == 3);
    lemma_first_scalar_shape(r);
    assert(valid_first_scalar(r));
    assert(pop_first_scalar(r) =~= Seq::<u8>::empty());
    assert(valid_utf8(Seq::<u8>::empty()));
    assert(valid_utf8(pop_first_scalar(r)));
}

/// A complete scalar encoding taken on its own is valid UTF-8.
proof fn lemma_first_shape_take_valid(s: Seq<u8>)
    requires
        first_shape_len(s) != 0,
    ensures
        valid_utf8(s.take(first_shape_len(s))),
{
    let n = first_shape_len(s);
    lemma_shape_bounds(s);
    let t = s.take(n);
    lemma_shape_extend(s, t);
    lemma_first_scalar_shape(t);
    assert(valid_first_scalar(t));
    assert(pop_first_scalar(t) =~= Seq::<u8>::empty());
    assert(valid_utf8(Seq::<u8>::empty()));
    assert(valid_utf8(pop_first_scalar(t)));
}

/// Best-effort decoding always yields valid UTF-8.
pub proof fn lemma_lossy_valid(s: Seq<u8>)
    ensures
        valid_utf8(lossy_utf8(s)),
    decreases s.len(),
{
    broadcast use valid_utf8_concat;

    if s.len() == 0 {
    } else if first_shape_len(s) != 0 {
        lemma_shape_bounds(s);
        lemma_first_shape_take_valid(s);
        lemma_lossy_valid(s.skip(first_shape_len(s)));
    } else {
        lemma_error_len_bounds(s);
        lemma_replacement_valid();
        lemma_lossy_valid(s.skip(error_len(s)));
    }
}

/// Wholly valid input passes through best-effort decoding unchanged.
pub proof fn lemma_lossy_of_valid(s: Seq<u8>)
    requires
        valid_utf8(s),
    ensures
        lossy_utf8(s) == s,
    decreases s.len(),
{
    if s.len() > 0 {
        lemma_first_scalar_shape(s);
        lemma_valid_iff_vpl_full(s);
        let n = first_shape_len(s);
        assert(n > 0) by {
            if n == 0 {
                assert(valid_prefix_len(s) == 0);
            }
        }
        lemma_shape_bounds(s);
        assert(pop_first_scalar(s) =~= s.skip(n));
        lemma_lossy_of_valid(s.skip(n));
        assert(lossy_utf8(s) =~= s);
    }
}

// ---------------------------------------------------------------------------
// Executable scanning
// ---------------------------------------------------------------------------

fn is_cont(b: u8) -> (r: bool)
    ensures
        r == is_continuation_byte(b),
{
    0x80 <= b && b <= 0xbf
}

fn is_lead3_pair(b0: u8, b1: u8) -> (r: bool)
    ensures
        r == lead3_pair_ok(b0, b1),
{
    (b0 == 0xe0 && 0xa0 <= b1 && b1 <= 0xbf) || (0xe1 <= b0 && b0 <= 0xec && is_cont(b1)) || (b0
        == 0xed && 0x80 <= b1 && b1 <= 0x9f) || (0xee <= b0 && b0 <= 0xef && is_cont(b1))
}

fn is_lead4_pair(b0: u8, b1: u8) -> (r: bool)
    ensures
        r == lead4_pair_ok(b0, b1),
{
    (b0 == 0xf0 && 0x90 <= b1 && b1 <= 0xbf) || (0xf1 <= b0 && b0 <= 0xf3 && is_cont(b1)) || (b0
        == 0xf4 && 0x80 <= b1 && b1 <= 0x8f)
}

/// The byte length of the well-formed scalar encoding starting at `i`,
/// or 0 when none starts there.
fn utf8_shape_at(bytes: &[u8], i: usize) -> (n: usize)
    requires
        i < bytes@.len(),
    ensures
        n as int == first_shape_len(bytes@.skip(i as int)),
{
    let len = bytes.len();
    let avail = len - i;
    let b0 = bytes[i];
    if b0 <= 0x7f {
        1
    } else if 0xc2 <= b0 && b0 <= 0xdf {
        if avail >= 2 && is_cont(bytes[i + 1]) {
            2
        } else {
            0
        }
    } else if 0xe0 <= b0 && b0 <= 0xef {
        if avail >= 3 && is_lead3_pair(b0, bytes[i + 1]) && is_cont(bytes[i + 2]) {
            3
        } else {
            0
        }
    } else if 0xf0 <= b0 && b0 <= 0xf4 {
        if avail >= 4 && is_lead4_pair(b0, bytes[i + 1]) && is_cont(bytes[i + 2]) && is_cont(
            bytes[i + 3],
        ) {
            4
        } else {
            0
        }
    } else {
        0
    }
}

/// How many bytes one replacement character stands for at offset `i` of a
/// malformed sequence.
fn utf8_error_len_at(bytes: &[u8], i: usize) -> (n: usize)
    requires
        i < bytes@.len(),
    ensures
        n as int == error_len(bytes@.skip(i as int)),
        1 <= n <= 3,
{
    let len = bytes.len();
    let avail = len - i;
    if avail >= 3 && is_lead4_pair(bytes[i], bytes[i + 1]) && is_cont(bytes[i + 2]) {
        3
    } else if avail >= 2 && (is_lead3_pair(bytes[i], bytes[i + 1]) || is_lead4_pair(
        bytes[i],
        bytes[i + 1],
    )) {
        2
    } else {
        1
    }
}

/// The length of the longest prefix of `bytes` made of complete well-formed
/// scalar encodings.
pub fn utf8_valid_prefix(bytes: &[u8]) -> (n: usize)
    ensures
        n as int == valid_prefix_len(bytes@),
        n <= bytes@.len(),
{
    let len = bytes.len();
    let mut i: usize = 0;
    proof {
        assert(bytes@.skip(0) =~= bytes@);
    }
    loop
        invariant
            0 <= i <= len,
            len == bytes@.len(),
            valid_prefix_len(bytes@) == i + valid_prefix_len(bytes@.skip(i as int)),
        decreases len - i,
    {
        if i == len {
            proof {
                assert(bytes@.skip(i as int) =~= Seq::<u8>::empty());
            }
            return i;
        }
        let n = utf8_shape_at(bytes, i);
        if n == 0 {
            return i;
        }
        proof {
            lemma_shape_bounds(bytes@.skip(i as int));
            assert(bytes@.skip(i as int).skip(n as int) =~= bytes@.skip(i as int + n as int));
            lemma_vpl_bounds(bytes@.skip(i as int + n as int));
        }
        i = i + n;
    }
}

/// Copies `v[from..to]` into a fresh vector.
pub fn copy_range(v: &[u8], from: usize, to: usize) -> (out: Vec<u8>)
    requires
        from <= to <= v@.len(),
    ensures
        out@ == v@.subrange(from as int, to as int),
{
    let mut out: Vec<u8> = Vec::new();
    let mut i: usize = from;
    while i < to
        invariant
            from <= i <= to <= v@.len(),
            out@ == v@.subrange(from as int, i as int),
        decreases to - i,
    {
        out.push(v[i]);
        proof {
            assert(out@ =~= v@.subrange(from as int, i as int + 1));
        }
        i = i + 1;
    }
    out
}

/// Decodes `bytes` with best effort: complete scalar encodings pass through,
/// each maximal start of a broken encoding becomes one replacement character.
pub fn lossy_decode(bytes: &[u8]) -> (out: Vec<u8>)
    ensures
        out@ == lossy_utf8(bytes@),
        valid_utf8(out@),
{
    let len = bytes.len();
    let mut out: Vec<u8> = Vec::new();
    let mut i: usize = 0;
    proof {
        assert(bytes@.skip(0) =~= bytes@);
    }
    while i < len
        invariant
            0 <= i <= len,
            len == bytes@.len(),
            lossy_utf8(bytes@) == out@ + lossy_utf8(bytes@.skip(i as int)),
        decreases len - i,
    {
        let ghost pre = out@;
        let ghost rest = bytes@.skip(i as int);
        let n = utf8_shape_at(bytes, i);
        if n > 0 {
            proof {
                lemma_shape_bounds(rest);
            }
            let mut j: usize = i;
            while j < i + n
                invariant
                    i <= j <= i + n,
                    i + n <= len,
                    len == bytes@.len(),
                    out@ == pre + bytes@.subrange(i as int, j as int),
                decreases i + n - j,
            {
                out.push(bytes[j]);
                proof {
                    assert(out@ =~= pre + bytes@.subrange(i as int, j as int + 1));
                }
                j = j + 1;
            }
            proof {
                assert(rest.take(n as int) =~= bytes@.subrange(i as int, i as int + n as int));
                assert(rest.skip(n as int) =~= bytes@.skip(i as int + n as int));
                assert(out@ + lossy_utf8(bytes@.skip(i as int + n as int)) =~= pre + lossy_utf8(
                    rest,
                ));
            }
            i = i + n;
        } else {
            let e = utf8_error_len_at(bytes, i);
            out.push(0xef);
            out.push(0xbf);
            out.push(0xbd);
            proof {
                assert(rest.skip(e as int) =~= bytes@.skip(i as int + e as int));
                assert(out@ =~= pre + replacement_bytes());
                assert(out@ + lossy_utf8(bytes@.skip(i as int + e as int)) =~= pre + lossy_utf8(
                    rest,
                ));
            }
            i = i + e;
        }
    }
    proof {
        assert(bytes@.skip(len as int) =~= Seq::<u8>::empty());
        assert(out@ =~= lossy_utf8(bytes@));
        lemma_lossy_valid(bytes@);
    }
    out
}

} // verus!
