//! Reassembly of a session's raw output into well-formed UTF-8 text.
//!
//! A session's output arrives in chunks whose boundaries can fall inside a
//! multi-byte encoding. The [`Utf8Assembler`] carries the incomplete trailing
//! bytes of each chunk over to the next one, so that text is never corrupted
//! at a chunk boundary, while a bounded carry-over guarantees that genuinely
//! malformed input is surfaced (with replacement characters) rather than
//! held back forever.

use vstd::prelude::*;
use vstd::utf8::valid_utf8;
use crate::decode::{
    copy_range, incomplete_suffix, lemma_error_len_bounds, lemma_incomplete_vpl_zero,
    lemma_lossy_valid, lemma_prefix_of_valid_clean, lemma_valid_iff_vpl_full, lemma_vpl_bounds,
    lemma_vpl_concat_valid, lemma_vpl_prefix_valid, lossy_decode, lossy_utf8, utf8_valid_prefix,
    valid_prefix_len,
};

verus! {

/// The most carry-over bytes ever held between two reads: anything longer
/// than the longest scalar encoding cannot be a boundary artifact.
pub const RESIDUAL_LIMIT: usize = 4;

// ---------------------------------------------------------------------------
// What one chunk scan produces
// ---------------------------------------------------------------------------

/// The text pieces surfaced when `c` (carry-over plus fresh bytes) is
/// scanned: the longest valid prefix as one piece and, when the remainder is
/// too long to be a boundary artifact, its best-effort decoding as a second
/// piece. Empty pieces are not surfaced.
pub open spec fn scan_pieces(c: Seq<u8>) -> Seq<Seq<u8>> {
    let k = valid_prefix_len(c);
    let head: Seq<Seq<u8>> = if k > 0 {
        seq![c.take(k)]
    } else {
        seq![]
    };
    if c.len() - k <= RESIDUAL_LIMIT as int {
        head
    } else {
        head + seq![lossy_utf8(c.skip(k))]
    }
}

/// The bytes surfaced by one chunk scan, as one sequence.
pub open spec fn scan_bytes(c: Seq<u8>) -> Seq<u8> {
    let k = valid_prefix_len(c);
    if c.len() - k <= RESIDUAL_LIMIT as int {
        c.take(k)
    } else {
        c.take(k) + lossy_utf8(c.skip(k))
    }
}

/// The bytes carried over to the next scan: the unfinished remainder when it
/// is short enough to be a boundary artifact, nothing otherwise.
pub open spec fn scan_rest(c: Seq<u8>) -> Seq<u8> {
    let k = valid_prefix_len(c);
    if c.len() - k <= RESIDUAL_LIMIT as int {
        c.skip(k)
    } else {
        Seq::<u8>::empty()
    }
}

/// The pieces of one scan, concatenated, are the surfaced bytes.
pub proof fn lemma_scan_pieces_bytes(c: Seq<u8>)
    ensures
        scan_pieces(c).len() <= 2,
        scan_bytes(c) == flatten_pieces(scan_pieces(c)),
{
    let p = scan_pieces(c);
    let k = valid_prefix_len(c);
    lemma_vpl_bounds(c);
    let empty_pieces = Seq::<Seq<u8>>::empty();
    assert(flatten_pieces(empty_pieces) =~= Seq::<u8>::empty());
    if c.len() - k <= RESIDUAL_LIMIT as int {
        if k > 0 {
            assert(p.drop_last() =~= empty_pieces);
            assert(p.last() == c.take(k));
            assert(flatten_pieces(p) =~= scan_bytes(c));
        } else {
            assert(p =~= empty_pieces);
            assert(c.take(0) =~= Seq::<u8>::empty());
            assert(flatten_pieces(p) =~= scan_bytes(c));
        }
    } else {
        if k > 0 {
            let head = seq![c.take(k)];
            assert(p.drop_last() =~= head);
            assert(head.drop_last() =~= empty_pieces);
            assert(head.last() == c.take(k));
            assert(flatten_pieces(head) =~= c.take(k));
            assert(p.last() == lossy_utf8(c.skip(k)));
            assert(flatten_pieces(p) =~= scan_bytes(c));
        } else {
            assert(p.drop_last() =~= empty_pieces);
            assert(p.last() == lossy_utf8(c.skip(k)));
            assert(c.take(0) =~= Seq::<u8>::empty());
            assert(flatten_pieces(p) =~= scan_bytes(c));
        }
    }
}

/// Every piece a scan surfaces is itself valid UTF-8 and not empty.
pub proof fn lemma_scan_pieces_valid(c: Seq<u8>)
    ensures
        forall|j: int|
            0 <= j < scan_pieces(c).len() ==> valid_utf8(#[trigger] scan_pieces(c)[j])
                && scan_pieces(c)[j].len() > 0,
{
    let k = valid_prefix_len(c);
    lemma_vpl_bounds(c);
    lemma_vpl_prefix_valid(c);
    lemma_lossy_valid(c.skip(k));
    if c.len() - k > RESIDUAL_LIMIT as int {
        assert(c.skip(k).len() > 0);
        assert(lossy_utf8(c.skip(k)).len() > 0) by {
            lemma_error_len_bounds(c.skip(k));
        }
    }
}

/// The carry-over left by a scan is never longer than `RESIDUAL_LIMIT`.
pub proof fn lemma_scan_rest_bounded(c: Seq<u8>)
    ensures
        scan_rest(c).len() <= RESIDUAL_LIMIT as int,
{
    lemma_vpl_bounds(c);
}

/// Concatenation of a sequence of byte pieces.
pub open spec fn flatten_pieces(pieces: Seq<Seq<u8>>) -> Seq<u8>
    decreases pieces.len(),
{
    if pieces.len() == 0 {
        Seq::<u8>::empty()
    } else {
        flatten_pieces(pieces.drop_last()) + pieces.last()
    }
}

// ---------------------------------------------------------------------------
// The assembler
// ---------------------------------------------------------------------------

/// Carries the incomplete trailing bytes of one read over to the next.
pub struct Utf8Assembler {
    residual: Vec<u8>,
}

impl Utf8Assembler {
    /// The bytes currently carried over.
    pub closed spec fn residual_bytes(&self) -> Seq<u8> {
        self.residual@
    }

    /// The carry-over never exceeds the longest scalar encoding.
    pub closed spec fn wf(&self) -> bool {
        self.residual@.len() <= RESIDUAL_LIMIT as int
    }

    /// A fresh assembler with nothing carried over.
    pub fn new() -> (r: Utf8Assembler)
        ensures
            r.wf(),
            r.residual_bytes() == Seq::<u8>::empty(),
    {
        Utf8Assembler { residual: Vec::new() }
    }

    /// Scans the carry-over followed by `data` and returns the text pieces to
    /// surface, keeping an unfinished trailing encoding (at most
    /// `RESIDUAL_LIMIT` bytes) for the next call.
    pub fn push_bytes(&mut self, data: &[u8]) -> (out: Vec<Vec<u8>>)
        requires
            old(self).wf(),
            data@.len() <= usize::MAX - RESIDUAL_LIMIT,
        ensures
            final(self).wf(),
            out@.len() == scan_pieces(old(self).residual_bytes() + data@).len(),
            forall|j: int|
                0 <= j < out@.len() ==> out@[j]@ == scan_pieces(
                    old(self).residual_bytes() + data@,
                )[j],
            final(self).residual_bytes() == scan_rest(old(self).residual_bytes() + data@),
    {
        let ghost c = old(self).residual_bytes() + data@;
        let mut combined: Vec<u8> = Vec::new();
        combined.append(&mut self.residual);
        combined.extend_from_slice(data);
        proof {
            assert(combined@ =~= c);
        }
        let k = utf8_valid_prefix(combined.as_slice());
        let total = combined.len();
        let mut out: Vec<Vec<u8>> = Vec::new();
        proof {
            lemma_vpl_bounds(c);
        }
        if total - k <= RESIDUAL_LIMIT {
            let tail = copy_range(combined.as_slice(), k, total);
            combined.truncate(k);
            proof {
                assert(combined@ =~= c.take(k as int));
                assert(tail@ =~= c.skip(k as int));
            }
            if combined.len() > 0 {
                out.push(combined);
            }
            self.residual = tail;
        } else {
            let tail = copy_range(combined.as_slice(), k, total);
            let tail_text = lossy_decode(tail.as_slice());
            combined.truncate(k);
            proof {
                assert(combined@ =~= c.take(k as int));
                assert(tail@ =~= c.skip(k as int));
            }
            if combined.len() > 0 {
                out.push(combined);
            }
            out.push(tail_text);
        }
        out
    }

    /// Discards the carry-over. Called when the stream can no longer be
    /// trusted, so that nothing half-read is ever surfaced.
    pub fn clear(&mut self)
        ensures
            final(self).wf(),
            final(self).residual_bytes() == Seq::<u8>::empty(),
    {
        self.residual = Vec::new();
    }

    /// Decodes and returns whatever is carried over, with best effort, and
    /// clears the carry-over. Called when the stream ends.
    pub fn flush(&mut self) -> (out: Vec<Vec<u8>>)
        ensures
            final(self).wf(),
            final(self).residual_bytes() == Seq::<u8>::empty(),
            out@.len() == flush_pieces(old(self).residual_bytes()).len(),
            forall|j: int|
                0 <= j < out@.len() ==> out@[j]@ == flush_pieces(old(self).residual_bytes())[j],
    {
        let mut out: Vec<Vec<u8>> = Vec::new();
        if self.residual.len() > 0 {
            let text = lossy_decode(self.residual.as_slice());
            out.push(text);
        }
        self.residual = Vec::new();
        out
    }
}

/// The text pieces surfaced when the stream ends: the best-effort decoding of
/// a non-empty carry-over, nothing otherwise.
pub open spec fn flush_pieces(res: Seq<u8>) -> Seq<Seq<u8>> {
    if res.len() > 0 {
        seq![lossy_utf8(res)]
    } else {
        seq![]
    }
}

// ---------------------------------------------------------------------------
// The reassembly laws
// ---------------------------------------------------------------------------

/// Concatenation of a sequence of chunks.
pub open spec fn concat_chunks(chunks: Seq<Seq<u8>>) -> Seq<u8>
    decreases chunks.len(),
{
    if chunks.len() == 0 {
        Seq::<u8>::empty()
    } else {
        concat_chunks(chunks.drop_last()) + chunks.last()
    }
}

/// The carry-over after feeding `chunks` through an assembler that started
/// empty.
pub open spec fn feed_rest(chunks: Seq<Seq<u8>>) -> Seq<u8>
    decreases chunks.len(),
{
    if chunks.len() == 0 {
        Seq::<u8>::empty()
    } else {
        scan_rest(feed_rest(chunks.drop_last()) + chunks.last())
    }
}

/// All bytes surfaced while feeding `chunks` through an assembler that
/// started empty, in order.
pub open spec fn feed_bytes(chunks: Seq<Seq<u8>>) -> Seq<u8>
    decreases chunks.len(),
{
    if chunks.len() == 0 {
        Seq::<u8>::empty()
    } else {
        feed_bytes(chunks.drop_last()) + scan_bytes(feed_rest(chunks.drop_last()) + chunks.last())
    }
}

#[verifier::rlimit(50)]
proof fn lemma_feed_general(chunks: Seq<Seq<u8>>, rest_of: Seq<u8>)
    requires
        valid_utf8(concat_chunks(chunks) + rest_of),
    ensures
        feed_bytes(chunks) + feed_rest(chunks) == concat_chunks(chunks),
        valid_utf8(feed_bytes(chunks)),
        incomplete_suffix(feed_rest(chunks)),
        feed_rest(chunks).len() <= 3,
    decreases chunks.len(),
{
    if chunks.len() == 0 {
        assert(feed_bytes(chunks) + feed_rest(chunks) =~= concat_chunks(chunks));
        assert(valid_utf8(Seq::<u8>::empty()));
    } else {
        let init = chunks.drop_last();
        let c = chunks.last();
        assert(concat_chunks(init) + (c + rest_of) =~= concat_chunks(chunks) + rest_of);
        lemma_feed_general(init, c + rest_of);
        let e = feed_bytes(init);
        let r = feed_rest(init);
        let combined = r + c;
        // The full stream seen so far decomposes at the same point the scan finds.
        let whole = e + combined;
        assert(whole + rest_of =~= concat_chunks(chunks) + rest_of);
        let full = concat_chunks(chunks) + rest_of;
        assert(whole =~= full.take(whole.len() as int));
        lemma_prefix_of_valid_clean(full, whole.len() as int);
        lemma_vpl_concat_valid(e, combined);
        let k = valid_prefix_len(combined);
        lemma_vpl_bounds(combined);
        assert(whole.skip(valid_prefix_len(whole)) =~= combined.skip(k));
        assert(incomplete_suffix(combined.skip(k)));
        assert(combined.len() - k <= 3);
        // So the scan keeps the incomplete remainder and surfaces the valid part.
        assert(scan_rest(combined) == combined.skip(k));
        assert(scan_bytes(combined) == combined.take(k));
        lemma_vpl_prefix_valid(combined);
        vstd::utf8::valid_utf8_concat(e, combined.take(k));
        assert(feed_bytes(chunks) =~= e + combined.take(k));
        assert(feed_bytes(chunks) + feed_rest(chunks) =~= concat_chunks(chunks));
    }
}

/// Law: a valid UTF-8 stream, split into chunks in any way whatever, is
/// surfaced verbatim by the assembler — every byte is passed through exactly
/// once, in order, no replacement character is ever introduced at a chunk
/// boundary, and nothing is left carried over at the end of the stream.
pub proof fn lemma_valid_stream_reassembled(chunks: Seq<Seq<u8>>)
    requires
        valid_utf8(concat_chunks(chunks)),
    ensures
        feed_bytes(chunks) == concat_chunks(chunks),
        feed_rest(chunks) == Seq::<u8>::empty(),
{
    let s = concat_chunks(chunks);
    assert(s + Seq::<u8>::empty() =~= s);
    lemma_feed_general(chunks, Seq::<u8>::empty());
    let e = feed_bytes(chunks);
    let r = feed_rest(chunks);
    if r.len() > 0 {
        lemma_valid_iff_vpl_full(s);
        lemma_vpl_concat_valid(e, r);
        lemma_incomplete_vpl_zero(r);
        assert(e + r =~= s);
        assert(valid_prefix_len(s) == e.len());
        assert(false);
    }
    assert(e =~= s);
}

/// Law: a valid multi-byte encoding split across two consecutive reads is
/// reassembled exactly — the two reads together surface the original bytes
/// with no replacement character.
pub proof fn lemma_split_codepoint_reassembled(s: Seq<u8>, i: int)
    requires
        valid_utf8(s),
        0 <= i <= s.len(),
    ensures
        feed_bytes(seq![s.take(i), s.skip(i)]) == s,
        feed_rest(seq![s.take(i), s.skip(i)]) == Seq::<u8>::empty(),
{
    let chunks = seq![s.take(i), s.skip(i)];
    let head = seq![s.take(i)];
    assert(chunks.drop_last() =~= head);
    assert(head.drop_last() =~= Seq::<Seq<u8>>::empty());
    assert(concat_chunks(Seq::<Seq<u8>>::empty()) =~= Seq::<u8>::empty());
    assert(head.last() == s.take(i));
    assert(concat_chunks(head) =~= s.take(i));
    assert(chunks.last() == s.skip(i));
    assert(concat_chunks(chunks) =~= s.take(i) + s.skip(i));
    assert(s.take(i) + s.skip(i) =~= s);
    lemma_valid_stream_reassembled(chunks);
}

} // verus!
