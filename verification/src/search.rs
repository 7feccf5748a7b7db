//! Text search: pattern building and per-line match collection.
//!
//! Walking the file tree and reading files is a host-side pass-through; what
//! stands here is the logic of a search — how the caller's query and flags
//! become one regular-expression pattern, and how the matcher's byte spans
//! on a line become the character offsets callers see.

use vstd::prelude::*;
use vstd::string::StringExecFns;
use vstd::string::StringSliceAdditionalSpecFns;
use vstd::string::StrSliceExecFns;
use vstd::utf8::{
    decode_utf8, encode_utf8, encode_utf8_decode_utf8, encode_utf8_valid_utf8, is_char_boundary,
    is_char_boundary_iff_not_is_continuation_byte, is_char_boundary_start_end_of_seq,
    length_of_first_scalar, pop_first_scalar, valid_first_scalar, valid_utf8,
};
use regex::Regex;
use crate::decode::{first_shape_len, lemma_first_scalar_shape, lemma_scalar_start_not_continuation};
use crate::error::AppError;

verus! {

#[verifier::external_type_specification]
#[verifier::external_body]
pub struct ExRegex(Regex);

/// The pattern a compiled regular expression was built from.
pub uninterp spec fn pattern_of(re: Regex) -> Seq<char>;

/// Whether the pattern compiles; the `regex` crate's parser decides it, as a
/// function of the pattern alone.
pub uninterp spec fn regex_accepts(pattern: Seq<char>) -> bool;

/// The pattern-escaped form of a string, as `regex::escape` computes it — a
/// function of the string alone.
pub uninterp spec fn regex_escape_spec(s: Seq<char>) -> Seq<char>;

/// The byte spans (start inclusive, end exclusive) of the successive
/// non-overlapping matches of the pattern in the text, as the `regex` crate
/// finds them — a function of pattern and text alone.
pub uninterp spec fn regex_match_spans(pattern: Seq<char>, text: Seq<char>) -> Seq<(int, int)>;

/// Relies on regex::escape: the escaped pattern depends on the input string
/// alone.
#[verifier::external_body]
fn regex_escape(s: &str) -> (r: String)
    ensures
        r@ == regex_escape_spec(s@),
{
    regex::escape(s)
}

/// Relies on Regex::new: compiles the pattern, or reports the parser's
/// message.
#[verifier::external_body]
fn regex_new(pattern: &str) -> (r: Result<Regex, String>)
    ensures
        r is Ok <==> regex_accepts(pattern@),
        r matches Ok(re) ==> pattern_of(re) == pattern@,
{
    Regex::new(pattern).map_err(|e| e.to_string())
}

/// Relies on Regex::find_iter: the successive non-overlapping matches of
/// the expression in the haystack, as byte spans. Each span lies within the
/// haystack on character boundaries — a match is a slice of the haystack —
/// and successive spans do not overlap.
#[verifier::external_body]
fn regex_find_spans(re: &Regex, hay: &str) -> (r: Vec<(usize, usize)>)
    ensures
        r@.len() == regex_match_spans(pattern_of(*re), hay@).len(),
        forall|j: int|
            0 <= j < r@.len() ==> (#[trigger] r@[j]).0 as int == regex_match_spans(
                pattern_of(*re),
                hay@,
            )[j].0 && r@[j].1 as int == regex_match_spans(pattern_of(*re), hay@)[j].1,
        forall|j: int|
            0 <= j < r@.len() ==> (#[trigger] r@[j]).0 <= r@[j].1 && r@[j].1 as int
                <= hay.spec_bytes().len() && is_char_boundary(hay.spec_bytes(), r@[j].0 as int)
                && is_char_boundary(hay.spec_bytes(), r@[j].1 as int),
        forall|j: int| 0 <= j < r@.len() - 1 ==> (#[trigger] r@[j]).1 <= r@[j + 1].0,
{
    re.find_iter(hay).map(|m| (m.start(), m.end())).collect()
}

/// The pattern a search compiles: the query (escaped unless the caller
/// wrote it as a regular expression), wrapped in word boundaries for a
/// whole-word search, with case folding asked for unless the search is
/// case sensitive.
pub open spec fn composed_pattern(
    query: Seq<char>,
    case_sensitive: bool,
    whole_word: bool,
    use_regex: bool,
) -> Seq<char> {
    let base = if use_regex {
        query
    } else {
        regex_escape_spec(query)
    };
    let worded = if whole_word {
        "\\b"@ + base + "\\b"@
    } else {
        base
    };
    if case_sensitive {
        worded
    } else {
        "(?i)"@ + worded
    }
}

/// Builds the search expression for a query and its flags; a pattern the
/// parser rejects is reported as rejected input.
pub fn build_search_pattern(
    query: &str,
    case_sensitive: bool,
    whole_word: bool,
    use_regex: bool,
) -> (r: Result<Regex, AppError>)
    ensures
        r is Ok <==> regex_accepts(
            composed_pattern(query@, case_sensitive, whole_word, use_regex),
        ),
        r matches Ok(re) ==> pattern_of(re) == composed_pattern(
            query@,
            case_sensitive,
            whole_word,
            use_regex,
        ),
        r matches Err(e) ==> e matches AppError::InvalidInput(_),
{
    let base = if use_regex {
        query.to_owned()
    } else {
        regex_escape(query)
    };
    let worded = if whole_word {
        String::from_str("\\b").concat(base.as_str()).concat("\\b")
    } else {
        base
    };
    let pattern = if case_sensitive {
        worded
    } else {
        String::from_str("(?i)").concat(worded.as_str())
    };
    match regex_new(pattern.as_str()) {
        Ok(re) => Ok(re),
        Err(m) => Err(AppError::InvalidInput(String::from_str("Invalid regex: ").concat(m.as_str()))),
    }
}

/// One match within one line of a searched file. Offsets count characters,
/// not bytes, so a consumer addressing the line as text can use them
/// directly.
#[derive(Clone, Debug)]
pub struct SearchMatch {
    pub line_number: usize,
    pub line_content: String,
    pub match_start: usize,
    pub match_end: usize,
}

/// All matches found in one file.
#[derive(Clone, Debug)]
pub struct FileSearchResult {
    pub path: String,
    pub absolute_path: String,
    pub matches: Vec<SearchMatch>,
}

/// The outcome of a search across a file tree.
#[derive(Clone, Debug)]
pub struct SearchResults {
    pub files: Vec<FileSearchResult>,
    pub total_matches: usize,
    pub total_files: usize,
    pub truncated: bool,
}

/// The number of characters whose encodings occupy the first `byte_index`
/// bytes of the encoding of `t`.
pub open spec fn char_offset(t: Seq<char>, byte_index: int) -> int {
    decode_utf8(encode_utf8(t).subrange(0, byte_index)).len() as int
}

/// The number of characters of `line` before byte offset `byte_index`,
/// which must lie on a character boundary.
fn char_offset_at(line: &str, byte_index: usize) -> (n: usize)
    requires
        byte_index as int <= line.spec_bytes().len(),
        is_char_boundary(line.spec_bytes(), byte_index as int),
    ensures
        n as int == char_offset(line@, byte_index as int),
{
    let (pre, _) = line.split_at(byte_index);
    proof {
        broadcast use encode_utf8_valid_utf8, encode_utf8_decode_utf8;

        assert(pre.spec_bytes() == line.spec_bytes().subrange(0, byte_index as int));
        assert(decode_utf8(encode_utf8(pre@)) == pre@);
    }
    pre.unicode_len()
}

/// The matches of the expression within one line, with byte spans turned
/// into character offsets and the line number and text attached.
pub fn collect_line_matches(re: &Regex, line: &str, line_number: usize) -> (v: Vec<SearchMatch>)
    ensures
        v@.len() == regex_match_spans(pattern_of(*re), line@).len(),
        forall|j: int|
            0 <= j < v@.len() ==> {
                let span = regex_match_spans(pattern_of(*re), line@)[j];
                &&& (#[trigger] v@[j]).line_number == line_number
                &&& v@[j].line_content@ == line@
                &&& v@[j].match_start as int == char_offset(line@, span.0)
                &&& v@[j].match_end as int == char_offset(line@, span.1)
            },
{
    let spans = regex_find_spans(re, line);
    let mut v: Vec<SearchMatch> = Vec::new();
    let n = spans.len();
    let mut i: usize = 0;
    while i < n
        invariant
            0 <= i <= n,
            n == spans@.len(),
            spans@.len() == regex_match_spans(pattern_of(*re), line@).len(),
            forall|j: int|
                0 <= j < spans@.len() ==> (#[trigger] spans@[j]).0 as int == regex_match_spans(
                    pattern_of(*re),
                    line@,
                )[j].0 && spans@[j].1 as int == regex_match_spans(pattern_of(*re), line@)[j].1,
            forall|j: int|
                0 <= j < spans@.len() ==> (#[trigger] spans@[j]).0 <= spans@[j].1 && spans@[j].1
                    as int <= line.spec_bytes().len() && is_char_boundary(
                    line.spec_bytes(),
                    spans@[j].0 as int,
                ) && is_char_boundary(line.spec_bytes(), spans@[j].1 as int),
            v@.len() == i,
            forall|j: int|
                0 <= j < i ==> {
                    let span = regex_match_spans(pattern_of(*re), line@)[j];
                    &&& (#[trigger] v@[j]).line_number == line_number
                    &&& v@[j].line_content@ == line@
                    &&& v@[j].match_start as int == char_offset(line@, span.0)
                    &&& v@[j].match_end as int == char_offset(line@, span.1)
                },
        decreases n - i,
    {
        let (s, e) = spans[i];
        let match_start = char_offset_at(line, s);
        let match_end = char_offset_at(line, e);
        v.push(
            SearchMatch { line_number, line_content: line.to_owned(), match_start, match_end },
        );
        i = i + 1;
    }
    v
}

// ---------------------------------------------------------------------------
// Scanning one file's content, line by line
// ---------------------------------------------------------------------------

/// The position of the first line break in the bytes, or their length.
pub open spec fn first_nl(b: Seq<u8>) -> int
    decreases b.len(),
{
    if b.len() == 0 {
        0
    } else if b[0] == 0x0a {
        0
    } else {
        1 + first_nl(b.drop_first())
    }
}

/// A line with one trailing carriage return removed, as a line ending of
/// either kind leaves the same line.
pub open spec fn strip_cr_bytes(b: Seq<u8>) -> Seq<u8> {
    if b.len() > 0 && b.last() == 0x0d {
        b.drop_last()
    } else {
        b
    }
}

/// The lines of a text, as bytes: split at each line break, a trailing
/// carriage return stripped from each line, and a final line break opening
/// no further line.
pub open spec fn byte_lines(b: Seq<u8>) -> Seq<Seq<u8>>
    decreases b.len(),
    via byte_lines_decreases
{
    if b.len() == 0 {
        Seq::<Seq<u8>>::empty()
    } else if first_nl(b) == b.len() {
        seq![strip_cr_bytes(b)]
    } else {
        seq![strip_cr_bytes(b.take(first_nl(b)))] + byte_lines(b.skip(first_nl(b) + 1))
    }
}

#[via_fn]
proof fn byte_lines_decreases(b: Seq<u8>) {
    lemma_first_nl_bounds(b);
}

proof fn lemma_first_nl_bounds(b: Seq<u8>)
    ensures
        0 <= first_nl(b) <= b.len(),
        first_nl(b) < b.len() ==> b[first_nl(b)] == 0x0a,
    decreases b.len(),
{
    if b.len() > 0 && b[0] != 0x0a {
        lemma_first_nl_bounds(b.drop_first());
    }
}

proof fn lemma_first_nl_at(b: Seq<u8>, k: int)
    requires
        0 <= k <= b.len(),
        forall|j: int| 0 <= j < k ==> b[j] != 0x0a,
        k < b.len() ==> b[k] == 0x0a,
    ensures
        first_nl(b) == k,
    decreases k,
{
    if k == 0 {
    } else {
        assert(b[0] != 0x0a);
        let t = b.drop_first();
        assert forall|j: int| 0 <= j < k - 1 implies t[j] != 0x0a by {
            assert(t[j] == b[j + 1]);
        }
        if k - 1 < t.len() {
            assert(t[k - 1] == b[k]);
        }
        lemma_first_nl_at(t, k - 1);
    }
}

/// The encoding of at least one character is at least one byte.
proof fn lemma_encode_nonempty(t: Seq<char>)
    requires
        t.len() > 0,
    ensures
        encode_utf8(t).len() > 0,
{
}

/// The position of the first line break in the bytes, or their length.
fn find_line_break(b: &[u8]) -> (k: usize)
    ensures
        k as int == first_nl(b@),
        k <= b@.len(),
{
    let n = b.len();
    let mut k: usize = 0;
    while k < n
        invariant
            0 <= k <= n,
            n == b@.len(),
            forall|j: int| 0 <= j < k ==> b@[j] != 0x0a,
        decreases n - k,
    {
        if b[k] == 0x0a {
            proof {
                lemma_first_nl_at(b@, k as int);
            }
            return k;
        }
        k = k + 1;
    }
    proof {
        lemma_first_nl_at(b@, n as int);
    }
    n
}

/// The matches of the pattern within one line, as plain tuples: line number,
/// line text, match start and end in characters.
pub open spec fn line_match_tuples(p: Seq<char>, line: Seq<char>, line_no: int) -> Seq<
    (int, Seq<char>, int, int),
> {
    Seq::new(
        regex_match_spans(p, line).len(),
        |k: int|
            (
                line_no,
                line,
                char_offset(line, regex_match_spans(p, line)[k].0),
                char_offset(line, regex_match_spans(p, line)[k].1),
            ),
    )
}

/// The matches of the pattern within a text, line by line in order, lines
/// numbered from `base`.
pub open spec fn content_match_tuples(p: Seq<char>, lines: Seq<Seq<u8>>, base: int) -> Seq<
    (int, Seq<char>, int, int),
>
    decreases lines.len(),
{
    if lines.len() == 0 {
        Seq::<(int, Seq<char>, int, int)>::empty()
    } else {
        line_match_tuples(p, decode_utf8(lines[0]), base) + content_match_tuples(
            p,
            lines.drop_first(),
            base + 1,
        )
    }
}

/// One collected match agrees with one match tuple in every field.
pub open spec fn match_fields(m: SearchMatch, t: (int, Seq<char>, int, int)) -> bool {
    &&& m.line_number as int == t.0
    &&& m.line_content@ == t.1
    &&& m.match_start as int == t.2
    &&& m.match_end as int == t.3
}

/// The matches of the expression in one file's content: every line scanned
/// in order, lines numbered from one, until the match budget is spent — the
/// result is the first `budget` matches, and the search is reported
/// truncated exactly when the budget was reached.
#[verifier::rlimit(50)]
pub fn collect_content_matches(re: &Regex, content: &str, budget: usize) -> (r: (
    Vec<SearchMatch>,
    bool,
))
    requires
        content.spec_bytes().len() < usize::MAX,
    ensures
        ({
            let all = content_match_tuples(
                pattern_of(*re),
                byte_lines(content.spec_bytes()),
                1,
            );
            &&& r.1 == (all.len() >= budget)
            &&& r.0@.len() == (if all.len() >= budget {
                budget as int
            } else {
                all.len() as int
            })
            &&& (forall|k: int| 0 <= k < r.0@.len() ==> match_fields(#[trigger] r.0@[k], all[k]))
        }),
{
    let ghost p = pattern_of(*re);
    let ghost all = content_match_tuples(p, byte_lines(content.spec_bytes()), 1);
    let mut collected: Vec<SearchMatch> = Vec::new();
    let mut rest: &str = content;
    let mut line_no: usize = 1;
    proof {
        assert(all.skip(0) =~= all);
    }
    while !rest.is_empty()
        invariant
            pattern_of(*re) == p,
            all == content_match_tuples(p, byte_lines(content.spec_bytes()), 1),
            collected@.len() <= all.len(),
            content_match_tuples(p, byte_lines(rest.spec_bytes()), line_no as int) == all.skip(
                collected@.len() as int,
            ),
            forall|k: int| 0 <= k < collected@.len() ==> match_fields(#[trigger] collected@[k], all[k]),
            rest.spec_bytes().len() <= content.spec_bytes().len(),
            line_no as int <= 1 + content.spec_bytes().len() - rest.spec_bytes().len(),
            content.spec_bytes().len() < usize::MAX,
        decreases rest.spec_bytes().len(),
    {
        let ghost rb = rest.spec_bytes();
        let ghost cl = collected@.len() as int;
        proof {
            lemma_encode_nonempty(rest@);
            lemma_first_nl_bounds(rb);
            assert(valid_utf8(rb)) by {
                encode_utf8_valid_utf8(rest@);
                assert(rb == encode_utf8(rest@));
            }
        }
        let k = find_line_break(rest.as_bytes());
        let rest_bytes_len = rest.len();
        let raw: &str;
        let next_rest: &str;
        if k == rest_bytes_len {
            proof {
                is_char_boundary_start_end_of_seq(rb);
            }
            let pair = rest.split_at(k);
            raw = pair.0;
            next_rest = pair.1;
            proof {
                assert(raw.spec_bytes() =~= rb);
                assert(next_rest.spec_bytes() =~= Seq::<u8>::empty());
            }
        } else {
            proof {
                is_char_boundary_iff_not_is_continuation_byte(rb, k as int);
            }
            let pair = rest.split_at(k);
            raw = pair.0;
            let tail = pair.1;
            proof {
                assert(tail.spec_bytes() =~= rb.skip(k as int));
                let tb = tail.spec_bytes();
                assert(tb[0] == 0x0a);
                assert(valid_utf8(tb)) by {
                    encode_utf8_valid_utf8(tail@);
                    assert(tb == encode_utf8(tail@));
                }
                lemma_first_scalar_shape(tb);
                assert(first_shape_len(tb) == 1);
                assert(length_of_first_scalar(tb) == 1);
                if tb.len() > 1 {
                    assert(pop_first_scalar(tb) =~= tb.skip(1));
                    assert(valid_utf8(tb.skip(1)));
                    assert(valid_first_scalar(tb.skip(1)));
                    lemma_scalar_start_not_continuation(tb.skip(1));
                    assert(tb.skip(1)[0] == tb[1]);
                    is_char_boundary_iff_not_is_continuation_byte(tb, 1);
                } else {
                    is_char_boundary_start_end_of_seq(tb);
                }
            }
            let pair2 = tail.split_at(1);
            next_rest = pair2.1;
            proof {
                assert(next_rest.spec_bytes() =~= rb.skip(k as int + 1));
            }
        }
        // A line ending of either kind leaves the same line.
        let raw_len = raw.len();
        let line: &str = if raw_len > 0 && raw.as_bytes()[raw_len - 1] == 0x0d {
            proof {
                assert(valid_utf8(raw.spec_bytes())) by {
                    encode_utf8_valid_utf8(raw@);
                    assert(raw.spec_bytes() == encode_utf8(raw@));
                }
                is_char_boundary_iff_not_is_continuation_byte(
                    raw.spec_bytes(),
                    raw_len as int - 1,
                );
            }
            let pair3 = raw.split_at(raw_len - 1);
            pair3.0
        } else {
            raw
        };
        proof {
            assert(line.spec_bytes() =~= strip_cr_bytes(raw.spec_bytes()));
        }
        let found = collect_line_matches(re, line, line_no);
        let ghost m = found@.len() as int;
        proof {
            // The scanned line is exactly the next line of the text.
            assert(decode_utf8(line.spec_bytes()) == line@) by {
                encode_utf8_decode_utf8(line@);
            }
            let remaining = all.skip(cl);
            if k as int == rb.len() {
                let lt = line_match_tuples(p, line@, line_no as int);
                let none = Seq::<(int, Seq<char>, int, int)>::empty();
                assert(byte_lines(rb) =~= seq![strip_cr_bytes(rb)]);
                assert(byte_lines(rb)[0] == line.spec_bytes());
                assert(byte_lines(rb).drop_first() =~= Seq::<Seq<u8>>::empty());
                assert(content_match_tuples(p, Seq::<Seq<u8>>::empty(), line_no as int + 1)
                    =~= none);
                assert(decode_utf8(byte_lines(rb)[0]) == line@);
                assert(content_match_tuples(p, byte_lines(rb), line_no as int) =~= lt + none);
                assert(lt + none =~= lt);
                assert(remaining =~= lt);
            } else {
                assert(byte_lines(rb) =~= seq![strip_cr_bytes(rb.take(k as int))] + byte_lines(
                    rb.skip(k as int + 1),
                ));
                assert(raw.spec_bytes() =~= rb.take(k as int));
                assert(byte_lines(rb)[0] == line.spec_bytes());
                assert(byte_lines(rb).drop_first() =~= byte_lines(rb.skip(k as int + 1)));
                assert(content_match_tuples(p, byte_lines(rb), line_no as int)
                    =~= line_match_tuples(p, line@, line_no as int) + content_match_tuples(
                    p,
                    byte_lines(rb.skip(k as int + 1)),
                    line_no as int + 1,
                ));
            }
            // The found matches are that line's tuples, so they extend the
            // correspondence with `all` by exactly `m` entries.
            assert(line_match_tuples(p, line@, line_no as int).len() == m);
            assert(all.skip(cl).len() >= m);
            assert forall|j: int| 0 <= j < m implies match_fields(found@[j], all[cl + j]) by {
                assert(all.skip(cl)[j] == all[cl + j]);
                assert(line_match_tuples(p, line@, line_no as int)[j] == all.skip(cl)[j]);
            }
        }
        let mut found = found;
        collected.append(&mut found);
        proof {
            assert(all.skip(cl).skip(m) =~= all.skip(cl + m));
            if k as int == rb.len() {
                assert(all.skip(cl + m).len() == 0);
                assert(byte_lines(next_rest.spec_bytes()) =~= Seq::<Seq<u8>>::empty());
                assert(content_match_tuples(
                    p,
                    byte_lines(next_rest.spec_bytes()),
                    line_no as int,
                ) =~= all.skip(cl + m));
            } else {
                assert((line_match_tuples(p, line@, line_no as int) + content_match_tuples(
                    p,
                    byte_lines(rb.skip(k as int + 1)),
                    line_no as int + 1,
                )).skip(m) =~= content_match_tuples(
                    p,
                    byte_lines(rb.skip(k as int + 1)),
                    line_no as int + 1,
                ));
            }
        }
        if k < rest_bytes_len {
            line_no = line_no + 1;
        }
        rest = next_rest;
    }
    proof {
        assert(rest.spec_bytes() =~= Seq::<u8>::empty()) by {
            assert(rest@.len() == 0);
        }
        assert(byte_lines(Seq::<u8>::empty()) =~= Seq::<Seq<u8>>::empty());
        assert(all.skip(collected@.len() as int).len() == 0);
        assert(collected@.len() == all.len());
    }
    let truncated = collected.len() >= budget;
    let ghost full = collected@;
    collected.truncate(budget);
    proof {
        if full.len() >= budget {
            assert(collected@ =~= full.subrange(0, budget as int));
        }
    }
    (collected, truncated)
}

} // verus!
