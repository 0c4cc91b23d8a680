//! Tool result sanitization.
//!
//! Strips base64 data URIs and long hex blobs, and truncates oversized results
//! before they are fed back to the model. This saves tokens without losing
//! meaningful information.

use crate::utils::ratio::{
    lemma_rounded_exact, lemma_scaled, product, rounded, truncated, Number, Ratio,
};
use crate::utils::text::{
    byte_len, decimal, lemma_decimal, lemma_encode_concat, lemma_prefix_longest, lemma_prefix_maximal, lemma_suffix_longest,
    lemma_suffix_maximal, prefix_of,
    prefix_within, suffix_of, suffix_within, to_decimal,
};
use vstd::arithmetic::power::pow;
use vstd::arithmetic::power2::pow2;
use vstd::prelude::*;
use vstd::utf8::{
    decode_utf8, decode_utf8_encode_utf8, encode_utf8, encode_utf8_decode_utf8,
    encode_utf8_valid_utf8, is_char_boundary, is_char_boundary_iff_not_is_continuation_byte,
    is_ascii_chars, is_ascii_chars_encode_utf8, is_char_boundary_start_end_of_seq, valid_utf8,
    valid_utf8_concat, valid_utf8_split,
};

verus! {

/// Default maximum result size in bytes (20 KB).
pub const DEFAULT_MAX_RESULT_BYTES: usize = 20_480;

/// Minimum tool result budget in bytes (1 KB).
pub const MIN_RESULT_BUDGET: usize = 1024;

/// Approximate bytes per token for budget estimation.
pub const BYTES_PER_TOKEN: usize = 4;

/// Minimum length of a contiguous hex string to be stripped.
pub const MIN_HEX_BLOB_LEN: usize = 200;

/// How much of the start of an oversized result is kept.
pub const DEFAULT_TRUNCATION_HEAD_BYTES: usize = 10_240;

/// How much of the end of an oversized result is kept.
pub const DEFAULT_TRUNCATION_TAIL_BYTES: usize = 2_048;

// ---------------------------------------------------------------------------
// Blobs
// ---------------------------------------------------------------------------

/// Data that is stripped from a result.
#[derive(Clone, Copy, PartialEq, Eq, Structural)]
pub enum Blob {
    /// `data:<media type>;base64,<data>`.
    Base64Uri,
    /// A long run of hex digits.
    Hex,
}

/// A set of bytes.
pub enum Class {
    /// Hex digits.
    Hex,
    /// The bytes of a media type.
    Media,
    /// The base64 alphabet and its padding.
    Base64,
}

/// A decimal digit.
pub open spec fn is_digit(b: u8) -> bool {
    0x30 <= b <= 0x39
}

/// An ASCII letter.
pub open spec fn is_letter(b: u8) -> bool {
    0x41 <= b <= 0x5a || 0x61 <= b <= 0x7a
}

/// Whether a byte is in a class.
pub open spec fn in_class(class: Class, b: u8) -> bool {
    match class {
        Class::Hex => is_digit(b) || 0x41 <= b <= 0x46 || 0x61 <= b <= 0x66,
        // `/`, `+`, `-`, `.`
        Class::Media => is_digit(b) || is_letter(b) || b == 0x2f || b == 0x2b || b == 0x2d || b
            == 0x2e,
        // `/`, `+`, `=`
        Class::Base64 => is_digit(b) || is_letter(b) || b == 0x2f || b == 0x2b || b == 0x3d,
    }
}

/// Where the run of bytes of a class that starts at `i` ends.
pub open spec fn run_end(class: Class, bytes: Seq<u8>, i: int) -> int
    decreases bytes.len() - i,
{
    if 0 <= i < bytes.len() && in_class(class, bytes[i]) {
        run_end(class, bytes, i + 1)
    } else {
        i
    }
}

/// Whether `literal` stands at `i`.
pub open spec fn stands_at(literal: Seq<u8>, bytes: Seq<u8>, i: int) -> bool {
    &&& 0 <= i
    &&& i + literal.len() <= bytes.len()
    &&& forall|k: int| 0 <= k < literal.len() ==> bytes[i + k] == #[trigger] literal[k]
}

/// `data:`
pub open spec fn uri_start() -> Seq<u8> {
    seq![0x64u8, 0x61, 0x74, 0x61, 0x3a]
}

/// `;base64,`
pub open spec fn uri_middle() -> Seq<u8> {
    seq![0x3bu8, 0x62, 0x61, 0x73, 0x65, 0x36, 0x34, 0x2c]
}

/// Where the blob that starts at `i` ends; `i` where none starts there.
pub open spec fn blob_end(blob: Blob, bytes: Seq<u8>, i: int) -> int {
    match blob {
        Blob::Hex => {
            let end = run_end(Class::Hex, bytes, i);
            if end - i >= MIN_HEX_BLOB_LEN {
                end
            } else {
                i
            }
        },
        Blob::Base64Uri => {
            let media = run_end(Class::Media, bytes, i + 5);
            let end = run_end(Class::Base64, bytes, media + 8);
            if stands_at(uri_start(), bytes, i) && media > i + 5 && stands_at(
                uri_middle(),
                bytes,
                media,
            ) && end > media + 8 {
                end
            } else {
                i
            }
        },
    }
}

/// What a run is.
pub proof fn lemma_run_end(class: Class, bytes: Seq<u8>, i: int)
    requires
        0 <= i,
    ensures
        i <= run_end(class, bytes, i),
        i <= bytes.len() ==> run_end(class, bytes, i) <= bytes.len(),
        i > bytes.len() ==> run_end(class, bytes, i) == i,
        forall|k: int| i <= k < run_end(class, bytes, i) ==> in_class(class, #[trigger] bytes[k]),
        run_end(class, bytes, i) < bytes.len() ==> !in_class(
            class,
            bytes[run_end(class, bytes, i)],
        ),
    decreases bytes.len() - i,
{
    if i < bytes.len() && in_class(class, bytes[i]) {
        lemma_run_end(class, bytes, i + 1);
    }
}

/// A blob lies within the text, and starts and ends with an ASCII byte.
pub proof fn lemma_blob_end(blob: Blob, bytes: Seq<u8>, i: int)
    requires
        0 <= i < bytes.len(),
    ensures
        i <= blob_end(blob, bytes, i) <= bytes.len(),
        blob_end(blob, bytes, i) > i ==> bytes[i] < 0x80 && bytes[blob_end(blob, bytes, i) - 1]
            < 0x80,
{
    match blob {
        Blob::Hex => {
            lemma_run_end(Class::Hex, bytes, i);
        },
        Blob::Base64Uri => {
            let media = run_end(Class::Media, bytes, i + 5);
            lemma_run_end(Class::Media, bytes, i + 5);
            lemma_run_end(Class::Base64, bytes, media + 8);
            if stands_at(uri_start(), bytes, i) {
                assert(bytes[i + 0] == uri_start()[0]);
            }
        },
    }
}

/// Where the blobs from `i` on start and end: the leftmost, then the leftmost
/// after its end, and so on.
pub open spec fn spans(blob: Blob, bytes: Seq<u8>, i: int) -> Seq<(int, int)>
    decreases bytes.len() - i,
{
    if i < 0 || i >= bytes.len() {
        seq![]
    } else if blob_end(blob, bytes, i) > i {
        proof {
            lemma_blob_end(blob, bytes, i);
        }
        seq![(i, blob_end(blob, bytes, i))] + spans(blob, bytes, blob_end(blob, bytes, i))
    } else {
        spans(blob, bytes, i + 1)
    }
}

/// What stands in place of a blob of `n` bytes.
pub open spec fn placeholder(blob: Blob, n: nat) -> Seq<char> {
    match blob {
        Blob::Base64Uri => "[base64 data removed, "@ + decimal(n) + " bytes]"@,
        Blob::Hex => "[hex data removed, "@ + decimal(n) + " chars]"@,
    }
}

/// The bytes from `i` on with every blob replaced.
pub open spec fn replaced(blob: Blob, bytes: Seq<u8>, i: int) -> Seq<u8>
    decreases bytes.len() - i,
{
    if i < 0 || i >= bytes.len() {
        seq![]
    } else if blob_end(blob, bytes, i) > i {
        proof {
            lemma_blob_end(blob, bytes, i);
        }
        encode_utf8(placeholder(blob, (blob_end(blob, bytes, i) - i) as nat)) + replaced(
            blob,
            bytes,
            blob_end(blob, bytes, i),
        )
    } else {
        seq![bytes[i]] + replaced(blob, bytes, i + 1)
    }
}

/// The text with every blob replaced.
pub open spec fn stripped(blob: Blob, s: Seq<char>) -> Seq<char> {
    decode_utf8(replaced(blob, encode_utf8(s), 0))
}

/// The regular expression of a blob.
pub open spec fn pattern_text(blob: Blob) -> Seq<char> {
    match blob {
        Blob::Base64Uri => "data:[a-zA-Z0-9/+\\-\\.]+;base64,[A-Za-z0-9+/=]+"@,
        Blob::Hex => "[0-9a-fA-F]{200,}"@,
    }
}

fn pattern(blob: Blob) -> (r: &'static str)
    ensures
        r@ == pattern_text(blob),
{
    match blob {
        Blob::Base64Uri => "data:[a-zA-Z0-9/+\\-\\.]+;base64,[A-Za-z0-9+/=]+",
        Blob::Hex => "[0-9a-fA-F]{200,}",
    }
}

/// The offsets that pairs of machine integers stand for.
pub open spec fn span_views(v: Seq<(usize, usize)>) -> Seq<(int, int)> {
    v.map_values(|p: (usize, usize)| (p.0 as int, p.1 as int))
}

/// `regex::Regex::find_iter`: the byte offsets of the successive
/// non-overlapping matches of a pattern, leftmost first and each as long as its
/// repetitions allow. Stated for the two patterns in use.
#[verifier::external_body]
fn find_matches(pattern: &str, text: &str) -> (r: Vec<(usize, usize)>)
    requires
        pattern@ == pattern_text(Blob::Base64Uri) || pattern@ == pattern_text(Blob::Hex),
    ensures
        pattern@ == pattern_text(Blob::Base64Uri) ==> span_views(r@) == spans(
            Blob::Base64Uri,
            encode_utf8(text@),
            0,
        ),
        pattern@ == pattern_text(Blob::Hex) ==> span_views(r@) == spans(
            Blob::Hex,
            encode_utf8(text@),
            0,
        ),
{
    let regex = regex::Regex::new(pattern).unwrap();
    regex.find_iter(text).map(|found| (found.start(), found.end())).collect()
}

/// The first blob from `i` on.
proof fn lemma_first_span(blob: Blob, bytes: Seq<u8>, i: int)
    requires
        0 <= i <= bytes.len(),
    ensures
        spans(blob, bytes, i).len() == 0 ==> replaced(blob, bytes, i) == bytes.subrange(
            i,
            bytes.len() as int,
        ),
        spans(blob, bytes, i).len() == 0 ==> forall|j: int|
            i <= j < bytes.len() ==> #[trigger] blob_end(blob, bytes, j) == j,
        spans(blob, bytes, i).len() > 0 ==> {
            let (start, end) = spans(blob, bytes, i)[0];
            &&& i <= start < end <= bytes.len()
            &&& forall|j: int| i <= j < start ==> #[trigger] blob_end(blob, bytes, j) == j
            &&& bytes[start] < 0x80
            &&& bytes[end - 1] < 0x80
            &&& spans(blob, bytes, i).drop_first() == spans(blob, bytes, end)
            &&& replaced(blob, bytes, i) == bytes.subrange(i, start) + encode_utf8(
                placeholder(blob, (end - start) as nat),
            ) + replaced(blob, bytes, end)
        },
    decreases bytes.len() - i,
{
    if i < bytes.len() {
        lemma_blob_end(blob, bytes, i);
        let all = spans(blob, bytes, i);
        if blob_end(blob, bytes, i) > i {
            let end = blob_end(blob, bytes, i);
            assert(all.drop_first() =~= spans(blob, bytes, end));
            assert(replaced(blob, bytes, i) =~= bytes.subrange(i, i) + encode_utf8(
                placeholder(blob, (end - i) as nat),
            ) + replaced(blob, bytes, end));
        } else {
            lemma_first_span(blob, bytes, i + 1);
            if all.len() > 0 {
                let (start, end) = all[0];
                assert(replaced(blob, bytes, i) =~= bytes.subrange(i, start) + encode_utf8(
                    placeholder(blob, (end - start) as nat),
                ) + replaced(blob, bytes, end));
            } else {
                assert(replaced(blob, bytes, i) =~= bytes.subrange(i, bytes.len() as int));
            }
        }
    } else {
        assert(bytes.subrange(i, bytes.len() as int) =~= seq![]);
    }
}

/// The byte after an ASCII character is a character boundary.
proof fn lemma_after_ascii(bytes: Seq<u8>, i: int)
    requires
        valid_utf8(bytes),
        0 <= i < bytes.len(),
        bytes[i] < 0x80,
    ensures
        is_char_boundary(bytes, i),
        is_char_boundary(bytes, i + 1),
{
    is_char_boundary_iff_not_is_continuation_byte(bytes, i);
    lemma_next_boundary(bytes, i);
}

proof fn lemma_next_boundary(bytes: Seq<u8>, i: int)
    requires
        valid_utf8(bytes),
        0 <= i < bytes.len(),
        bytes[i] < 0x80,
        is_char_boundary(bytes, i),
    ensures
        is_char_boundary(bytes, i + 1),
    decreases bytes.len(),
{
    let rest = vstd::utf8::pop_first_scalar(bytes);
    let n = vstd::utf8::length_of_first_scalar(bytes);
    if i > 0 {
        assert(is_char_boundary(rest, i - n));
        assert(i - n >= 0) by {
            reveal_with_fuel(is_char_boundary, 2);
        }
        lemma_next_boundary(rest, i - n);
    } else {
        reveal_with_fuel(is_char_boundary, 2);
    }
}

/// The text between two boundaries.
fn slice_text(s: &str, from: usize, to: usize) -> (r: &str)
    requires
        from <= to <= encode_utf8(s@).len(),
        is_char_boundary(encode_utf8(s@), from as int),
        is_char_boundary(encode_utf8(s@), to as int),
    ensures
        encode_utf8(r@) == encode_utf8(s@).subrange(from as int, to as int),
{
    let ghost bytes = encode_utf8(s@);
    proof {
        encode_utf8_valid_utf8(s@);
        valid_utf8_split(bytes, from as int);
    }
    let (_, rest) = s.split_at(from);
    let n: usize = to - from;
    proof {
        let tail = encode_utf8(rest@);
        encode_utf8_valid_utf8(rest@);
        is_char_boundary_start_end_of_seq(tail);
        if to < bytes.len() {
            is_char_boundary_iff_not_is_continuation_byte(bytes, to as int);
            assert(tail[n as int] == bytes[to as int]);
            is_char_boundary_iff_not_is_continuation_byte(tail, n as int);
        }
    }
    let (middle, _) = rest.split_at(n);
    assert(encode_utf8(middle@) =~= bytes.subrange(from as int, to as int));
    middle
}

fn placeholder_of(blob: Blob, n: usize) -> (r: String)
    ensures
        r@ == placeholder(blob, n as nat),
{
    let digits = to_decimal(n as u64);
    match blob {
        Blob::Base64Uri => {
            let mut r = "[base64 data removed, ".to_owned();
            r.append(digits.as_str());
            r.append(" bytes]");
            r
        },
        Blob::Hex => {
            let mut r = "[hex data removed, ".to_owned();
            r.append(digits.as_str());
            r.append(" chars]");
            r
        },
    }
}

/// The text with the blobs at the given places replaced.
pub fn replace_spans(blob: Blob, text: &str, found: &Vec<(usize, usize)>) -> (r: String)
    requires
        span_views(found@) == spans(blob, encode_utf8(text@), 0),
    ensures
        r@ == stripped(blob, text@),
{
    let ghost bytes = encode_utf8(text@);
    let len: usize = text.as_bytes().len();
    let mut out = String::new();
    let mut at: usize = 0;
    let mut k: usize = 0;
    proof {
        encode_utf8_valid_utf8(text@);
        is_char_boundary_start_end_of_seq(bytes);
        assert(span_views(found@).skip(0) =~= span_views(found@));
        assert(encode_utf8(out@) + replaced(blob, bytes, 0) =~= replaced(blob, bytes, 0));
    }
    while k < found.len()
        invariant
            k <= found@.len(),
            at <= len,
            len == bytes.len(),
            bytes == encode_utf8(text@),
            valid_utf8(bytes),
            is_char_boundary(bytes, at as int),
            is_char_boundary(bytes, len as int),
            span_views(found@).skip(k as int) == spans(blob, bytes, at as int),
            encode_utf8(out@) + replaced(blob, bytes, at as int) == replaced(blob, bytes, 0),
        decreases found@.len() - k,
    {
        let (start, end) = found[k];
        proof {
            lemma_first_span(blob, bytes, at as int);
            assert(span_views(found@).skip(k as int)[0] == (start as int, end as int));
            lemma_after_ascii(bytes, start as int);
            lemma_after_ascii(bytes, end - 1);
        }
        let kept = slice_text(text, at, start);
        let mark = placeholder_of(blob, end - start);
        let ghost before = out@;
        out.append(kept);
        out.append(mark.as_str());
        proof {
            lemma_encode_concat(before, kept@);
            lemma_encode_concat(before + kept@, mark@);
            assert(encode_utf8(out@) + replaced(blob, bytes, end as int) =~= encode_utf8(before) + (
            encode_utf8(kept@) + encode_utf8(mark@) + replaced(blob, bytes, end as int)));
            assert(span_views(found@).skip(k + 1) =~= span_views(found@).skip(
                k as int,
            ).drop_first());
        }
        at = end;
        k = k + 1;
    }
    proof {
        lemma_first_span(blob, bytes, at as int);
    }
    let kept = slice_text(text, at, len);
    let ghost before = out@;
    out.append(kept);
    proof {
        lemma_encode_concat(before, kept@);
        encode_utf8_decode_utf8(out@);
    }
    out
}

fn strip(blob: Blob, text: &str) -> (r: String)
    ensures
        r@ == stripped(blob, text@),
{
    let found = find_matches(pattern(blob), text);
    replace_spans(blob, text, &found)
}

// ---------------------------------------------------------------------------
// Truncation
// ---------------------------------------------------------------------------

/// The smaller of two numbers.
pub open spec fn smaller_of(a: int, b: int) -> nat {
    if a <= b {
        a as nat
    } else {
        b as nat
    }
}

/// The start of an oversized text that is kept.
pub open spec fn kept_head(s: Seq<char>, max: nat) -> Seq<char> {
    prefix_within(s, smaller_of(DEFAULT_TRUNCATION_HEAD_BYTES as int, max as int))
}

/// The end of an oversized text that is kept: what the start leaves room for.
pub open spec fn kept_tail(s: Seq<char>, max: nat) -> Seq<char> {
    suffix_within(
        s,
        smaller_of(DEFAULT_TRUNCATION_TAIL_BYTES as int, max - byte_len(kept_head(s, max))),
    )
}

/// A text cut to its start and end where it has more than `max` bytes.
pub open spec fn shortened(s: Seq<char>, max: nat) -> Seq<char> {
    if byte_len(s) <= max {
        s
    } else {
        let head = kept_head(s, max);
        let tail = kept_tail(s, max);
        let dropped = (byte_len(s) - byte_len(head) - byte_len(tail)) as nat;
        let start = head + "\n...[truncated "@ + decimal(dropped) + " bytes]..."@;
        if tail.len() == 0 {
            start
        } else {
            start + "\n"@ + tail
        }
    }
}

/// A text with every blob of both kinds replaced.
pub open spec fn without_blobs(s: Seq<char>) -> Seq<char> {
    stripped(Blob::Hex, stripped(Blob::Base64Uri, s))
}

/// A tool result with binary data stripped, cut to size.
pub open spec fn sanitized(s: Seq<char>, max: nat) -> Seq<char> {
    shortened(without_blobs(s), max)
}

/// The longest prefix of at most `max_bytes`, on a character boundary.
pub fn take_prefix_charsafe(s: &str, max_bytes: usize) -> (r: &str)
    ensures
        r@ == prefix_within(s@, max_bytes as nat),
{
    prefix_of(s, max_bytes)
}

/// The longest suffix of at most `max_bytes`, on a character boundary.
pub fn take_suffix_charsafe(s: &str, max_bytes: usize) -> (r: &str)
    ensures
        r@ == suffix_within(s@, max_bytes as nat),
{
    suffix_of(s, max_bytes)
}

/// Cuts a text to its start and end where it has more than `max_bytes` bytes.
pub fn shorten(s: &str, max_bytes: usize) -> (r: String)
    ensures
        r@ == shortened(s@, max_bytes as nat),
        byte_len(s@) <= usize::MAX,
{
    let total: usize = s.as_bytes().len();
    if total <= max_bytes {
        return s.to_owned();
    }
    let head_budget: usize = if DEFAULT_TRUNCATION_HEAD_BYTES <= max_bytes {
        DEFAULT_TRUNCATION_HEAD_BYTES
    } else {
        max_bytes
    };
    let head = take_prefix_charsafe(s, head_budget);
    proof {
        lemma_prefix_longest(s@, head_budget as nat);
    }
    let head_len: usize = head.as_bytes().len();
    let left: usize = max_bytes - head_len;
    let tail_budget: usize = if DEFAULT_TRUNCATION_TAIL_BYTES <= left {
        DEFAULT_TRUNCATION_TAIL_BYTES
    } else {
        left
    };
    let tail = take_suffix_charsafe(s, tail_budget);
    proof {
        lemma_suffix_longest(s@, tail_budget as nat);
    }
    let tail_len: usize = tail.as_bytes().len();
    let dropped: usize = total - head_len - tail_len;
    let mut r = head.to_owned();
    r.append("\n...[truncated ");
    r.append(to_decimal(dropped as u64).as_str());
    r.append(" bytes]...");
    if !tail.is_empty() {
        r.append("\n");
        r.append(tail);
    }
    r
}

/// Sanitizes a tool result.
///
/// 1. Replaces `data:...;base64,...` URIs with a placeholder.
/// 2. Replaces hex blobs (200 hex digits or more) with a placeholder.
/// 3. Cuts what is then longer than `max_bytes` to its start and end.
///
/// What is left after the first two steps fits the address space, so a limit of
/// `usize::MAX` cuts nothing.
pub fn sanitize_tool_result(result: &str, max_bytes: usize) -> (r: String)
    ensures
        r@ == sanitized(result@, max_bytes as nat),
        byte_len(without_blobs(result@)) <= usize::MAX,
        max_bytes == usize::MAX ==> r@ == without_blobs(result@),
{
    let without_uris = strip(Blob::Base64Uri, result);
    let without_blobs = strip(Blob::Hex, without_uris.as_str());
    shorten(without_blobs.as_str(), max_bytes)
}

// ---------------------------------------------------------------------------
// Budgets
// ---------------------------------------------------------------------------

/// The larger of two numbers.
pub open spec fn larger_of(a: int, b: int) -> nat {
    if a >= b {
        a as nat
    } else {
        b as nat
    }
}

/// The tokens that are left of a limit.
pub open spec fn remaining_tokens(limit: usize, used: usize) -> nat {
    larger_of(limit - used, 0)
}

/// The bytes of a context window that a fraction of it holds.
pub open spec fn share_bytes(limit: usize, fraction: Number) -> nat {
    (truncated(product(rounded(limit as nat), 1, fraction)) * BYTES_PER_TOKEN) as nat
}

/// The remaining bytes that fall to each pending result.
pub open spec fn fair_bytes(limit: usize, used: usize, pending: usize) -> nat {
    (remaining_tokens(limit, used) * BYTES_PER_TOKEN) as nat / larger_of(pending as int, 1)
}

/// The byte budget of one tool result.
pub open spec fn result_budget(
    limit: usize,
    used: usize,
    pending: usize,
    max_bytes: usize,
) -> nat {
    larger_of(
        MIN_RESULT_BUDGET as int,
        smaller_of(fair_bytes(limit, used, pending) as int, max_bytes as int) as int,
    )
}

/// The byte budget of one tool result that may take no more than a fraction of
/// the context window.
pub open spec fn shared_budget(
    limit: usize,
    used: usize,
    pending: usize,
    max_bytes: usize,
    fraction: Number,
) -> nat {
    larger_of(
        MIN_RESULT_BUDGET as int,
        smaller_of(
            result_budget(limit, used, pending, max_bytes) as int,
            share_bytes(limit, fraction) as int,
        ) as int,
    )
}

/// Computes a tool result byte budget from the remaining context capacity.
///
/// The budget scales with the available context space:
/// - Takes the remaining token capacity (`context_limit - current_usage_tokens`)
/// - Converts tokens to approximate bytes (multiplies by 4)
/// - Divides by the number of pending results to share the budget fairly
/// - Clamps to [`MIN_RESULT_BUDGET`] and `max_result_bytes`; the minimum counts
///   where the two cross
pub fn compute_tool_result_budget(
    context_limit: usize,
    current_usage_tokens: usize,
    pending_result_count: usize,
    max_result_bytes: usize,
) -> (r: usize)
    ensures
        r == result_budget(
            context_limit,
            current_usage_tokens,
            pending_result_count,
            max_result_bytes,
        ),
{
    let remaining: usize = if context_limit >= current_usage_tokens {
        context_limit - current_usage_tokens
    } else {
        0
    };
    let bytes_per_token: u128 = BYTES_PER_TOKEN as u128;
    assert(bytes_per_token == 4);
    let remaining_bytes: u128 = remaining as u128 * bytes_per_token;
    let count: usize = if pending_result_count >= 1 {
        pending_result_count
    } else {
        1
    };
    let per_result: u128 = remaining_bytes / count as u128;
    let budget: usize = if per_result <= max_result_bytes as u128 {
        per_result as usize
    } else {
        max_result_bytes
    };
    if budget >= MIN_RESULT_BUDGET {
        budget
    } else {
        MIN_RESULT_BUDGET
    }
}

/// Like [`compute_tool_result_budget`], but also enforces that no single result
/// exceeds `single_result_share` of the context window, in bytes.
pub fn compute_tool_result_budget_with_share(
    context_limit: usize,
    current_usage_tokens: usize,
    pending_result_count: usize,
    max_result_bytes: usize,
    single_result_share: Ratio,
) -> (r: usize)
    ensures
        r == shared_budget(
            context_limit,
            current_usage_tokens,
            pending_result_count,
            max_result_bytes,
            single_result_share@,
        ),
{
    let budget = compute_tool_result_budget(
        context_limit,
        current_usage_tokens,
        pending_result_count,
        max_result_bytes,
    );
    let bytes_per_token: u128 = BYTES_PER_TOKEN as u128;
    assert(bytes_per_token == 4);
    let share: u128 = single_result_share.of(context_limit) as u128 * bytes_per_token;
    let capped: usize = if budget as u128 <= share {
        budget
    } else {
        share as usize
    };
    if capped >= MIN_RESULT_BUDGET {
        capped
    } else {
        MIN_RESULT_BUDGET
    }
}

// ---------------------------------------------------------------------------
// What holds of every sanitized result
// ---------------------------------------------------------------------------

/// Whether no blob starts anywhere.
pub open spec fn free_of(blob: Blob, bytes: Seq<u8>) -> bool {
    forall|i: int| 0 <= i < bytes.len() ==> #[trigger] blob_end(blob, bytes, i) == i
}

/// A byte that no blob contains.
spec fn is_barrier(b: u8) -> bool {
    b == 0x0a || b == 0x5b || b == 0x5d
}

/// A run of a longer sequence, seen from one of its parts.
proof fn lemma_run_of_part(class: Class, bytes: Seq<u8>, from: int, to: int, i: int)
    requires
        0 <= from <= from + i <= to <= bytes.len(),
    ensures
        from + run_end(class, bytes.subrange(from, to), i) <= run_end(class, bytes, from + i),
        from + run_end(class, bytes.subrange(from, to), i) < to ==> from + run_end(
            class,
            bytes.subrange(from, to),
            i,
        ) == run_end(class, bytes, from + i),
        to < bytes.len() && !in_class(class, bytes[to]) ==> from + run_end(
            class,
            bytes.subrange(from, to),
            i,
        ) == run_end(class, bytes, from + i),
        to == bytes.len() ==> from + run_end(class, bytes.subrange(from, to), i) == run_end(
            class,
            bytes,
            from + i,
        ),
    decreases to - (from + i),
{
    let part = bytes.subrange(from, to);
    lemma_run_end(class, bytes, from + i);
    if i < part.len() && in_class(class, part[i]) {
        assert(part[i] == bytes[from + i]);
        lemma_run_of_part(class, bytes, from, to, i + 1);
    } else if i < part.len() {
        assert(part[i] == bytes[from + i]);
    }
}

/// A part of a sequence without blobs has none.
proof fn lemma_free_part(blob: Blob, bytes: Seq<u8>, from: int, to: int)
    requires
        0 <= from <= to <= bytes.len(),
        forall|i: int| from <= i < to ==> #[trigger] blob_end(blob, bytes, i) == i,
    ensures
        free_of(blob, bytes.subrange(from, to)),
{
    let part = bytes.subrange(from, to);
    assert forall|i: int| 0 <= i < part.len() implies #[trigger] blob_end(blob, part, i) == i by {
        let at = from + i;
        assert(blob_end(blob, bytes, at) == at);
        match blob {
            Blob::Hex => {
                lemma_run_of_part(Class::Hex, bytes, from, to, i);
            },
            Blob::Base64Uri => {
                if blob_end(blob, part, i) != i {
                    lemma_uri_of_part(bytes, from, to, i);
                }
            },
        }
    }
}

proof fn lemma_uri_of_part(bytes: Seq<u8>, from: int, to: int, i: int)
    requires
        0 <= from <= from + i < to <= bytes.len(),
        blob_end(Blob::Base64Uri, bytes.subrange(from, to), i) != i,
    ensures
        blob_end(Blob::Base64Uri, bytes, from + i) != from + i,
{
    let part = bytes.subrange(from, to);
    let at = from + i;
    let media = run_end(Class::Media, part, i + 5);
    let end = run_end(Class::Base64, part, media + 8);
    assert(stands_at(uri_start(), bytes, at)) by {
        assert forall|k: int| 0 <= k < uri_start().len() implies bytes[at + k]
            == #[trigger] uri_start()[k] by {
            assert(part[i + k] == uri_start()[k]);
        }
    }
    lemma_run_end(Class::Media, part, i + 5);
    assert(part[media + 0] == uri_middle()[0]);
    lemma_run_of_part(Class::Media, bytes, from, to, i + 5);
    assert(run_end(Class::Media, bytes, at + 5) == from + media);
    assert(stands_at(uri_middle(), bytes, from + media)) by {
        assert forall|k: int| 0 <= k < uri_middle().len() implies bytes[from + media + k]
            == #[trigger] uri_middle()[k] by {
            assert(part[media + k] == uri_middle()[k]);
        }
    }
    lemma_run_of_part(Class::Base64, bytes, from, to, media + 8);
}

/// A blob contains no barrier.
proof fn lemma_no_barrier(blob: Blob, bytes: Seq<u8>, i: int, k: int)
    requires
        0 <= i <= k < blob_end(blob, bytes, i),
        i < bytes.len(),
    ensures
        k < bytes.len(),
        !is_barrier(bytes[k]),
{
    lemma_blob_end(blob, bytes, i);
    match blob {
        Blob::Hex => {
            lemma_run_end(Class::Hex, bytes, i);
            assert(in_class(Class::Hex, bytes[k]));
        },
        Blob::Base64Uri => {
            let media = run_end(Class::Media, bytes, i + 5);
            lemma_run_end(Class::Media, bytes, i + 5);
            lemma_run_end(Class::Base64, bytes, media + 8);
            if k < i + 5 {
                assert(bytes[i + (k - i)] == uri_start()[k - i]);
            } else if k < media {
                assert(in_class(Class::Media, bytes[k]));
            } else if k < media + 8 {
                assert(bytes[media + (k - media)] == uri_middle()[k - media]);
            } else {
                assert(in_class(Class::Base64, bytes[k]));
            }
        },
    }
}

/// Parts without blobs have none when a barrier stands between them.
#[verifier::spinoff_prover]
proof fn lemma_free_join(blob: Blob, a: Seq<u8>, barrier: u8, b: Seq<u8>)
    requires
        free_of(blob, a),
        free_of(blob, b),
        is_barrier(barrier),
    ensures
        free_of(blob, a.push(barrier) + b),
{
    let all = a.push(barrier) + b;
    assert forall|i: int| 0 <= i < all.len() implies #[trigger] blob_end(blob, all, i) == i by {
        lemma_blob_end(blob, all, i);
        if blob_end(blob, all, i) > i {
            lemma_blob_beside_barrier(blob, a, barrier, b, i);
        }
    }
}

/// A blob of a whole lies in the part before a barrier or in the part after it.
#[verifier::spinoff_prover]
proof fn lemma_blob_beside_barrier(blob: Blob, a: Seq<u8>, barrier: u8, b: Seq<u8>, i: int)
    requires
        is_barrier(barrier),
        0 <= i < (a.push(barrier) + b).len(),
        blob_end(blob, a.push(barrier) + b, i) > i,
    ensures
        !free_of(blob, a) || !free_of(blob, b),
{
    let all = a.push(barrier) + b;
    let mid = a.len() as int;
    let off = mid + 1;
    let end = blob_end(blob, all, i);
    assert(all[mid] == barrier);
    lemma_blob_end(blob, all, i);
    if i <= mid < end {
        lemma_no_barrier(blob, all, i, mid);
    }
    if end <= mid {
        lemma_blob_in_part(blob, all, 0, mid, i);
        assert(all.subrange(0, mid) =~= a);
        assert(blob_end(blob, a, i) != i);
    } else {
        lemma_blob_in_part(blob, all, off, all.len() as int, i - off);
        assert(all.subrange(off, all.len() as int) =~= b);
        assert(blob_end(blob, b, i - off) != i - off);
    }
}

/// A blob that ends within a part that no run crosses is a blob of the part.
proof fn lemma_blob_in_part(blob: Blob, bytes: Seq<u8>, from: int, to: int, i: int)
    requires
        0 <= from <= from + i < to <= bytes.len(),
        from + i < blob_end(blob, bytes, from + i) <= to,
        to < bytes.len() ==> is_barrier(bytes[to]),
    ensures
        blob_end(blob, bytes.subrange(from, to), i) != i,
{
    let part = bytes.subrange(from, to);
    let at = from + i;
    match blob {
        Blob::Hex => {
            lemma_run_of_part(Class::Hex, bytes, from, to, i);
        },
        Blob::Base64Uri => {
            let media = run_end(Class::Media, bytes, at + 5);
            lemma_run_end(Class::Media, bytes, at + 5);
            lemma_run_end(Class::Base64, bytes, media + 8);
            assert(stands_at(uri_start(), part, i)) by {
                assert forall|k: int| 0 <= k < uri_start().len() implies part[i + k]
                    == #[trigger] uri_start()[k] by {
                    assert(bytes[at + k] == uri_start()[k]);
                }
            }
            lemma_run_of_part(Class::Media, bytes, from, to, i + 5);
            assert(stands_at(uri_middle(), part, media - from)) by {
                assert forall|k: int| 0 <= k < uri_middle().len() implies part[media - from + k]
                    == #[trigger] uri_middle()[k] by {
                    assert(bytes[media + k] == uri_middle()[k]);
                }
            }
            lemma_run_of_part(Class::Base64, bytes, from, to, media - from + 8);
        },
    }
}

/// A short sequence without a colon has no blob.
proof fn lemma_free_short(blob: Blob, bytes: Seq<u8>)
    requires
        bytes.len() < MIN_HEX_BLOB_LEN,
        forall|i: int| 0 <= i < bytes.len() ==> #[trigger] bytes[i] != 0x3a,
    ensures
        free_of(blob, bytes),
{
    assert forall|i: int| 0 <= i < bytes.len() implies #[trigger] blob_end(blob, bytes, i) == i by {
        match blob {
            Blob::Hex => {
                lemma_run_end(Class::Hex, bytes, i);
            },
            Blob::Base64Uri => {
                if stands_at(uri_start(), bytes, i) {
                    assert(bytes[i + 4] == uri_start()[4]);
                }
            },
        }
    }
}

/// What a placeholder looks like in bytes.
proof fn lemma_placeholder(blob: Blob, n: nat)
    requires
        n < pow(10, 24),
    ensures
        3 <= encode_utf8(placeholder(blob, n)).len() <= 64,
        encode_utf8(placeholder(blob, n))[0] == 0x5b,
        encode_utf8(placeholder(blob, n)).last() == 0x5d,
        forall|i: int|
            0 <= i < encode_utf8(placeholder(blob, n)).len() ==> #[trigger] encode_utf8(
                placeholder(blob, n),
            )[i] != 0x3a,
{
    let text = placeholder(blob, n);
    lemma_decimal(n, 24);
    reveal_strlit("[base64 data removed, ");
    reveal_strlit(" bytes]");
    reveal_strlit("[hex data removed, ");
    reveal_strlit(" chars]");
    assert(is_ascii_chars(text));
    is_ascii_chars_encode_utf8(text);
    let bytes = encode_utf8(text);
    assert(bytes.len() == text.len());
    assert(text[0] == '[');
    assert(text.last() == ']');
    assert forall|i: int| 0 <= i < bytes.len() implies #[trigger] bytes[i] != 0x3a by {
        assert(text[i] != ':');
        assert(bytes[i] == text[i] as u8);
    }
}

/// What replacing blobs does to blobs of either kind, and to the length.
proof fn lemma_free_replaced(target: Blob, blob: Blob, bytes: Seq<u8>, i: int)
    requires
        valid_utf8(bytes),
        0 <= i <= bytes.len() < pow(10, 24),
        is_char_boundary(bytes, i),
        target == blob || free_of(target, bytes),
    ensures
        free_of(target, replaced(blob, bytes, i)),
        valid_utf8(replaced(blob, bytes, i)),
        replaced(blob, bytes, i).len() <= 64 * (bytes.len() - i),
    decreases bytes.len() - i,
{
    lemma_first_span(blob, bytes, i);
    let all = spans(blob, bytes, i);
    let len = bytes.len() as int;
    is_char_boundary_start_end_of_seq(bytes);
    if all.len() == 0 {
        lemma_free_part(target, bytes, i, len);
        lemma_valid_part(bytes, i, len);
    } else {
        let (start, end) = all[0];
        let part = bytes.subrange(i, start);
        let mark = encode_utf8(placeholder(blob, (end - start) as nat));
        let rest = replaced(blob, bytes, end);
        lemma_after_ascii(bytes, start);
        lemma_after_ascii(bytes, end - 1);
        lemma_free_part(target, bytes, i, start);
        lemma_valid_part(bytes, i, start);
        lemma_placeholder(blob, (end - start) as nat);
        encode_utf8_valid_utf8(placeholder(blob, (end - start) as nat));
        lemma_free_replaced(target, blob, bytes, end);
        let inner = mark.subrange(1, mark.len() - 1);
        lemma_free_short(target, inner);
        lemma_free_join(target, part, 0x5b, inner);
        lemma_free_join(target, part.push(0x5b) + inner, 0x5d, rest);
        assert((part.push(0x5b) + inner).push(0x5d) + rest =~= part + mark + rest);
        valid_utf8_concat(part, mark);
        valid_utf8_concat(part + mark, rest);
    }
}

/// The bytes between two boundaries are a text.
proof fn lemma_valid_part(bytes: Seq<u8>, from: int, to: int)
    requires
        valid_utf8(bytes),
        0 <= from <= to <= bytes.len(),
        is_char_boundary(bytes, from),
        is_char_boundary(bytes, to),
    ensures
        valid_utf8(bytes.subrange(from, to)),
{
    let tail = bytes.subrange(from, bytes.len() as int);
    valid_utf8_split(bytes, from);
    is_char_boundary_start_end_of_seq(tail);
    if to < bytes.len() {
        is_char_boundary_iff_not_is_continuation_byte(bytes, to);
        assert(tail[to - from] == bytes[to]);
        is_char_boundary_iff_not_is_continuation_byte(tail, to - from);
    }
    valid_utf8_split(tail, to - from);
    assert(tail.subrange(0, to - from) =~= bytes.subrange(from, to));
}

/// A bound on the size of a result in which blobs were replaced twice.
proof fn lemma_sizes()
    ensures
        4096 * usize::MAX < pow(10, 24),
{
    reveal_with_fuel(pow, 25);
    assert(pow(10, 24) == 1_000_000_000_000_000_000_000_000);
    assert(usize::MAX <= 0xffff_ffff_ffff_ffff);
}

proof fn lemma_without_blobs(blob: Blob, s: Seq<char>)
    requires
        byte_len(s) <= usize::MAX,
    ensures
        free_of(blob, encode_utf8(without_blobs(s))),
        byte_len(without_blobs(s)) < pow(10, 24),
{
    lemma_sizes();
    let b0 = encode_utf8(s);
    encode_utf8_valid_utf8(s);
    is_char_boundary_start_end_of_seq(b0);
    let b1 = replaced(Blob::Base64Uri, b0, 0);
    lemma_free_replaced(Blob::Base64Uri, Blob::Base64Uri, b0, 0);
    decode_utf8_encode_utf8(b1);
    is_char_boundary_start_end_of_seq(b1);
    let b2 = replaced(Blob::Hex, b1, 0);
    lemma_free_replaced(blob, Blob::Hex, b1, 0);
    decode_utf8_encode_utf8(b2);
    assert(b2.len() <= 4096 * b0.len());
}

/// The note that a truncation leaves, in bytes: a line break, then a short text
/// without a colon.
proof fn lemma_truncation_note(n: nat)
    requires
        n < pow(10, 24),
    ensures
        ({
            let note = encode_utf8("\n...[truncated "@ + decimal(n) + " bytes]..."@);
            &&& note.len() == 25 + decimal(n).len()
            &&& decimal(n).len() <= 24
            &&& note[0] == 0x0a
            &&& forall|i: int| 0 <= i < note.len() ==> #[trigger] note[i] != 0x3a
        }),
{
    let text = "\n...[truncated "@ + decimal(n) + " bytes]..."@;
    lemma_decimal(n, 24);
    reveal_strlit("\n...[truncated ");
    reveal_strlit(" bytes]...");
    assert(is_ascii_chars(text));
    is_ascii_chars_encode_utf8(text);
    let bytes = encode_utf8(text);
    assert(text[0] == '\n');
    assert forall|i: int| 0 <= i < bytes.len() implies #[trigger] bytes[i] != 0x3a by {
        assert(text[i] != ':');
        assert(bytes[i] == text[i] as u8);
    }
}

/// A truncated text, in bytes.
proof fn lemma_shortened_bytes(s: Seq<char>, max: nat)
    requires
        byte_len(s) > max,
    ensures
        ({
            let head = kept_head(s, max);
            let tail = kept_tail(s, max);
            let n = (byte_len(s) - byte_len(head) - byte_len(tail)) as nat;
            let note = "\n...[truncated "@ + decimal(n) + " bytes]..."@;
            &&& byte_len(head) + byte_len(tail) <= max
            &&& n > 0
            &&& head.is_prefix_of(s)
            &&& tail.is_suffix_of(s)
            &&& encode_utf8(head) == encode_utf8(s).subrange(0, byte_len(head) as int)
            &&& encode_utf8(tail) == encode_utf8(s).subrange(
                byte_len(s) - byte_len(tail),
                byte_len(s) as int,
            )
            &&& tail.len() == 0 ==> encode_utf8(shortened(s, max)) == encode_utf8(head)
                + encode_utf8(note)
            &&& tail.len() > 0 ==> encode_utf8(shortened(s, max)) == encode_utf8(head)
                + encode_utf8(note) + seq![0x0au8] + encode_utf8(tail)
        }),
{
    let head = kept_head(s, max);
    let tail = kept_tail(s, max);
    let n = (byte_len(s) - byte_len(head) - byte_len(tail)) as nat;
    let note = "\n...[truncated "@ + decimal(n) + " bytes]..."@;
    lemma_prefix_longest(s, smaller_of(DEFAULT_TRUNCATION_HEAD_BYTES as int, max as int));
    lemma_suffix_longest(
        s,
        smaller_of(DEFAULT_TRUNCATION_TAIL_BYTES as int, max - byte_len(head)),
    );
    let after = s.skip(head.len() as int);
    assert(head + after =~= s);
    lemma_encode_concat(head, after);
    assert(encode_utf8(head) =~= encode_utf8(s).subrange(0, byte_len(head) as int));
    let before = s.take(s.len() - tail.len());
    assert(before + tail =~= s);
    lemma_encode_concat(before, tail);
    assert(encode_utf8(tail) =~= encode_utf8(s).subrange(
        byte_len(s) - byte_len(tail),
        byte_len(s) as int,
    ));
    let start = head + "\n...[truncated "@ + decimal(n) + " bytes]..."@;
    assert(start =~= head + note);
    lemma_encode_concat(head, note);
    reveal_strlit("\n");
    lemma_encode_concat(start, "\n"@);
    lemma_encode_concat(start + "\n"@, tail);
    assert(is_ascii_chars("\n"@));
    is_ascii_chars_encode_utf8("\n"@);
    assert("\n"@[0] as u8 == 0x0au8);
    assert(encode_utf8("\n"@) =~= seq![0x0au8]);
}

/// No data URI in base64 and no run of 200 hex digits or more is left in a
/// sanitized result.
pub proof fn lemma_no_blob_remains(s: Seq<char>, max: nat, blob: Blob)
    requires
        byte_len(s) <= usize::MAX,
    ensures
        free_of(blob, encode_utf8(sanitized(s, max))),
{
    let t = without_blobs(s);
    let bytes = encode_utf8(t);
    lemma_without_blobs(blob, s);
    if byte_len(t) > max {
        let head = kept_head(t, max);
        let tail = kept_tail(t, max);
        let n = (byte_len(t) - byte_len(head) - byte_len(tail)) as nat;
        let note = encode_utf8("\n...[truncated "@ + decimal(n) + " bytes]..."@);
        lemma_shortened_bytes(t, max);
        lemma_truncation_note(n);
        lemma_free_part(blob, bytes, 0, byte_len(head) as int);
        lemma_free_part(blob, bytes, byte_len(t) - byte_len(tail), byte_len(t) as int);
        let inner = note.drop_first();
        lemma_free_short(blob, inner);
        let start = encode_utf8(head).push(0x0a) + inner;
        lemma_free_join(blob, encode_utf8(head), 0x0a, inner);
        assert(start =~= encode_utf8(head) + note);
        lemma_free_join(blob, start, 0x0a, encode_utf8(tail));
        assert(start.push(0x0a) + encode_utf8(tail) =~= start + seq![0x0au8] + encode_utf8(tail));
    }
}

/// A result is returned as it is where it holds no blob and is short enough.
pub proof fn lemma_plain_result_unchanged(s: Seq<char>, max: nat)
    requires
        free_of(Blob::Base64Uri, encode_utf8(s)),
        free_of(Blob::Hex, encode_utf8(s)),
        byte_len(s) <= max,
    ensures
        sanitized(s, max) == s,
{
    let bytes = encode_utf8(s);
    lemma_nothing_replaced(Blob::Base64Uri, bytes, 0);
    lemma_nothing_replaced(Blob::Hex, bytes, 0);
    assert(bytes.subrange(0, bytes.len() as int) =~= bytes);
    encode_utf8_decode_utf8(s);
}

proof fn lemma_nothing_replaced(blob: Blob, bytes: Seq<u8>, i: int)
    requires
        free_of(blob, bytes),
        0 <= i <= bytes.len(),
    ensures
        replaced(blob, bytes, i) == bytes.subrange(i, bytes.len() as int),
    decreases bytes.len() - i,
{
    if i < bytes.len() {
        lemma_nothing_replaced(blob, bytes, i + 1);
        assert(blob_end(blob, bytes, i) == i);
    }
    assert(replaced(blob, bytes, i) =~= bytes.subrange(i, bytes.len() as int));
}

/// Sanitizing a sanitized result with the same or a larger limit changes
/// nothing where the result fits the limit.
pub proof fn lemma_sanitized_again(s: Seq<char>, max: nat, again: nat)
    requires
        byte_len(s) <= usize::MAX,
        byte_len(sanitized(s, max)) <= again,
    ensures
        sanitized(sanitized(s, max), again) == sanitized(s, max),
{
    lemma_no_blob_remains(s, max, Blob::Base64Uri);
    lemma_no_blob_remains(s, max, Blob::Hex);
    lemma_plain_result_unchanged(sanitized(s, max), again);
}

/// A sanitized result exceeds the limit by at most 50 bytes: the note of a
/// truncation, and a line break.
pub proof fn lemma_sanitized_len(s: Seq<char>, max: nat)
    requires
        byte_len(s) <= usize::MAX,
    ensures
        byte_len(sanitized(s, max)) <= max + 50,
{
    let t = without_blobs(s);
    lemma_without_blobs(Blob::Hex, s);
    if byte_len(t) > max {
        let n = (byte_len(t) - byte_len(kept_head(t, max)) - byte_len(kept_tail(t, max))) as nat;
        lemma_shortened_bytes(t, max);
        lemma_truncation_note(n);
    }
}

/// A truncation keeps the longest start and the longest end that fit, and drops
/// something.
pub proof fn lemma_truncation_keeps_ends(s: Seq<char>, max: nat)
    requires
        byte_len(s) > max,
    ensures
        kept_head(s, max).is_prefix_of(s),
        kept_head(s, max).is_prefix_of(shortened(s, max)),
        kept_tail(s, max).is_suffix_of(s),
        kept_tail(s, max).len() > 0 ==> kept_tail(s, max).is_suffix_of(shortened(s, max)),
        byte_len(kept_head(s, max)) + byte_len(kept_tail(s, max)) <= max,
        byte_len(kept_head(s, max)) <= DEFAULT_TRUNCATION_HEAD_BYTES,
        byte_len(kept_tail(s, max)) <= DEFAULT_TRUNCATION_TAIL_BYTES,
{
    let head = kept_head(s, max);
    let tail = kept_tail(s, max);
    lemma_prefix_longest(s, smaller_of(DEFAULT_TRUNCATION_HEAD_BYTES as int, max as int));
    lemma_suffix_longest(
        s,
        smaller_of(DEFAULT_TRUNCATION_TAIL_BYTES as int, max - byte_len(head)),
    );
    lemma_shortened_bytes(s, max);
    let r = shortened(s, max);
    assert(head =~= r.take(head.len() as int));
    if tail.len() > 0 {
        assert(tail =~= r.subrange(r.len() - tail.len(), r.len() as int));
    }
}

/// What a limit does, told by the result without one: where that fits, it is the
/// result; otherwise a start and an end of it are kept, which do not overlap and
/// together fit the limit, with a note between them of how much was dropped.
///
/// The text without blobs is what a limit of `usize::MAX` gives; it fits the
/// address space.
pub proof fn lemma_limit_cuts(s: Seq<char>, max: nat)
    requires
        byte_len(without_blobs(s)) <= usize::MAX,
    ensures
        ({
            let whole = sanitized(s, usize::MAX as nat);
            let head = kept_head(whole, max);
            let tail = kept_tail(whole, max);
            let dropped = (byte_len(whole) - byte_len(head) - byte_len(tail)) as nat;
            let note = "\n...[truncated "@ + decimal(dropped) + " bytes]..."@;
            &&& byte_len(whole) <= max ==> sanitized(s, max) == whole
            &&& byte_len(whole) > max ==> {
                &&& sanitized(s, max) == head + note + if tail.len() == 0 {
                    seq![]
                } else {
                    "\n"@ + tail
                }
                &&& head.is_prefix_of(whole)
                &&& tail.is_suffix_of(whole)
                &&& byte_len(head) + byte_len(tail) + dropped == byte_len(whole)
                &&& byte_len(head) + byte_len(tail) <= max
                &&& byte_len(head) <= DEFAULT_TRUNCATION_HEAD_BYTES
                &&& byte_len(tail) <= DEFAULT_TRUNCATION_TAIL_BYTES
            }
        }),
{
    let whole = without_blobs(s);
    if byte_len(whole) > max {
        let head = kept_head(whole, max);
        let tail = kept_tail(whole, max);
        let dropped = (byte_len(whole) - byte_len(head) - byte_len(tail)) as nat;
        let note = "\n...[truncated "@ + decimal(dropped) + " bytes]..."@;
        lemma_truncation_keeps_ends(whole, max);
        lemma_shortened_bytes(whole, max);
        if tail.len() == 0 {
            assert(sanitized(s, max) =~= head + note + seq![]);
        } else {
            assert(sanitized(s, max) =~= head + note + ("\n"@ + tail));
        }
    }
}

/// What a limit leaves of a text without blobs that exceeds it, told by the text
/// alone. The longest start within 10240 bytes and within the limit is kept: every
/// start that fits is part of it, and it leaves at most three bytes unused. So is
/// the longest end within 2048 bytes and within what the start leaves of the
/// limit. A note between them says how many bytes were dropped.
pub proof fn lemma_truncation_keeps_most(s: Seq<char>, max: nat)
    requires
        byte_len(without_blobs(s)) > max,
    ensures
        exists|head: Seq<char>, tail: Seq<char>|
            {
                let most: nat = if max < 10240 { max } else { 10240 };
                let left = max - byte_len(head);
                let rest = if left < 2048 { left } else { 2048 };
                &&& #[trigger] head.is_prefix_of(without_blobs(s))
                &&& #[trigger] tail.is_suffix_of(without_blobs(s))
                &&& most <= byte_len(head) + 3
                &&& byte_len(head) <= most
                &&& rest <= byte_len(tail) + 3
                &&& byte_len(tail) <= rest
                &&& forall|p: Seq<char>| #[trigger]
                    p.is_prefix_of(without_blobs(s)) && byte_len(p) <= most ==> p.is_prefix_of(head)
                &&& forall|p: Seq<char>| #[trigger]
                    p.is_suffix_of(without_blobs(s)) && byte_len(p) <= rest ==> p.is_suffix_of(tail)
                &&& sanitized(s, max) == head + "\n...[truncated "@ + decimal(
                    (byte_len(without_blobs(s)) - byte_len(head) - byte_len(tail)) as nat,
                ) + " bytes]..."@ + if tail.len() == 0 {
                    seq![]
                } else {
                    "\n"@ + tail
                }
            },
{
    let whole = without_blobs(s);
    let head = kept_head(whole, max);
    let tail = kept_tail(whole, max);
    let most = smaller_of(DEFAULT_TRUNCATION_HEAD_BYTES as int, max as int);
    lemma_prefix_longest(whole, most);
    lemma_prefix_maximal(whole, most);
    let rest = smaller_of(DEFAULT_TRUNCATION_TAIL_BYTES as int, max - byte_len(head));
    lemma_suffix_longest(whole, rest);
    lemma_suffix_maximal(whole, rest);
    let dropped = (byte_len(whole) - byte_len(head) - byte_len(tail)) as nat;
    let start = head + "\n...[truncated "@ + decimal(dropped) + " bytes]..."@;
    if tail.len() == 0 {
        assert(sanitized(s, max) =~= start + seq![]);
    } else {
        assert(sanitized(s, max) =~= start + ("\n"@ + tail));
    }
    assert(head.is_prefix_of(whole) && tail.is_suffix_of(whole));
}

/// What a limit keeps, told by two results: every start of the result without a
/// limit, within 10240 bytes and the limit, is a start of the result with it; and
/// where it fits the limit, it is the result.
pub proof fn lemma_limit_keeps_starts(s: Seq<char>, max: nat, p: Seq<char>)
    requires
        p.is_prefix_of(without_blobs(s)),
        byte_len(p) <= 10240,
        byte_len(p) <= max,
    ensures
        p.is_prefix_of(sanitized(s, max)),
        byte_len(without_blobs(s)) <= max ==> sanitized(s, max) == without_blobs(s),
{
    let whole = without_blobs(s);
    if byte_len(whole) > max {
        let head = kept_head(whole, max);
        let r = sanitized(s, max);
        lemma_prefix_maximal(whole, smaller_of(DEFAULT_TRUNCATION_HEAD_BYTES as int, max as int));
        lemma_truncation_keeps_ends(whole, max);
        assert(p.is_prefix_of(head));
        assert(p =~= r.take(p.len() as int));
    }
}

/// Where the result without a limit fits one, sanitizing with that limit twice
/// gives what sanitizing once gives.
pub proof fn lemma_sanitized_twice(s: Seq<char>, max: nat)
    requires
        byte_len(s) <= usize::MAX,
        byte_len(without_blobs(s)) <= usize::MAX,
        byte_len(sanitized(s, usize::MAX as nat)) <= max,
    ensures
        sanitized(sanitized(s, max), max) == sanitized(s, max),
{
    lemma_limit_cuts(s, max);
    lemma_sanitized_again(s, max, max);
}

// ---------------------------------------------------------------------------
// What stripping does to a text, piece by piece
// ---------------------------------------------------------------------------

/// Whether a byte is in no blob of some kind.
spec fn splits(blob: Blob, b: u8) -> bool {
    match blob {
        Blob::Hex => !in_class(Class::Hex, b),
        Blob::Base64Uri => !in_class(Class::Media, b) && !in_class(Class::Base64, b) && b != 0x3a
            && b != 0x3b && b != 0x2c,
    }
}

/// A literal stands in a part where it stands in the whole, and does not reach
/// over the byte behind the part.
proof fn lemma_stands_in_part(literal: Seq<u8>, bytes: Seq<u8>, from: int, to: int, i: int)
    requires
        0 <= from <= from + i <= to <= bytes.len(),
        to < bytes.len() ==> forall|k: int| 0 <= k < literal.len() ==> #[trigger] literal[k]
            != bytes[to],
    ensures
        stands_at(literal, bytes.subrange(from, to), i) == stands_at(literal, bytes, from + i),
{
    let part = bytes.subrange(from, to);
    let at = from + i;
    if stands_at(literal, part, i) {
        assert forall|k: int| 0 <= k < literal.len() implies bytes[at + k]
            == #[trigger] literal[k] by {
            assert(part[i + k] == literal[k]);
        }
    }
    if stands_at(literal, bytes, at) {
        if at + literal.len() > to {
            assert(bytes[at + (to - at)] == literal[to - at]);
        }
        assert forall|k: int| 0 <= k < literal.len() implies part[i + k] == #[trigger] literal[k] by {
            assert(bytes[at + k] == literal[k]);
        }
    }
}

/// A part that no blob reaches over has the blobs of the whole.
proof fn lemma_blob_of_part(blob: Blob, bytes: Seq<u8>, from: int, to: int, i: int)
    requires
        0 <= from <= from + i < to <= bytes.len(),
        to < bytes.len() ==> splits(blob, bytes[to]),
    ensures
        from + blob_end(blob, bytes.subrange(from, to), i) == blob_end(blob, bytes, from + i),
{
    let part = bytes.subrange(from, to);
    let at = from + i;
    match blob {
        Blob::Hex => {
            lemma_run_of_part(Class::Hex, bytes, from, to, i);
        },
        Blob::Base64Uri => {
            lemma_stands_in_part(uri_start(), bytes, from, to, i);
            if stands_at(uri_start(), part, i) {
                let media = run_end(Class::Media, part, i + 5);
                lemma_run_end(Class::Media, part, i + 5);
                lemma_run_of_part(Class::Media, bytes, from, to, i + 5);
                lemma_stands_in_part(uri_middle(), bytes, from, to, media);
                if stands_at(uri_middle(), part, media) {
                    lemma_run_of_part(Class::Base64, bytes, from, to, media + 8);
                }
            }
        },
    }
}

/// Replacing from some point on is replacing in what is left from there.
proof fn lemma_replaced_rest(blob: Blob, bytes: Seq<u8>, from: int, i: int)
    requires
        0 <= from <= from + i <= bytes.len(),
    ensures
        replaced(blob, bytes, from + i) == replaced(
            blob,
            bytes.subrange(from, bytes.len() as int),
            i,
        ),
    decreases bytes.len() - from - i,
{
    let len = bytes.len() as int;
    let part = bytes.subrange(from, len);
    if from + i < len {
        lemma_blob_of_part(blob, bytes, from, len, i);
        lemma_blob_end(blob, part, i);
        let end = blob_end(blob, part, i);
        if end > i {
            lemma_replaced_rest(blob, bytes, from, end);
        } else {
            lemma_replaced_rest(blob, bytes, from, i + 1);
        }
    }
}

/// Replacing in a whole is replacing in a start that no blob reaches over, and
/// going on from there.
proof fn lemma_replaced_start(blob: Blob, bytes: Seq<u8>, to: int, i: int)
    requires
        0 <= i <= to <= bytes.len(),
        to < bytes.len() ==> splits(blob, bytes[to]),
    ensures
        replaced(blob, bytes, i) == replaced(blob, bytes.subrange(0, to), i) + replaced(
            blob,
            bytes,
            to,
        ),
    decreases to - i,
{
    let part = bytes.subrange(0, to);
    if i < to {
        lemma_blob_of_part(blob, bytes, 0, to, i);
        lemma_blob_end(blob, part, i);
        let end = blob_end(blob, part, i);
        if end > i {
            lemma_replaced_start(blob, bytes, to, end);
        } else {
            lemma_replaced_start(blob, bytes, to, i + 1);
        }
        assert(replaced(blob, bytes, i) =~= replaced(blob, part, i) + replaced(blob, bytes, to));
    } else {
        assert(replaced(blob, bytes, i) =~= replaced(blob, part, i) + replaced(blob, bytes, to));
    }
}

/// A byte that is in no blob is kept, and parts the text.
proof fn lemma_replaced_join(blob: Blob, a: Seq<u8>, c: u8, b: Seq<u8>)
    requires
        splits(blob, c),
    ensures
        replaced(blob, a + seq![c] + b, 0) == replaced(blob, a, 0) + seq![c] + replaced(blob, b, 0),
{
    let all = a + seq![c] + b;
    let mid = a.len() as int;
    assert(all[mid] == c);
    lemma_replaced_start(blob, all, mid, 0);
    assert(all.subrange(0, mid) =~= a);
    assert(blob_end(blob, all, mid) == mid) by {
        lemma_blob_end(blob, all, mid);
        match blob {
            Blob::Hex => {},
            Blob::Base64Uri => {
                if stands_at(uri_start(), all, mid) {
                    assert(all[mid + 0] == uri_start()[0]);
                }
            },
        }
    }
    lemma_replaced_rest(blob, all, mid + 1, 0);
    assert(all.subrange(mid + 1, all.len() as int) =~= b);
    assert(replaced(blob, all, 0) =~= replaced(blob, a, 0) + seq![c] + replaced(blob, b, 0));
}

/// Stripping, in bytes.
proof fn lemma_stripped_bytes(blob: Blob, s: Seq<char>)
    requires
        byte_len(s) < pow(10, 24),
    ensures
        encode_utf8(stripped(blob, s)) == replaced(blob, encode_utf8(s), 0),
        byte_len(stripped(blob, s)) <= 64 * byte_len(s),
{
    encode_utf8_valid_utf8(s);
    is_char_boundary_start_end_of_seq(encode_utf8(s));
    lemma_free_replaced(blob, blob, encode_utf8(s), 0);
    decode_utf8_encode_utf8(replaced(blob, encode_utf8(s), 0));
}

/// Texts of the same bytes are the same.
proof fn lemma_same_bytes(s: Seq<char>, t: Seq<char>)
    requires
        encode_utf8(s) == encode_utf8(t),
    ensures
        s == t,
{
    encode_utf8_decode_utf8(s);
    encode_utf8_decode_utf8(t);
}

/// Whether a character is a hex digit.
pub open spec fn is_hex_digit(c: char) -> bool {
    '0' <= c <= '9' || 'a' <= c <= 'f' || 'A' <= c <= 'F'
}

/// Whether a character is one of the base64 alphabet or its padding.
pub open spec fn is_base64(c: char) -> bool {
    '0' <= c <= '9' || 'a' <= c <= 'z' || 'A' <= c <= 'Z' || c == '+' || c == '/' || c == '='
}

/// Whether a character may stand in a media type.
pub open spec fn is_media(c: char) -> bool {
    '0' <= c <= '9' || 'a' <= c <= 'z' || 'A' <= c <= 'Z' || c == '/' || c == '+' || c == '-' || c
        == '.'
}

/// Whether a character is an ASCII character that is in no blob of some kind.
pub open spec fn separates(blob: Blob, c: char) -> bool {
    &&& c <= '\u{7f}'
    &&& match blob {
        Blob::Hex => !is_hex_digit(c),
        Blob::Base64Uri => !is_base64(c) && !is_media(c) && c != ':' && c != ';' && c != ',',
    }
}

/// The byte of an ASCII character.
proof fn lemma_ascii_char(c: char)
    requires
        c <= '\u{7f}',
    ensures
        encode_utf8(seq![c]) == seq![c as u8],
        in_class(Class::Hex, c as u8) == is_hex_digit(c),
        in_class(Class::Base64, c as u8) == is_base64(c),
        in_class(Class::Media, c as u8) == is_media(c),
        separates(Blob::Hex, c) ==> splits(Blob::Hex, c as u8),
        separates(Blob::Base64Uri, c) ==> splits(Blob::Base64Uri, c as u8),
{
    assert(is_ascii_chars(seq![c]));
    is_ascii_chars_encode_utf8(seq![c]);
    assert(encode_utf8(seq![c]) =~= seq![c as u8]);
}

/// A character that no blob contains stays, and what is before and after it is
/// stripped as if it stood alone.
pub proof fn lemma_separator_parts(blob: Blob, a: Seq<char>, c: char, b: Seq<char>)
    requires
        byte_len(a + seq![c] + b) <= usize::MAX,
        separates(blob, c),
    ensures
        stripped(blob, a + seq![c] + b) == stripped(blob, a) + seq![c] + stripped(blob, b),
{
    lemma_sizes();
    lemma_encode_concat(a, seq![c]);
    lemma_encode_concat(a + seq![c], b);
    lemma_ascii_char(c);
    lemma_stripped_bytes(blob, a);
    lemma_stripped_bytes(blob, b);
    lemma_stripped_bytes(blob, a + seq![c] + b);
    lemma_replaced_join(blob, encode_utf8(a), c as u8, encode_utf8(b));
    lemma_encode_concat(stripped(blob, a), seq![c]);
    lemma_encode_concat(stripped(blob, a) + seq![c], stripped(blob, b));
    lemma_same_bytes(
        stripped(blob, a + seq![c] + b),
        stripped(blob, a) + seq![c] + stripped(blob, b),
    );
}

/// A run of ASCII characters of a class that ends where the text does or where a
/// character of another kind stands.
proof fn lemma_run_is(class: Class, bytes: Seq<u8>, i: int, end: int)
    requires
        0 <= i <= end <= bytes.len(),
        forall|k: int| i <= k < end ==> in_class(class, #[trigger] bytes[k]),
        end < bytes.len() ==> !in_class(class, bytes[end]),
    ensures
        run_end(class, bytes, i) == end,
{
    lemma_run_end(class, bytes, i);
    let found = run_end(class, bytes, i);
    if found < end {
        assert(in_class(class, bytes[found]));
    }
    if found > end {
        assert(in_class(class, bytes[end]));
    }
}

/// A run of hex digits, up to another ASCII character or the end, is replaced by a
/// note of its length where it has 200 digits or more, and stays otherwise; what
/// follows is stripped as if it stood alone.
pub proof fn lemma_hex_run(h: Seq<char>, b: Seq<char>)
    requires
        byte_len(h + b) <= usize::MAX,
        forall|i: int| 0 <= i < h.len() ==> is_hex_digit(#[trigger] h[i]),
        b.len() > 0 ==> b[0] <= '\u{7f}' && !is_hex_digit(b[0]),
    ensures
        stripped(Blob::Hex, h + b) == if h.len() >= 200 {
            "[hex data removed, "@ + decimal(h.len()) + " chars]"@
        } else {
            h
        } + stripped(Blob::Hex, b),
{
    let blob = Blob::Hex;
    lemma_sizes();
    lemma_encode_concat(h, b);
    assert(is_ascii_chars(h));
    is_ascii_chars_encode_utf8(h);
    let hex = encode_utf8(h);
    let rest = encode_utf8(b);
    let all = hex + rest;
    let to = hex.len() as int;
    if b.len() > 0 {
        assert(b =~= seq![b[0]] + b.drop_first());
        lemma_encode_concat(seq![b[0]], b.drop_first());
        lemma_ascii_char(b[0]);
        assert(all[to] == b[0] as u8);
    } else {
        assert(rest =~= Seq::empty());
    }
    assert forall|k: int| 0 <= k < to implies in_class(Class::Hex, #[trigger] all[k]) by {
        lemma_ascii_char(h[k]);
    }
    lemma_replaced_rest(blob, all, to, 0);
    assert(all.subrange(to, all.len() as int) =~= rest);
    lemma_stripped_bytes(blob, b);
    lemma_stripped_bytes(blob, h + b);
    if h.len() >= 200 {
        let mark = placeholder(blob, h.len());
        lemma_run_is(Class::Hex, all, 0, to);
        assert(replaced(blob, all, 0) == encode_utf8(mark) + replaced(blob, rest, 0));
        lemma_encode_concat(mark, stripped(blob, b));
        lemma_same_bytes(stripped(blob, h + b), mark + stripped(blob, b));
    } else {
        lemma_replaced_start(blob, all, to, 0);
        assert(all.subrange(0, to) =~= hex);
        assert forall|k: int| 0 <= k < to implies #[trigger] hex[k] != 0x3a by {
            assert(in_class(Class::Hex, all[k]));
        }
        lemma_free_short(blob, hex);
        lemma_nothing_replaced(blob, hex, 0);
        assert(hex.subrange(0, to) =~= hex);
        lemma_encode_concat(h, stripped(blob, b));
        lemma_same_bytes(stripped(blob, h + b), h + stripped(blob, b));
    }
}

/// A data URI in base64, up to another ASCII character or the end, is replaced by a
/// note of its length; what follows is stripped as if it stood alone.
pub proof fn lemma_data_uri(media: Seq<char>, data: Seq<char>, b: Seq<char>)
    requires
        byte_len("data:"@ + media + ";base64,"@ + data + b) <= usize::MAX,
        media.len() > 0,
        data.len() > 0,
        forall|i: int| 0 <= i < media.len() ==> is_media(#[trigger] media[i]),
        forall|i: int| 0 <= i < data.len() ==> is_base64(#[trigger] data[i]),
        b.len() > 0 ==> b[0] <= '\u{7f}' && !is_base64(b[0]),
    ensures
        stripped(Blob::Base64Uri, "data:"@ + media + ";base64,"@ + data + b)
            == "[base64 data removed, "@ + decimal(5 + media.len() + 8 + data.len()) + " bytes]"@
            + stripped(Blob::Base64Uri, b),
{
    let blob = Blob::Base64Uri;
    let uri = "data:"@ + media + ";base64,"@ + data;
    let s = uri + b;
    reveal_strlit("data:");
    reveal_strlit(";base64,");
    lemma_sizes();
    lemma_encode_concat(uri, b);
    assert(is_ascii_chars(uri));
    is_ascii_chars_encode_utf8(uri);
    let front = encode_utf8(uri);
    let rest = encode_utf8(b);
    let all = front + rest;
    let to = front.len() as int;
    assert(to == 5 + media.len() + 8 + data.len());
    if b.len() > 0 {
        assert(b =~= seq![b[0]] + b.drop_first());
        lemma_encode_concat(seq![b[0]], b.drop_first());
        lemma_ascii_char(b[0]);
        assert(all[to] == b[0] as u8);
    } else {
        assert(rest =~= Seq::empty());
    }
    let mid = (5 + media.len()) as int;
    assert forall|k: int| 5 <= k < mid implies in_class(Class::Media, #[trigger] all[k]) by {
        assert(uri[k] == media[k - 5]);
        lemma_ascii_char(uri[k]);
    }
    assert forall|k: int| mid + 8 <= k < to implies in_class(Class::Base64, #[trigger] all[k]) by {
        assert(uri[k] == data[k - mid - 8]);
        lemma_ascii_char(uri[k]);
    }
    assert(stands_at(uri_start(), all, 0)) by {
        assert(uri[0] == 'd' && uri[1] == 'a' && uri[2] == 't' && uri[3] == 'a' && uri[4] == ':');
        assert forall|k: int| 0 <= k < uri_start().len() implies all[0 + k]
            == #[trigger] uri_start()[k] by {
            assert(front[k] == uri[k] as u8);
        }
    }
    assert(stands_at(uri_middle(), all, mid)) by {
        assert(uri[mid] == ';' && uri[mid + 1] == 'b' && uri[mid + 2] == 'a' && uri[mid + 3] == 's'
            && uri[mid + 4] == 'e' && uri[mid + 5] == '6' && uri[mid + 6] == '4' && uri[mid + 7]
            == ',');
        assert forall|k: int| 0 <= k < uri_middle().len() implies all[mid + k]
            == #[trigger] uri_middle()[k] by {
            assert(front[mid + k] == uri[mid + k] as u8);
        }
    }
    assert(all[mid + 0] == uri_middle()[0]);
    lemma_run_is(Class::Media, all, 5, mid);
    lemma_run_is(Class::Base64, all, mid + 8, to);
    assert(blob_end(blob, all, 0) == to);
    lemma_replaced_rest(blob, all, to, 0);
    assert(all.subrange(to, all.len() as int) =~= rest);
    let mark = placeholder(blob, to as nat);
    assert(replaced(blob, all, 0) == encode_utf8(mark) + replaced(blob, rest, 0));
    lemma_stripped_bytes(blob, b);
    lemma_stripped_bytes(blob, s);
    lemma_encode_concat(mark, stripped(blob, b));
    lemma_same_bytes(stripped(blob, s), mark + stripped(blob, b));
}

/// Whether 200 hex digits stand at `i`.
pub open spec fn hex_stands_at(bytes: Seq<u8>, i: int) -> bool {
    &&& 0 <= i
    &&& i + 200 <= bytes.len()
    &&& forall|k: int|
        i <= k < i + 200 ==> 0x30 <= #[trigger] bytes[k] <= 0x39 || 0x41 <= bytes[k] <= 0x46 || 0x61
            <= bytes[k] <= 0x66
}

/// Whether `data:` stands at `i`.
pub open spec fn data_stands_at(bytes: Seq<u8>, i: int) -> bool {
    &&& 0 <= i
    &&& i + 5 <= bytes.len()
    &&& bytes[i] == 0x64 && bytes[i + 1] == 0x61 && bytes[i + 2] == 0x74 && bytes[i + 3] == 0x61
        && bytes[i + 4] == 0x3a
}

/// Whether a data URI in base64 stands at `i`, with a media type up to `m`.
pub open spec fn uri_stands_at(bytes: Seq<u8>, i: int, m: int) -> bool {
    let letter_or_digit = |b: u8| 0x30 <= b <= 0x39 || 0x41 <= b <= 0x5a || 0x61 <= b <= 0x7a;
    &&& data_stands_at(bytes, i)
    &&& i + 5 < m
    &&& m + 8 < bytes.len()
    &&& forall|k: int|
        i + 5 <= k < m ==> letter_or_digit(#[trigger] bytes[k]) || bytes[k] == 0x2f || bytes[k]
            == 0x2b || bytes[k] == 0x2d || bytes[k] == 0x2e
    &&& bytes[m] == 0x3b && bytes[m + 1] == 0x62 && bytes[m + 2] == 0x61 && bytes[m + 3] == 0x73
        && bytes[m + 4] == 0x65 && bytes[m + 5] == 0x36 && bytes[m + 6] == 0x34 && bytes[m + 7]
        == 0x2c
    &&& letter_or_digit(bytes[m + 8]) || bytes[m + 8] == 0x2f || bytes[m + 8] == 0x2b || bytes[m
        + 8] == 0x3d
}

/// Nowhere in a sanitized result do 200 hex digits stand in a row, and nowhere a
/// data URI in base64.
pub proof fn lemma_nothing_binary_remains(s: Seq<char>, max: nat)
    requires
        byte_len(s) <= usize::MAX,
    ensures
        forall|i: int| !#[trigger] hex_stands_at(encode_utf8(sanitized(s, max)), i),
        forall|i: int, m: int| !#[trigger] uri_stands_at(encode_utf8(sanitized(s, max)), i, m),
{
    let out = encode_utf8(sanitized(s, max));
    lemma_no_blob_remains(s, max, Blob::Hex);
    lemma_no_blob_remains(s, max, Blob::Base64Uri);
    assert forall|i: int| !#[trigger] hex_stands_at(out, i) by {
        if hex_stands_at(out, i) {
            assert(blob_end(Blob::Hex, out, i) == i);
            lemma_run_end(Class::Hex, out, i);
            let end = run_end(Class::Hex, out, i);
            assert(end < i + 200);
            assert(in_class(Class::Hex, out[end]));
        }
    }
    assert forall|i: int, m: int| !#[trigger] uri_stands_at(out, i, m) by {
        if uri_stands_at(out, i, m) {
            assert(blob_end(Blob::Base64Uri, out, i) == i);
            assert forall|k: int| i + 5 <= k < m implies in_class(
                Class::Media,
                #[trigger] out[k],
            ) by {}
            lemma_run_is(Class::Media, out, i + 5, m);
            lemma_run_end(Class::Base64, out, m + 8);
            assert(run_end(Class::Base64, out, m + 8) > m + 8);
            assert(stands_at(uri_start(), out, i));
            assert(stands_at(uri_middle(), out, m));
        }
    }
}

/// A result in which `data:` stands nowhere, and nowhere 200 hex digits in a row,
/// stays as it is up to the limit.
pub proof fn lemma_plain_result_stays(s: Seq<char>, max: nat)
    requires
        byte_len(s) <= max,
        forall|i: int| !#[trigger] hex_stands_at(encode_utf8(s), i),
        forall|i: int| !#[trigger] data_stands_at(encode_utf8(s), i),
    ensures
        sanitized(s, max) == s,
{
    let bytes = encode_utf8(s);
    assert forall|i: int| 0 <= i < bytes.len() implies #[trigger] blob_end(Blob::Hex, bytes, i)
        == i by {
        lemma_run_end(Class::Hex, bytes, i);
        if run_end(Class::Hex, bytes, i) >= i + 200 {
            assert forall|k: int| i <= k < i + 200 implies 0x30 <= #[trigger] bytes[k] <= 0x39 || 0x41
                <= bytes[k] <= 0x46 || 0x61 <= bytes[k] <= 0x66 by {
                assert(in_class(Class::Hex, bytes[k]));
            }
            assert(hex_stands_at(bytes, i));
        }
    }
    assert forall|i: int| 0 <= i < bytes.len() implies #[trigger] blob_end(
        Blob::Base64Uri,
        bytes,
        i,
    ) == i by {
        if stands_at(uri_start(), bytes, i) {
            assert(bytes[i + 0] == uri_start()[0] && bytes[i + 1] == uri_start()[1] && bytes[i + 2]
                == uri_start()[2] && bytes[i + 3] == uri_start()[3] && bytes[i + 4]
                == uri_start()[4]);
            assert(data_stands_at(bytes, i));
        }
    }
    lemma_plain_result_unchanged(s, max);
}

/// In the text without blobs, a character that no blob contains stays, and what is
/// before and after it is freed of blobs as if it stood alone.
pub proof fn lemma_separator_parts_result(a: Seq<char>, c: char, b: Seq<char>)
    requires
        byte_len(a + seq![c] + b) <= usize::MAX,
        separates(Blob::Base64Uri, c),
    ensures
        without_blobs(a + seq![c] + b) == without_blobs(a) + seq![c] + without_blobs(b),
{
    let blob = Blob::Hex;
    lemma_sizes();
    lemma_separator_parts(Blob::Base64Uri, a, c, b);
    lemma_encode_concat(a, seq![c]);
    lemma_encode_concat(a + seq![c], b);
    lemma_ascii_char(c);
    let (x, y) = (stripped(Blob::Base64Uri, a), stripped(Blob::Base64Uri, b));
    lemma_stripped_bytes(Blob::Base64Uri, a);
    lemma_stripped_bytes(Blob::Base64Uri, b);
    lemma_encode_concat(x, seq![c]);
    lemma_encode_concat(x + seq![c], y);
    lemma_stripped_bytes(blob, x);
    lemma_stripped_bytes(blob, y);
    lemma_stripped_bytes(blob, x + seq![c] + y);
    lemma_replaced_join(blob, encode_utf8(x), c as u8, encode_utf8(y));
    lemma_encode_concat(stripped(blob, x), seq![c]);
    lemma_encode_concat(stripped(blob, x) + seq![c], stripped(blob, y));
    lemma_same_bytes(
        stripped(blob, x + seq![c] + y),
        stripped(blob, x) + seq![c] + stripped(blob, y),
    );
}

/// A data URI in base64 alone, and 200 hex digits or more alone, are replaced by a
/// note of their length.
pub proof fn lemma_blob_alone(media: Seq<char>, data: Seq<char>, h: Seq<char>)
    requires
        byte_len("data:"@ + media + ";base64,"@ + data) <= usize::MAX,
        byte_len(h) <= usize::MAX,
        media.len() > 0,
        data.len() > 0,
        h.len() >= 200,
        forall|i: int| 0 <= i < media.len() ==> is_media(#[trigger] media[i]),
        forall|i: int| 0 <= i < data.len() ==> is_base64(#[trigger] data[i]),
        forall|i: int| 0 <= i < h.len() ==> is_hex_digit(#[trigger] h[i]),
    ensures
        without_blobs("data:"@ + media + ";base64,"@ + data) == "[base64 data removed, "@ + decimal(
            5 + media.len() + 8 + data.len(),
        ) + " bytes]"@,
        without_blobs(h) == "[hex data removed, "@ + decimal(h.len()) + " chars]"@,
{
    let none = Seq::<char>::empty();
    let uri = "data:"@ + media + ";base64,"@ + data;
    lemma_sizes();
    reveal_strlit("data:");
    reveal_strlit(";base64,");
    assert(is_ascii_chars(uri));
    is_ascii_chars_encode_utf8(uri);
    assert(is_ascii_chars(h));
    is_ascii_chars_encode_utf8(h);
    assert(uri + none =~= uri);
    assert(h + none =~= h);
    lemma_data_uri(media, data, none);
    lemma_hex_run(h, none);
    lemma_nothing_stripped(Blob::Base64Uri, none);
    lemma_nothing_stripped(Blob::Hex, none);
    let mark = placeholder(Blob::Base64Uri, uri.len());
    assert(mark + none =~= mark);
    lemma_placeholder(Blob::Base64Uri, uri.len());
    lemma_free_short(Blob::Hex, encode_utf8(mark));
    lemma_nothing_stripped(Blob::Hex, mark);
    assert forall|i: int| 0 <= i < encode_utf8(h).len() implies #[trigger] blob_end(
        Blob::Base64Uri,
        encode_utf8(h),
        i,
    ) == i by {
        if stands_at(uri_start(), encode_utf8(h), i) {
            assert(encode_utf8(h)[i + 4] == uri_start()[4]);
            assert(h[i + 4] as u8 == 0x3a);
            assert(is_hex_digit(h[i + 4]));
        }
    }
    lemma_nothing_stripped(Blob::Base64Uri, h);
    let note = "[hex data removed, "@ + decimal(h.len()) + " chars]"@;
    assert(note + none =~= note);
}

/// A text without blobs is not changed by stripping.
proof fn lemma_nothing_stripped(blob: Blob, s: Seq<char>)
    requires
        free_of(blob, encode_utf8(s)),
    ensures
        stripped(blob, s) == s,
{
    let bytes = encode_utf8(s);
    lemma_nothing_replaced(blob, bytes, 0);
    assert(bytes.subrange(0, bytes.len() as int) =~= bytes);
    encode_utf8_decode_utf8(s);
}

// ---------------------------------------------------------------------------
// What holds of every budget
// ---------------------------------------------------------------------------

/// A budget is never under the minimum, and over it never above the given
/// limit, and all pending results together never above the remaining bytes.
pub proof fn lemma_budget_bounds(limit: usize, used: usize, pending: usize, max_bytes: usize)
    ensures
        ({
            let budget = result_budget(limit, used, pending, max_bytes);
            &&& budget >= MIN_RESULT_BUDGET
            &&& budget > MIN_RESULT_BUDGET ==> {
                &&& budget <= max_bytes
                &&& budget * larger_of(pending as int, 1) <= remaining_tokens(limit, used)
                    * BYTES_PER_TOKEN
            }
        }),
{
    let budget = result_budget(limit, used, pending, max_bytes);
    let total = (remaining_tokens(limit, used) * BYTES_PER_TOKEN) as nat;
    let count = larger_of(pending as int, 1);
    let each = fair_bytes(limit, used, pending);
    assert(each * count <= total) by (nonlinear_arith)
        requires
            each == total / count,
            count >= 1,
    ;
    if budget > MIN_RESULT_BUDGET {
        assert(budget * count <= each * count) by (nonlinear_arith)
            requires
                budget <= each,
                count >= 1,
        ;
    }
}

/// A budget with a share is never under the minimum, never above the budget
/// without one, and over the minimum never above the share.
pub proof fn lemma_shared_budget_bounds(
    limit: usize,
    used: usize,
    pending: usize,
    max_bytes: usize,
    fraction: Number,
)
    ensures
        ({
            let budget = shared_budget(limit, used, pending, max_bytes, fraction);
            &&& MIN_RESULT_BUDGET <= budget <= result_budget(limit, used, pending, max_bytes)
            &&& budget > MIN_RESULT_BUDGET ==> budget <= share_bytes(limit, fraction)
        }),
{
}

/// The budget is the most that the limit per result and a fair part of what is
/// left allow, four bytes to a token, but never under 1024: every other amount
/// that both allow is no larger, and over 1024 both allow it.
pub proof fn lemma_budget_is_largest(
    limit: usize,
    used: usize,
    pending: usize,
    max_bytes: usize,
    n: nat,
)
    ensures
        ({
            let budget = result_budget(limit, used, pending, max_bytes);
            let left: nat = if limit > used { (limit - used) as nat } else { 0 };
            let count: nat = if pending == 0 { 1 } else { pending as nat };
            &&& budget >= 1024
            &&& n <= max_bytes && n * count <= 4 * left ==> n <= budget
            &&& budget > 1024 ==> budget <= max_bytes && budget * count <= 4 * left
        }),
{
    let left = remaining_tokens(limit, used);
    let count = larger_of(pending as int, 1);
    let each = fair_bytes(limit, used, pending);
    lemma_budget_bounds(limit, used, pending, max_bytes);
    if n * count <= 4 * left {
        assert(n <= each) by (nonlinear_arith)
            requires
                n * count <= 4 * left,
                each == (4 * left) / count,
                count >= 1,
        ;
    }
}

/// The budget with a share is the most that the budget without one and the share
/// of the context window allow, four bytes to a token, but never under 1024. The
/// share is the limit times the fraction, rounded to one of the two whole numbers
/// of tokens around it; amounts are compared in units of the fraction.
pub proof fn lemma_shared_budget_is_largest(
    limit: usize,
    used: usize,
    pending: usize,
    max_bytes: usize,
    units: nat,
    k: nat,
    n: nat,
)
    requires
        limit <= 0x1_0000_0000,
        k < 0x20_0000_0000_0000,
        k <= usize::MAX,
    ensures
        ({
            let fraction = Number::Finite { negative: false, units };
            let budget = shared_budget(limit, used, pending, max_bytes, fraction);
            let without = result_budget(limit, used, pending, max_bytes);
            &&& budget >= 1024
            &&& n <= without && n <= 4 * k && k * pow2(1074) <= limit * units ==> n <= budget
            &&& budget > 1024 ==> budget <= without
            &&& budget > 1024 && limit * units <= k * pow2(1074) ==> budget <= 4 * k
        }),
{
    lemma_rounded_exact(limit as nat);
    lemma_scaled(limit as nat, 1, units, k);
}

/// No pending result counts as one.
pub proof fn lemma_budget_no_pending(limit: usize, used: usize, max_bytes: usize)
    ensures
        result_budget(limit, used, 0, max_bytes) == result_budget(limit, used, 1, max_bytes),
{
}

/// The budget does not grow as more of the context is used, or as more results
/// are pending, and does not shrink as the limit per result grows.
pub proof fn lemma_budget_monotone(
    limit: usize,
    used: usize,
    more_used: usize,
    pending: usize,
    more_pending: usize,
    max_bytes: usize,
    larger_max: usize,
)
    requires
        used <= more_used,
        pending <= more_pending,
        max_bytes <= larger_max,
    ensures
        result_budget(limit, more_used, more_pending, max_bytes) <= result_budget(
            limit,
            used,
            pending,
            larger_max,
        ),
{
    let a = (remaining_tokens(limit, more_used) * BYTES_PER_TOKEN) as nat;
    let b = (remaining_tokens(limit, used) * BYTES_PER_TOKEN) as nat;
    let m = larger_of(more_pending as int, 1);
    let n = larger_of(pending as int, 1);
    assert(a / m <= b / n) by (nonlinear_arith)
        requires
            a <= b,
            1 <= n <= m,
    ;
}

/// The same holds of the budget with a share.
pub proof fn lemma_shared_budget_monotone(
    limit: usize,
    used: usize,
    more_used: usize,
    pending: usize,
    more_pending: usize,
    max_bytes: usize,
    larger_max: usize,
    fraction: Number,
)
    requires
        used <= more_used,
        pending <= more_pending,
        max_bytes <= larger_max,
    ensures
        shared_budget(limit, more_used, more_pending, max_bytes, fraction) <= shared_budget(
            limit,
            used,
            pending,
            larger_max,
            fraction,
        ),
{
    lemma_budget_monotone(
        limit,
        used,
        more_used,
        pending,
        more_pending,
        max_bytes,
        larger_max,
    );
}

} // verus!
