//! Text: white space, words, decimal numbers and cuts at character boundaries.

use vstd::arithmetic::power::pow;
use vstd::prelude::*;
use vstd::utf8::{
    decode_utf8_split, encode_utf8, encode_utf8_decode_utf8, encode_utf8_valid_utf8,
    is_char_boundary, is_char_boundary_start_end_of_seq,
};

verus! {

/// `String::push`: appends one character to the end of the string.
pub assume_specification[ String::push ](s: &mut String, c: char)
    ensures
        final(s)@ == old(s)@.push(c),
;

/// The characters with the Unicode property `White_Space`.
pub open spec fn is_white_space(c: char) -> bool {
    let u = c as u32;
    ||| 0x9 <= u <= 0xd
    ||| u == 0x20
    ||| u == 0x85
    ||| u == 0xa0
    ||| u == 0x1680
    ||| 0x2000 <= u <= 0x200a
    ||| u == 0x2028
    ||| u == 0x2029
    ||| u == 0x202f
    ||| u == 0x205f
    ||| u == 0x3000
}

/// Whether `c` is white space.
pub fn white_space(c: char) -> (r: bool)
    ensures
        r == is_white_space(c),
{
    let u: u32 = c as u32;
    (0x9 <= u && u <= 0xd) || u == 0x20 || u == 0x85 || u == 0xa0 || u == 0x1680 || (0x2000 <= u
        && u <= 0x200a) || u == 0x2028 || u == 0x2029 || u == 0x202f || u == 0x205f || u == 0x3000
}

/// The number of characters before the first white space.
pub open spec fn word_len(s: Seq<char>) -> nat
    decreases s.len(),
{
    if s.len() == 0 || is_white_space(s[0]) {
        0
    } else {
        1 + word_len(s.drop_first())
    }
}

/// What the first word ends at.
pub proof fn lemma_word_len(s: Seq<char>)
    ensures
        word_len(s) <= s.len(),
        forall|i: int| 0 <= i < word_len(s) ==> !is_white_space(#[trigger] s[i]),
        word_len(s) < s.len() ==> is_white_space(s[word_len(s) as int]),
    decreases s.len(),
{
    if s.len() > 0 && !is_white_space(s[0]) {
        let t = s.drop_first();
        lemma_word_len(t);
        assert forall|i: int| 0 <= i < word_len(s) implies !is_white_space(#[trigger] s[i]) by {
            if i > 0 {
                assert(s[i] == t[i - 1]);
            }
        }
    }
}

/// The runs of characters between white space, in order.
pub open spec fn words(s: Seq<char>) -> Seq<Seq<char>>
    decreases s.len(),
{
    if s.len() == 0 {
        seq![]
    } else if is_white_space(s[0]) {
        words(s.drop_first())
    } else {
        proof {
            lemma_word_len(s);
        }
        seq![s.take(word_len(s) as int)] + words(s.skip(word_len(s) as int))
    }
}

/// `s` without its leading white space.
pub open spec fn trimmed_start(s: Seq<char>) -> Seq<char>
    decreases s.len(),
{
    if s.len() > 0 && is_white_space(s[0]) {
        trimmed_start(s.drop_first())
    } else {
        s
    }
}

/// `s` without its trailing white space.
pub open spec fn trimmed_end(s: Seq<char>) -> Seq<char>
    decreases s.len(),
{
    if s.len() > 0 && is_white_space(s.last()) {
        trimmed_end(s.drop_last())
    } else {
        s
    }
}

/// `s` without white space at either end.
pub open spec fn trimmed(s: Seq<char>) -> Seq<char> {
    trimmed_end(trimmed_start(s))
}

/// The contents of each string.
pub open spec fn texts(v: Seq<String>) -> Seq<Seq<char>> {
    v.map_values(|t: String| t@)
}

/// The text, where there is one.
pub open spec fn option_text(s: Option<String>) -> Option<Seq<char>> {
    match s {
        None => None,
        Some(s) => Some(s@),
    }
}

/// The characters of a string.
pub fn chars_of(s: &str) -> (r: Vec<char>)
    ensures
        r@ == s@,
{
    let mut r: Vec<char> = Vec::new();
    for c in it: s.chars()
        invariant
            r@ == it.seq().take(it.index() as int),
            it.seq() == s@,
    {
        r.push(c);
        assert(it.seq().take(it.index() + 1) =~= it.seq().take(it.index() as int).push(c));
    }
    assert(s@.take(s@.len() as int) =~= s@);
    r
}

/// The string of some of the characters.
fn piece(chars: &Vec<char>, from: usize, to: usize) -> (r: String)
    requires
        from <= to <= chars@.len(),
    ensures
        r@ == chars@.subrange(from as int, to as int),
{
    let mut r = String::new();
    let mut i: usize = from;
    while i < to
        invariant
            from <= i <= to <= chars@.len(),
            r@ == chars@.subrange(from as int, i as int),
        decreases to - i,
    {
        r.push(chars[i]);
        assert(chars@.subrange(from as int, i + 1) =~= chars@.subrange(from as int, i as int).push(
            chars@[i as int],
        ));
        i = i + 1;
    }
    r
}

/// The words of a text, as `str::split_whitespace` gives them.
pub fn split_words(s: &str) -> (r: Vec<String>)
    ensures
        texts(r@) == words(s@),
{
    let chars = chars_of(s);
    let mut r: Vec<String> = Vec::new();
    let mut i: usize = 0;
    assert(chars@.skip(0) =~= chars@);
    assert(texts(r@) + words(chars@) =~= words(chars@));
    while i < chars.len()
        invariant
            i <= chars@.len(),
            chars@ == s@,
            texts(r@) + words(chars@.skip(i as int)) == words(s@),
        decreases chars@.len() - i,
    {
        let ghost rest = chars@.skip(i as int);
        assert(rest[0] == chars@[i as int]);
        if white_space(chars[i]) {
            assert(rest.drop_first() =~= chars@.skip(i + 1));
            i = i + 1;
        } else {
            let end = word_end(&chars, i);
            let word = piece(&chars, i, end);
            let ghost before = texts(r@);
            r.push(word);
            proof {
                assert(word@ =~= rest.take(word_len(rest) as int));
                assert(rest.skip(word_len(rest) as int) =~= chars@.skip(end as int));
                assert(texts(r@) =~= before.push(word@));
                assert(before + (seq![word@] + words(chars@.skip(end as int))) =~= texts(r@)
                    + words(chars@.skip(end as int)));
            }
            i = end;
        }
    }
    assert(chars@.skip(i as int).len() == 0);
    assert(texts(r@) + words(chars@.skip(i as int)) =~= texts(r@));
    r
}

/// The end of the word that starts at `from`.
fn word_end(chars: &Vec<char>, from: usize) -> (r: usize)
    requires
        from <= chars@.len(),
    ensures
        r == from + word_len(chars@.skip(from as int)),
        from <= r <= chars@.len(),
{
    let mut i: usize = from;
    while i < chars.len() && !white_space(chars[i])
        invariant
            from <= i <= chars@.len(),
            i + word_len(chars@.skip(i as int)) == from + word_len(chars@.skip(from as int)),
        decreases chars@.len() - i,
    {
        assert(chars@.skip(i as int).drop_first() =~= chars@.skip(i + 1));
        i = i + 1;
    }
    i
}

/// The first word, where there is one.
pub fn first_word(s: &str) -> (r: Option<String>)
    ensures
        r is Some <==> words(s@).len() > 0,
        r matches Some(w) ==> w@ == words(s@)[0],
{
    let all = split_words(s);
    if all.len() > 0 {
        assert(texts(all@)[0] == all@[0]@);
        Some(all[0].clone())
    } else {
        assert(texts(all@).len() == all@.len());
        None
    }
}

/// The text without its leading white space, as `str::trim_start` gives it.
pub fn trim_start(s: &str) -> (r: String)
    ensures
        r@ == trimmed_start(s@),
{
    let chars = chars_of(s);
    let start = skip_space(&chars);
    assert(chars@.skip(start as int) =~= chars@.subrange(start as int, chars@.len() as int));
    piece(&chars, start, chars.len())
}

fn skip_space(chars: &Vec<char>) -> (r: usize)
    ensures
        r <= chars@.len(),
        chars@.skip(r as int) == trimmed_start(chars@),
{
    let mut i: usize = 0;
    assert(chars@.skip(0) =~= chars@);
    while i < chars.len() && white_space(chars[i])
        invariant
            i <= chars@.len(),
            trimmed_start(chars@.skip(i as int)) == trimmed_start(chars@),
        decreases chars@.len() - i,
    {
        assert(chars@.skip(i as int).drop_first() =~= chars@.skip(i + 1));
        i = i + 1;
    }
    i
}

/// The text without white space at either end, as `str::trim` gives it.
pub fn trim(s: &str) -> (r: String)
    ensures
        r@ == trimmed(s@),
{
    let chars = chars_of(s);
    let start = skip_space(&chars);
    let mut end: usize = chars.len();
    let ghost middle = chars@.skip(start as int);
    assert(chars@.subrange(start as int, end as int) =~= middle);
    while end > start && white_space(chars[end - 1])
        invariant
            start <= end <= chars@.len(),
            trimmed_end(chars@.subrange(start as int, end as int)) == trimmed_end(middle),
        decreases end,
    {
        assert(chars@.subrange(start as int, end as int).drop_last() =~= chars@.subrange(
            start as int,
            end - 1,
        ));
        end = end - 1;
    }
    piece(&chars, start, end)
}

/// The text before and after the first white space, as
/// `str::split_once(char::is_whitespace)` gives them.
pub fn split_at_space(s: &str) -> (r: Option<(String, String)>)
    ensures
        r is Some <==> word_len(s@) < s@.len(),
        r matches Some((a, b)) ==> a@ == s@.take(word_len(s@) as int) && b@ == s@.skip(
            word_len(s@) as int + 1,
        ),
{
    let chars = chars_of(s);
    assert(chars@.skip(0) =~= chars@);
    let end = word_end(&chars, 0);
    if end < chars.len() {
        assert(s@.take(end as int) =~= chars@.subrange(0, end as int));
        assert(s@.skip(end + 1) =~= chars@.subrange(end + 1, chars@.len() as int));
        Some((piece(&chars, 0, end), piece(&chars, end + 1, chars.len())))
    } else {
        None
    }
}

/// Whether two texts are the same.
pub fn same_text(a: &str, b: &str) -> (r: bool)
    ensures
        r == (a@ == b@),
{
    let x = a.as_bytes();
    let y = b.as_bytes();
    proof {
        encode_utf8_decode_utf8(a@);
        encode_utf8_decode_utf8(b@);
    }
    if x.len() != y.len() {
        return false;
    }
    let mut i: usize = 0;
    while i < x.len()
        invariant
            i <= x@.len(),
            x@.len() == y@.len(),
            x@ == encode_utf8(a@),
            y@ == encode_utf8(b@),
            forall|j: int| 0 <= j < i ==> x@[j] == y@[j],
        decreases x@.len() - i,
    {
        if x[i] != y[i] {
            return false;
        }
        i = i + 1;
    }
    assert(x@ =~= y@);
    true
}

/// Whether `s` starts with `prefix`.
pub fn has_prefix(s: &str, prefix: &str) -> (r: bool)
    ensures
        r == prefix@.is_prefix_of(s@),
{
    let a = chars_of(s);
    let b = chars_of(prefix);
    if b.len() > a.len() {
        return false;
    }
    let mut i: usize = 0;
    while i < b.len()
        invariant
            i <= b@.len() <= a@.len(),
            a@ == s@,
            b@ == prefix@,
            forall|j: int| 0 <= j < i ==> a@[j] == b@[j],
        decreases b@.len() - i,
    {
        if a[i] != b[i] {
            return false;
        }
        i = i + 1;
    }
    assert(b@ =~= a@.take(b@.len() as int));
    true
}

// ---------------------------------------------------------------------------
// Decimal numbers
// ---------------------------------------------------------------------------

/// The decimal digit `d`.
pub open spec fn digit(d: nat) -> char
    recommends
        d < 10,
{
    (d + 48) as char
}

/// `n` in decimal, without leading zeros.
pub open spec fn decimal(n: nat) -> Seq<char>
    decreases n,
{
    if n < 10 {
        seq![digit(n)]
    } else {
        decimal(n / 10).push(digit(n % 10))
    }
}

/// A number has few digits, and digits only.
pub proof fn lemma_decimal(n: nat, k: nat)
    requires
        n < pow(10, k),
        k >= 1,
    ensures
        1 <= decimal(n).len() <= k,
        forall|i: int| 0 <= i < decimal(n).len() ==> '0' <= #[trigger] decimal(n)[i] <= '9',
    decreases n,
{
    reveal(pow);
    if n >= 10 {
        assert(pow(10, 1) == 10) by {
            reveal_with_fuel(pow, 2);
        }
        lemma_decimal(n / 10, (k - 1) as nat);
    }
}

/// `n` in decimal.
pub fn to_decimal(n: u64) -> (r: String)
    ensures
        r@ == decimal(n as nat),
    decreases n,
{
    let mut r = if n < 10 {
        String::new()
    } else {
        to_decimal(n / 10)
    };
    let d: u8 = (n % 10) as u8;
    let c: char = (d + 48) as char;
    r.push(c);
    assert(n < 10 ==> r@ =~= seq![digit(n as nat)]);
    r
}

// ---------------------------------------------------------------------------
// Cuts at character boundaries
// ---------------------------------------------------------------------------

/// The length of a text in bytes.
pub open spec fn byte_len(s: Seq<char>) -> nat {
    encode_utf8(s).len()
}

/// The longest prefix of at most `max` bytes.
pub open spec fn prefix_within(s: Seq<char>, max: nat) -> Seq<char>
    decreases s.len(),
{
    if s.len() == 0 || byte_len(s) <= max {
        s
    } else {
        prefix_within(s.drop_last(), max)
    }
}

/// The longest suffix of at most `max` bytes.
pub open spec fn suffix_within(s: Seq<char>, max: nat) -> Seq<char>
    decreases s.len(),
{
    if s.len() == 0 || byte_len(s) <= max {
        s
    } else {
        suffix_within(s.drop_first(), max)
    }
}

/// Encoding distributes over concatenation.
pub proof fn lemma_encode_concat(a: Seq<char>, b: Seq<char>)
    ensures
        encode_utf8(a + b) == encode_utf8(a) + encode_utf8(b),
        byte_len(a + b) == byte_len(a) + byte_len(b),
    decreases a.len(),
{
    if a.len() == 0 {
        assert(a + b =~= b);
        assert(encode_utf8(a) + encode_utf8(b) =~= encode_utf8(b));
    } else {
        let t = a.drop_first();
        lemma_encode_concat(t, b);
        assert((a + b).drop_first() =~= t + b);
        assert((a + b)[0] == a[0]);
        let head = vstd::utf8::encode_scalar(a[0] as u32);
        assert(head + (encode_utf8(t) + encode_utf8(b)) =~= (head + encode_utf8(t)) + encode_utf8(
            b,
        ));
    }
}

/// Each character takes at least one byte.
pub proof fn lemma_byte_len_min(s: Seq<char>)
    ensures
        byte_len(s) >= s.len(),
    decreases s.len(),
{
    if s.len() > 0 {
        lemma_byte_len_min(s.drop_first());
    }
}

/// The end of a prefix is a character boundary.
proof fn lemma_prefix_boundary(a: Seq<char>, b: Seq<char>)
    ensures
        is_char_boundary(encode_utf8(a + b), byte_len(a) as int),
        byte_len(a) <= byte_len(a + b),
    decreases a.len(),
{
    let s = a + b;
    encode_utf8_valid_utf8(s);
    lemma_encode_concat(a, b);
    if a.len() > 0 {
        let t = a.drop_first();
        lemma_prefix_boundary(t, b);
        assert(s.drop_first() =~= t + b);
        assert(s[0] == a[0]);
        vstd::utf8::encode_utf8_first_scalar(s);
        let bytes = encode_utf8(s);
        assert(vstd::utf8::pop_first_scalar(bytes) =~= encode_utf8(t + b));
        encode_utf8_valid_utf8(t + b);
    }
}

proof fn lemma_prefix_within(p: Seq<char>, q: Seq<char>, max: nat)
    requires
        byte_len(p) <= max,
        q.len() > 0 ==> byte_len(p.push(q[0])) > max,
    ensures
        prefix_within(p + q, max) == p,
    decreases q.len(),
{
    if q.len() == 0 {
        assert(p + q =~= p);
    } else {
        let s = p + q;
        lemma_encode_concat(p.push(q[0]), q.drop_first());
        assert(p.push(q[0]) + q.drop_first() =~= s);
        assert(s.drop_last() =~= p + q.drop_last());
        lemma_prefix_within(p, q.drop_last(), max);
    }
}

proof fn lemma_suffix_within(p: Seq<char>, q: Seq<char>, max: nat)
    requires
        byte_len(q) <= max,
        p.len() > 0 ==> byte_len(seq![p.last()] + q) > max,
    ensures
        suffix_within(p + q, max) == q,
    decreases p.len(),
{
    if p.len() == 0 {
        assert(p + q =~= q);
    } else {
        let s = p + q;
        lemma_encode_concat(p.drop_last(), seq![p.last()] + q);
        assert(p.drop_last() + (seq![p.last()] + q) =~= s);
        assert(s.drop_first() =~= p.drop_first() + q);
        lemma_suffix_within(p.drop_first(), q, max);
    }
}

/// A split of the bytes at a boundary is a split of the characters.
proof fn lemma_split_chars(s: Seq<char>, a: Seq<char>, b: Seq<char>, mid: int)
    requires
        is_char_boundary(encode_utf8(s), mid),
        0 <= mid <= byte_len(s),
        encode_utf8(a) == encode_utf8(s).subrange(0, mid),
        encode_utf8(b) == encode_utf8(s).subrange(mid, byte_len(s) as int),
    ensures
        s == a + b,
        byte_len(a) == mid,
{
    let bytes = encode_utf8(s);
    encode_utf8_valid_utf8(s);
    decode_utf8_split(bytes, mid);
    encode_utf8_decode_utf8(s);
    encode_utf8_decode_utf8(a);
    encode_utf8_decode_utf8(b);
}

/// The longest prefix of at most `max_bytes` bytes.
pub fn prefix_of(s: &str, max_bytes: usize) -> (r: &str)
    ensures
        r@ == prefix_within(s@, max_bytes as nat),
{
    let len: usize = s.as_bytes().len();
    let ghost bytes = encode_utf8(s@);
    proof {
        encode_utf8_valid_utf8(s@);
        is_char_boundary_start_end_of_seq(bytes);
    }
    if max_bytes >= len {
        return s;
    }
    let mut end: usize = max_bytes;
    while end > 0 && !s.is_char_boundary(end)
        invariant
            end <= max_bytes < len,
            len == bytes.len(),
            bytes == encode_utf8(s@),
            is_char_boundary(bytes, 0),
            forall|i: int| end < i <= max_bytes ==> !#[trigger] is_char_boundary(bytes, i),
        decreases end,
    {
        end = end - 1;
    }
    let (head, tail) = s.split_at(end);
    proof {
        lemma_split_chars(s@, head@, tail@, end as int);
        if tail@.len() > 0 {
            let more = head@.push(tail@[0]);
            assert(more + tail@.drop_first() =~= s@);
            lemma_prefix_boundary(more, tail@.drop_first());
            lemma_encode_concat(head@, seq![tail@[0]]);
            assert(head@ + seq![tail@[0]] =~= more);
            lemma_byte_len_min(seq![tail@[0]]);
        }
        lemma_prefix_within(head@, tail@, max_bytes as nat);
    }
    head
}

/// The longest suffix of at most `max_bytes` bytes.
pub fn suffix_of(s: &str, max_bytes: usize) -> (r: &str)
    ensures
        r@ == suffix_within(s@, max_bytes as nat),
{
    let len: usize = s.as_bytes().len();
    let ghost bytes = encode_utf8(s@);
    proof {
        encode_utf8_valid_utf8(s@);
        is_char_boundary_start_end_of_seq(bytes);
    }
    if max_bytes >= len {
        return s;
    }
    let first: usize = len - max_bytes;
    let mut start: usize = first;
    while start < len && !s.is_char_boundary(start)
        invariant
            first <= start <= len,
            len == bytes.len(),
            bytes == encode_utf8(s@),
            is_char_boundary(bytes, len as int),
            forall|i: int| first <= i < start ==> !#[trigger] is_char_boundary(bytes, i),
        decreases len - start,
    {
        start = start + 1;
    }
    let (head, tail) = s.split_at(start);
    proof {
        lemma_split_chars(s@, head@, tail@, start as int);
        lemma_encode_concat(head@, tail@);
        if head@.len() > 0 {
            let fewer = head@.drop_last();
            let last = seq![head@.last()];
            assert(fewer + (last + tail@) =~= s@);
            lemma_prefix_boundary(fewer, last + tail@);
            lemma_encode_concat(fewer, last);
            assert(fewer + last =~= head@);
            lemma_byte_len_min(last);
            lemma_encode_concat(last, tail@);
            lemma_encode_concat(fewer, last + tail@);
        }
        lemma_suffix_within(head@, tail@, max_bytes as nat);
    }
    tail
}

/// A prefix within a limit is a prefix, within the limit, and the next
/// character would not fit.
pub proof fn lemma_prefix_longest(s: Seq<char>, max: nat)
    ensures
        prefix_within(s, max).is_prefix_of(s),
        byte_len(prefix_within(s, max)) <= max,
        forall|p: Seq<char>| #[trigger]
            p.is_prefix_of(s) && byte_len(p) <= max ==> p.len() <= prefix_within(s, max).len(),
    decreases s.len(),
{
    if s.len() > 0 && byte_len(s) > max {
        let t = s.drop_last();
        lemma_prefix_longest(t, max);
        let r = prefix_within(t, max);
        assert(r =~= s.take(r.len() as int));
        assert forall|p: Seq<char>| #[trigger] p.is_prefix_of(s) && byte_len(p) <= max implies p.len()
            <= r.len() by {
            if p.len() == s.len() {
                assert(p =~= s);
            } else {
                assert(p =~= t.take(p.len() as int));
                assert(p.is_prefix_of(t));
            }
        }
    } else {
        assert(s =~= s.take(s.len() as int));
    }
}

/// A suffix within a limit is a suffix, within the limit, and the character
/// before it would not fit.
pub proof fn lemma_suffix_longest(s: Seq<char>, max: nat)
    ensures
        suffix_within(s, max).is_suffix_of(s),
        byte_len(suffix_within(s, max)) <= max,
        forall|p: Seq<char>| #[trigger]
            p.is_suffix_of(s) && byte_len(p) <= max ==> p.len() <= suffix_within(s, max).len(),
    decreases s.len(),
{
    if s.len() > 0 && byte_len(s) > max {
        let t = s.drop_first();
        lemma_suffix_longest(t, max);
        let r = suffix_within(t, max);
        assert(r =~= s.subrange(s.len() - r.len(), s.len() as int));
        assert forall|p: Seq<char>| #[trigger] p.is_suffix_of(s) && byte_len(p) <= max implies p.len()
            <= r.len() by {
            if p.len() == s.len() {
                assert(p =~= s);
            } else {
                assert(p =~= t.subrange(t.len() - p.len(), t.len() as int));
                assert(p.is_suffix_of(t));
            }
        }
    } else {
        assert(s =~= s.subrange(0, s.len() as int));
    }
}

/// Every prefix that fits a limit is a prefix of the longest one, and of a text
/// that does not fit, the longest one leaves at most three bytes unused.
pub proof fn lemma_prefix_maximal(s: Seq<char>, max: nat)
    ensures
        forall|p: Seq<char>| #[trigger]
            p.is_prefix_of(s) && byte_len(p) <= max ==> p.is_prefix_of(prefix_within(s, max)),
        byte_len(s) > max ==> byte_len(prefix_within(s, max)) + 3 >= max,
{
    let r = prefix_within(s, max);
    lemma_prefix_longest(s, max);
    assert forall|p: Seq<char>| #[trigger]
        p.is_prefix_of(s) && byte_len(p) <= max implies p.is_prefix_of(r) by {
        assert(p =~= r.take(p.len() as int));
    }
    if byte_len(s) > max {
        assert(r.len() < s.len()) by {
            if r.len() >= s.len() {
                assert(r =~= s);
            }
        }
        let next = s.take(r.len() as int + 1);
        assert(next.is_prefix_of(s)) by {
            assert(next =~= s.take(next.len() as int));
        }
        let last = seq![s[r.len() as int]];
        assert(next =~= r + last);
        lemma_encode_concat(r, last);
        lemma_one_char(s[r.len() as int]);
    }
}

/// Every suffix that fits a limit is a suffix of the longest one, and of a text
/// that does not fit, the longest one leaves at most three bytes unused.
pub proof fn lemma_suffix_maximal(s: Seq<char>, max: nat)
    ensures
        forall|p: Seq<char>| #[trigger]
            p.is_suffix_of(s) && byte_len(p) <= max ==> p.is_suffix_of(suffix_within(s, max)),
        byte_len(s) > max ==> byte_len(suffix_within(s, max)) + 3 >= max,
{
    let r = suffix_within(s, max);
    lemma_suffix_longest(s, max);
    assert forall|p: Seq<char>| #[trigger]
        p.is_suffix_of(s) && byte_len(p) <= max implies p.is_suffix_of(r) by {
        assert(p =~= r.subrange(r.len() - p.len(), r.len() as int));
    }
    if byte_len(s) > max {
        assert(r.len() < s.len()) by {
            if r.len() >= s.len() {
                assert(r =~= s);
            }
        }
        let at = s.len() - r.len() - 1;
        let next = s.skip(at);
        assert(next.is_suffix_of(s)) by {
            assert(next =~= s.subrange(s.len() - next.len(), s.len() as int));
        }
        let first = seq![s[at]];
        assert(next =~= first + r);
        lemma_encode_concat(first, r);
        lemma_one_char(s[at]);
    }
}

/// A character takes at most four bytes.
proof fn lemma_one_char(c: char)
    ensures
        byte_len(seq![c]) <= 4,
{
    reveal_with_fuel(encode_utf8, 2);
    assert(seq![c].drop_first() =~= Seq::empty());
}

// ---------------------------------------------------------------------------
// White space and numbers, told by characters
// ---------------------------------------------------------------------------

/// Which characters are white space: in ASCII the tab, the line breaks, the form
/// feed and the space; and a few others.
pub proof fn lemma_white_space(c: char)
    ensures
        c <= '\u{7f}' ==> (is_white_space(c) <==> c == ' ' || c == '\t' || c == '\n' || c == '\r' || c
            == '\u{b}' || c == '\u{c}'),
        c > '\u{7f}' ==> (is_white_space(c) <==> c == '\u{85}' || c == '\u{a0}' || c == '\u{1680}'
            || '\u{2000}' <= c <= '\u{200a}' || c == '\u{2028}' || c == '\u{2029}' || c
            == '\u{202f}' || c == '\u{205f}' || c == '\u{3000}'),
{
}

/// A text without white space is its own only word.
pub proof fn lemma_word_alone(w: Seq<char>)
    requires
        w.len() > 0,
        forall|i: int| 0 <= i < w.len() ==> !is_white_space(#[trigger] w[i]),
    ensures
        words(w) == seq![w],
        word_len(w) == w.len(),
{
    lemma_word_len(w);
    if word_len(w) < w.len() {
        assert(is_white_space(w[word_len(w) as int]));
    }
    assert(w.take(w.len() as int) =~= w);
    assert(w.skip(w.len() as int) =~= Seq::empty());
    assert(words(w.skip(w.len() as int)) =~= seq![]);
    assert(words(w) =~= seq![w]);
}

/// White space parts the words before it from those after it.
pub proof fn lemma_words_apart(a: Seq<char>, c: char, b: Seq<char>)
    requires
        is_white_space(c),
    ensures
        words(a + seq![c] + b) == words(a) + words(b),
        words(Seq::<char>::empty()) == Seq::<Seq<char>>::empty(),
    decreases a.len(),
{
    let s = a + seq![c] + b;
    if a.len() == 0 {
        assert(s.drop_first() =~= b);
        assert(words(a) + words(b) =~= words(b));
    } else if is_white_space(a[0]) {
        assert(s.drop_first() =~= a.drop_first() + seq![c] + b);
        lemma_words_apart(a.drop_first(), c, b);
    } else {
        let n = word_len(a) as int;
        lemma_word_len(a);
        lemma_word_len_is(s, n);
        assert(s.take(n) =~= a.take(n));
        assert(s.skip(n) =~= a.skip(n) + seq![c] + b);
        lemma_words_apart(a.skip(n), c, b);
        assert(words(s) =~= words(a) + words(b));
    }
}

/// Where the first white space stands.
pub proof fn lemma_word_len_is(s: Seq<char>, n: int)
    requires
        0 <= n < s.len(),
        is_white_space(s[n]),
        forall|i: int| 0 <= i < n ==> !is_white_space(#[trigger] s[i]),
    ensures
        word_len(s) == n,
{
    lemma_word_len(s);
    let found = word_len(s) as int;
    if found < n {
        assert(is_white_space(s[found]));
    }
    if found > n {
        assert(!is_white_space(s[n]));
    }
}

/// Words are not empty and hold no white space.
pub proof fn lemma_words_are_words(s: Seq<char>)
    ensures
        forall|i: int, k: int|
            0 <= i < words(s).len() && 0 <= k < words(s)[i].len() ==> !is_white_space(
                #[trigger] words(s)[i][k],
            ),
        forall|i: int| 0 <= i < words(s).len() ==> (#[trigger] words(s)[i]).len() > 0,
    decreases s.len(),
{
    if s.len() > 0 {
        if is_white_space(s[0]) {
            lemma_words_are_words(s.drop_first());
            assert(words(s) == words(s.drop_first()));
        } else {
            let n = word_len(s) as int;
            lemma_word_len(s);
            let rest = words(s.skip(n));
            lemma_words_are_words(s.skip(n));
            assert(words(s) == seq![s.take(n)] + rest);
            assert forall|i: int, k: int|
                0 <= i < words(s).len() && 0 <= k < words(s)[i].len() implies !is_white_space(
                #[trigger] words(s)[i][k],
            ) by {
                if i > 0 {
                    assert(words(s)[i] == rest[i - 1]);
                    assert(!is_white_space(rest[i - 1][k]));
                }
            }
            assert forall|i: int| 0 <= i < words(s).len() implies (#[trigger] words(s)[i]).len()
                > 0 by {
                if i > 0 {
                    assert(words(s)[i] == rest[i - 1]);
                }
            }
        }
    }
}

/// Trimming takes white space off the start and the end, and nothing else: what is
/// between white space, and neither starts nor ends with any, is what is left.
pub proof fn lemma_trimmed(a: Seq<char>, t: Seq<char>, b: Seq<char>)
    requires
        forall|i: int| 0 <= i < a.len() ==> is_white_space(#[trigger] a[i]),
        forall|i: int| 0 <= i < b.len() ==> is_white_space(#[trigger] b[i]),
        t.len() > 0 ==> !is_white_space(t[0]) && !is_white_space(t.last()),
    ensures
        trimmed(a + t + b) == t,
        t.len() > 0 ==> trimmed_start(a + t + b) == t + b,
        trimmed_start(a) == Seq::<char>::empty(),
{
    let none = Seq::<char>::empty();
    lemma_trimmed_start(a, none);
    assert(a + none =~= a);
    if t.len() > 0 {
        assert(a + t + b =~= a + (t + b));
        lemma_trimmed_start(a, t + b);
        lemma_trimmed_end(t, b);
    } else {
        assert(a + t + b =~= a + b + none);
        assert((a + b) + none =~= a + b);
        assert forall|i: int| 0 <= i < (a + b).len() implies is_white_space(
            #[trigger] (a + b)[i],
        ) by {
            if i >= a.len() {
                assert((a + b)[i] == b[i - a.len()]);
            }
        }
        lemma_trimmed_start(a + b, none);
        assert(t =~= none);
    }
}

/// Trimming the start takes off white space up to something else.
pub proof fn lemma_trimmed_start(a: Seq<char>, t: Seq<char>)
    requires
        forall|i: int| 0 <= i < a.len() ==> is_white_space(#[trigger] a[i]),
        t.len() > 0 ==> !is_white_space(t[0]),
    ensures
        trimmed_start(a + t) == t,
    decreases a.len(),
{
    if a.len() > 0 {
        assert((a + t).drop_first() =~= a.drop_first() + t);
        assert(is_white_space((a + t)[0]));
        lemma_trimmed_start(a.drop_first(), t);
    } else {
        assert(a + t =~= t);
    }
}

proof fn lemma_trimmed_end(t: Seq<char>, b: Seq<char>)
    requires
        forall|i: int| 0 <= i < b.len() ==> is_white_space(#[trigger] b[i]),
        t.len() > 0 ==> !is_white_space(t.last()),
    ensures
        trimmed_end(t + b) == t,
    decreases b.len(),
{
    if b.len() > 0 {
        assert((t + b).drop_last() =~= t + b.drop_last());
        assert(is_white_space((t + b).last()));
        lemma_trimmed_end(t, b.drop_last());
    } else {
        assert(t + b =~= t);
    }
}

/// A number in decimal is read back digit by digit, and has no leading zero but
/// for zero itself.
pub proof fn lemma_decimal_reads_back(n: nat)
    ensures
        decimal(n).fold_left(0int, |a: int, c: char| 10 * a + (c as int - '0' as int)) == n,
        decimal(n).len() >= 1,
        decimal(n)[0] == '0' ==> n == 0,
    decreases n,
{
    let read = |a: int, c: char| 10 * a + (c as int - '0' as int);
    reveal_with_fuel(Seq::fold_left, 2);
    if n < 10 {
        assert(decimal(n).drop_last() =~= seq![]);
        assert(decimal(n).last() as int == n + 48);
    } else {
        lemma_decimal_reads_back(n / 10);
        assert(decimal(n).drop_last() =~= decimal(n / 10));
        assert(decimal(n).last() as int == n % 10 + 48);
    }
}

} // verus!
