//! Text operations, stated over sequences of characters.

use vstd::prelude::*;
use vstd::string::*;
use vstd::utf8::*;

use crate::model::views;
use crate::outside::{digits_value, is_digits};

verus! {

broadcast use vstd::utf8::encode_utf8_valid_utf8;

/// `String::push`: appends one character to the text.
pub assume_specification[ String::push ](text: &mut String, c: char)
    ensures
        final(text)@ == old(text)@.push(c),
;

// ---------------------------------------------------------------------------
// Character classes
// ---------------------------------------------------------------------------
/// Unicode's `White_Space` property.
pub open spec fn is_white(c: char) -> bool {
    ||| '\u{9}' <= c <= '\u{d}'
    ||| c == ' '
    ||| c == '\u{85}'
    ||| c == '\u{a0}'
    ||| c == '\u{1680}'
    ||| '\u{2000}' <= c <= '\u{200a}'
    ||| c == '\u{2028}'
    ||| c == '\u{2029}'
    ||| c == '\u{202f}'
    ||| c == '\u{205f}'
    ||| c == '\u{3000}'
}

/// Whether `c` is white space.
pub fn white(c: char) -> (r: bool)
    ensures
        r == is_white(c),
{
    ('\u{9}' <= c && c <= '\u{d}') || c == ' ' || c == '\u{85}' || c == '\u{a0}' || c
        == '\u{1680}' || ('\u{2000}' <= c && c <= '\u{200a}') || c == '\u{2028}' || c
        == '\u{2029}' || c == '\u{202f}' || c == '\u{205f}' || c == '\u{3000}'
}

/// The line separator.
pub open spec fn is_newline(c: char) -> bool {
    c == '\n'
}

/// The separator of a path's parts.
pub open spec fn is_slash(c: char) -> bool {
    c == '/'
}

/// ASCII letters and digits.
pub open spec fn is_alphanumeric(c: char) -> bool {
    'a' <= c <= 'z' || 'A' <= c <= 'Z' || '0' <= c <= '9'
}

/// `c` with `A` to `Z` mapped to `a` to `z`.
pub open spec fn ascii_lower(c: char) -> char {
    if 'A' <= c <= 'Z' {
        (c as u8 + 32) as char
    } else {
        c
    }
}

/// `text` with every `A` to `Z` mapped to `a` to `z`.
pub open spec fn lowercase(text: Seq<char>) -> Seq<char> {
    text.map_values(|c: char| ascii_lower(c))
}

// ---------------------------------------------------------------------------
// Comparison and search
// ---------------------------------------------------------------------------
/// Whether two texts are equal.
pub fn same_text(a: &str, b: &str) -> (same: bool)
    ensures
        same == (a@ == b@),
{
    a.to_owned() == b.to_owned()
}

/// The characters of `text`.
pub fn to_chars(text: &str) -> (chars: Vec<char>)
    ensures
        chars@ == text@,
{
    let mut chars: Vec<char> = Vec::new();
    for c in iter: text.chars()
        invariant
            chars@ == text@.take(iter.index() as int),
            iter.seq() == text@,
    {
        chars.push(c);
    }
    chars
}

/// The text between two character positions.
pub fn slice_text(text: &str, from: usize, to: usize) -> (part: String)
    requires
        from <= to <= text@.len(),
    ensures
        part@ == text@.subrange(from as int, to as int),
{
    text.substring_char(from, to).to_owned()
}

/// `part` stands in `text` at position `at`.
pub open spec fn occurs_at(text: Seq<char>, part: Seq<char>, at: int) -> bool {
    0 <= at && at + part.len() <= text.len() && text.subrange(at, at + part.len()) == part
}

/// `part` stands somewhere in `text`.
pub open spec fn contains_text(text: Seq<char>, part: Seq<char>) -> bool {
    exists|at: int| occurs_at(text, part, at)
}

/// The least position from `from` on at which `part` stands in `text`.
pub open spec fn first_at(text: Seq<char>, part: Seq<char>, from: int) -> Option<int>
    decreases text.len() + 1 - from,
{
    if from + part.len() > text.len() {
        None
    } else if occurs_at(text, part, from) {
        Some(from)
    } else {
        first_at(text, part, from + 1)
    }
}

/// `first_at` finds the least occurrence, and finds one wherever there is one.
pub proof fn lemma_first_at(text: Seq<char>, part: Seq<char>, from: int)
    requires
        0 <= from,
    ensures
        match first_at(text, part, from) {
            Some(at) => {
                &&& from <= at
                &&& occurs_at(text, part, at)
                &&& forall|i: int| from <= i < at ==> !occurs_at(text, part, i)
            },
            None => forall|i: int| from <= i ==> !occurs_at(text, part, i),
        },
    decreases text.len() + 1 - from,
{
    if from + part.len() > text.len() {
    } else if occurs_at(text, part, from) {
    } else {
        lemma_first_at(text, part, from + 1);
    }
}

/// The first position at which `part` stands in `text`.
pub fn find(text: &str, part: &str) -> (at: Option<usize>)
    ensures
        match at {
            Some(i) => first_at(text@, part@, 0) == Some(i as int),
            None => first_at(text@, part@, 0) is None,
        },
{
    let t = to_chars(text);
    let p = to_chars(part);
    let mut at: usize = 0;
    while at <= t.len() && p.len() <= t.len() - at
        invariant
            t@ == text@,
            p@ == part@,
            at <= t.len() + 1,
            first_at(text@, part@, 0) == first_at(text@, part@, at as int),
        decreases t.len() + 1 - at,
    {
        let mut k: usize = 0;
        while k < p.len() && t[at + k] == p[k]
            invariant
                t@ == text@,
                p@ == part@,
                at + p.len() <= t.len(),
                k <= p.len(),
                forall|j: int| 0 <= j < k ==> t@[at + j] == p@[j],
            decreases p.len() - k,
        {
            k = k + 1;
        }
        if k == p.len() {
            assert(text@.subrange(at as int, at + part@.len()) =~= part@);
            return Some(at);
        }
        proof {
            assert(text@.subrange(at as int, at + part@.len())[k as int] != part@[k as int]);
        }
        at = at + 1;
    }
    None
}

/// Whether `part` stands somewhere in `text`.
pub fn contains(text: &str, part: &str) -> (found: bool)
    ensures
        found == contains_text(text@, part@),
{
    proof {
        lemma_first_at(text@, part@, 0);
    }
    find(text, part).is_some()
}

/// Whether `text` starts with `prefix`.
pub fn starts_with(text: &str, prefix: &str) -> (r: bool)
    ensures
        r == prefix@.is_prefix_of(text@),
{
    let t = to_chars(text);
    let p = to_chars(prefix);
    if p.len() > t.len() {
        return false;
    }
    for k in 0..p.len()
        invariant
            t@ == text@,
            p@ == prefix@,
            p.len() <= t.len(),
            forall|j: int| 0 <= j < k ==> t@[j] == p@[j],
    {
        if t[k] != p[k] {
            assert(text@.subrange(0, prefix@.len() as int)[k as int] != prefix@[k as int]);
            return false;
        }
    }
    assert(text@.subrange(0, prefix@.len() as int) =~= prefix@);
    true
}

/// Whether `text` ends with `suffix`.
pub fn ends_with(text: &str, suffix: &str) -> (r: bool)
    ensures
        r == suffix@.is_suffix_of(text@),
{
    let t = to_chars(text);
    let p = to_chars(suffix);
    if p.len() > t.len() {
        return false;
    }
    let from: usize = t.len() - p.len();
    for k in 0..p.len()
        invariant
            t@ == text@,
            p@ == suffix@,
            from + p.len() == t.len(),
            forall|j: int| 0 <= j < k ==> t@[from + j] == p@[j],
    {
        if t[from + k] != p[k] {
            assert(text@.subrange(from as int, text@.len() as int)[k as int] != suffix@[k as int]);
            return false;
        }
    }
    assert(text@.subrange(from as int, text@.len() as int) =~= suffix@);
    true
}

/// The last position at which `c` stands in `text`.
pub open spec fn last_of(text: Seq<char>, c: char) -> Option<int>
    decreases text.len(),
{
    if text.len() == 0 {
        None
    } else if text.last() == c {
        Some(text.len() - 1)
    } else {
        last_of(text.drop_last(), c)
    }
}

/// `last_of` finds the greatest position, and finds one wherever there is one.
pub proof fn lemma_last_of(text: Seq<char>, c: char)
    ensures
        match last_of(text, c) {
            Some(at) => {
                &&& 0 <= at < text.len()
                &&& text[at] == c
                &&& forall|i: int| at < i < text.len() ==> text[i] != c
            },
            None => forall|i: int| 0 <= i < text.len() ==> text[i] != c,
        },
    decreases text.len(),
{
    if text.len() == 0 {
    } else if text.last() == c {
    } else {
        lemma_last_of(text.drop_last(), c);
        assert forall|i: int| 0 <= i < text.len() - 1 implies text[i] == text.drop_last()[i] by {}
    }
}

/// The last position at which `c` stands in `text`.
pub fn find_last(text: &str, c: char) -> (at: Option<usize>)
    ensures
        match at {
            Some(i) => last_of(text@, c) == Some(i as int),
            None => last_of(text@, c) is None,
        },
{
    let t = to_chars(text);
    let mut end: usize = t.len();
    assert(text@.take(t.len() as int) =~= text@);
    while end > 0
        invariant
            t@ == text@,
            end <= t.len(),
            last_of(text@, c) == last_of(text@.take(end as int), c),
        decreases end,
    {
        proof {
            assert(text@.take(end as int).drop_last() =~= text@.take(end - 1));
        }
        if t[end - 1] == c {
            return Some(end - 1);
        }
        end = end - 1;
    }
    None
}

// ---------------------------------------------------------------------------
// Order
// ---------------------------------------------------------------------------
/// Lexicographic order by character, which is also the order of the UTF-8 encodings.
pub open spec fn text_less(a: Seq<char>, b: Seq<char>) -> bool
    decreases a.len(),
{
    if b.len() == 0 {
        false
    } else if a.len() == 0 {
        true
    } else if a[0] != b[0] {
        a[0] < b[0]
    } else {
        text_less(a.drop_first(), b.drop_first())
    }
}

/// No text comes before itself.
pub proof fn lemma_text_less_irreflexive(a: Seq<char>)
    ensures
        !text_less(a, a),
    decreases a.len(),
{
    if a.len() > 0 {
        lemma_text_less_irreflexive(a.drop_first());
    }
}

/// Of two different texts one comes before the other.
pub proof fn lemma_text_less_total(a: Seq<char>, b: Seq<char>)
    ensures
        text_less(a, b) || text_less(b, a) || a == b,
    decreases a.len(),
{
    if a.len() == 0 || b.len() == 0 {
        if a.len() == b.len() {
            assert(a =~= b);
        }
    } else if a[0] == b[0] {
        lemma_text_less_total(a.drop_first(), b.drop_first());
        if a.drop_first() == b.drop_first() {
            assert(a =~= seq![a[0]] + a.drop_first());
            assert(b =~= seq![b[0]] + b.drop_first());
        }
    }
}

/// The order of texts is transitive.
pub proof fn lemma_text_less_transitive(a: Seq<char>, b: Seq<char>, c: Seq<char>)
    requires
        text_less(a, b),
        text_less(b, c),
    ensures
        text_less(a, c),
    decreases a.len(),
{
    if a.len() > 0 && b.len() > 0 && c.len() > 0 && a[0] == b[0] && b[0] == c[0] {
        lemma_text_less_transitive(a.drop_first(), b.drop_first(), c.drop_first());
    }
}

/// Whether `a` comes before `b`.
pub fn less(a: &str, b: &str) -> (r: bool)
    ensures
        r == text_less(a@, b@),
{
    let x = to_chars(a);
    let y = to_chars(b);
    let mut i: usize = 0;
    assert(a@.skip(0) =~= a@);
    assert(b@.skip(0) =~= b@);
    while i < x.len() && i < y.len()
        invariant
            x@ == a@,
            y@ == b@,
            i <= x.len(),
            i <= y.len(),
            text_less(a@, b@) == text_less(a@.skip(i as int), b@.skip(i as int)),
        decreases x.len() - i,
    {
        proof {
            assert(a@.skip(i as int).drop_first() =~= a@.skip(i + 1));
            assert(b@.skip(i as int).drop_first() =~= b@.skip(i + 1));
        }
        if x[i] != y[i] {
            return x[i] < y[i];
        }
        i = i + 1;
    }
    i < y.len()
}

// ---------------------------------------------------------------------------
// Encoded length
// ---------------------------------------------------------------------------
/// The number of bytes of the text's UTF-8 encoding.
pub open spec fn byte_len(text: Seq<char>) -> nat {
    encode_utf8(text).len()
}

/// The number of bytes of the text's UTF-8 encoding.
pub fn count_bytes(text: &str) -> (n: usize)
    ensures
        n == byte_len(text@),
{
    text.as_bytes().len()
}

/// The text that the first `n` bytes encode, where they end between two characters.
pub open spec fn byte_prefix(text: Seq<char>, n: int) -> Option<Seq<char>> {
    if is_char_boundary(encode_utf8(text), n) {
        Some(decode_utf8(encode_utf8(text).subrange(0, n)))
    } else {
        None
    }
}

/// The text that the first `n` bytes encode, or all of it where they split a character.
pub open spec fn byte_prefix_or_all(text: Seq<char>, n: int) -> Seq<char> {
    match byte_prefix(text, n) {
        Some(prefix) => prefix,
        None => text,
    }
}

/// The text that the first `n` bytes encode, or all of it where they split a character.
pub fn cut_bytes(text: &str, n: usize) -> (cut: String)
    ensures
        cut@ == byte_prefix_or_all(text@, n as int),
{
    if text.is_char_boundary(n) {
        let (prefix, _) = text.split_at(n);
        proof {
            encode_utf8_decode_utf8(prefix@);
        }
        prefix.to_owned()
    } else {
        text.to_owned()
    }
}

/// The first bytes of ASCII text encode its first characters.
pub proof fn lemma_ascii_byte_prefix(text: Seq<char>, n: int)
    requires
        is_ascii_chars(text),
        0 <= n <= text.len(),
    ensures
        byte_len(text) == text.len(),
        byte_prefix(text, n) == Some(text.take(n)),
{
    is_ascii_chars_encode_utf8(text);
    let bytes = encode_utf8(text);
    if n < text.len() {
        assert(text[n] as u8 == bytes[n]);
        is_char_boundary_iff_is_leading_byte(bytes, n);
        assert(is_leading_byte_width_1(bytes[n]));
    } else {
        is_char_boundary_start_end_of_seq(bytes);
    }
    let head = text.take(n);
    assert(is_ascii_chars(head));
    is_ascii_chars_encode_utf8(head);
    assert(encode_utf8(head) =~= bytes.subrange(0, n)) by {
        assert forall|i: int| 0 <= i < n implies encode_utf8(head)[i] == bytes[i] by {
            assert(head[i] == text[i]);
            assert(text[i] as u8 == bytes[i]);
        }
    }
    encode_utf8_decode_utf8(head);
}

// ---------------------------------------------------------------------------
// Trimming
// ---------------------------------------------------------------------------
/// `text` without its leading white space.
pub open spec fn trim_front(text: Seq<char>) -> Seq<char>
    decreases text.len(),
{
    if text.len() > 0 && is_white(text[0]) {
        trim_front(text.drop_first())
    } else {
        text
    }
}

/// `text` without its trailing white space.
pub open spec fn trim_back(text: Seq<char>) -> Seq<char>
    decreases text.len(),
{
    if text.len() > 0 && is_white(text.last()) {
        trim_back(text.drop_last())
    } else {
        text
    }
}

/// `text` without its surrounding white space.
pub open spec fn trimmed(text: Seq<char>) -> Seq<char> {
    trim_back(trim_front(text))
}

/// `text` without its trailing white space.
pub fn trim_end(text: &str) -> (out: String)
    ensures
        out@ == trim_back(text@),
{
    let t = to_chars(text);
    let mut end: usize = t.len();
    assert(text@.take(t.len() as int) =~= text@);
    while end > 0 && white(t[end - 1])
        invariant
            t@ == text@,
            end <= t.len(),
            trim_back(text@) == trim_back(text@.take(end as int)),
        decreases end,
    {
        assert(text@.take(end as int).drop_last() =~= text@.take(end - 1));
        end = end - 1;
    }
    assert(text@.subrange(0, end as int) =~= text@.take(end as int));
    slice_text(text, 0, end)
}

/// `text` without its surrounding white space.
pub fn trim(text: &str) -> (out: String)
    ensures
        out@ == trimmed(text@),
{
    let t = to_chars(text);
    let mut from: usize = 0;
    assert(text@.skip(0) =~= text@);
    while from < t.len() && white(t[from])
        invariant
            t@ == text@,
            from <= t.len(),
            trim_front(text@) == trim_front(text@.skip(from as int)),
        decreases t.len() - from,
    {
        assert(text@.skip(from as int).drop_first() =~= text@.skip(from + 1));
        from = from + 1;
    }
    assert(text@.subrange(from as int, text@.len() as int) =~= text@.skip(from as int));
    let rest = slice_text(text, from, t.len());
    trim_end(rest.as_str())
}

/// `text` with every leading `prefix` taken off.
pub open spec fn strip_repeated(text: Seq<char>, prefix: Seq<char>) -> Seq<char>
    decreases text.len(),
{
    if prefix.len() > 0 && prefix.is_prefix_of(text) {
        strip_repeated(text.skip(prefix.len() as int), prefix)
    } else {
        text
    }
}

/// `text` with every leading `prefix` taken off.
pub fn strip_all(text: &str, prefix: &str) -> (out: String)
    requires
        prefix@.len() > 0,
    ensures
        out@ == strip_repeated(text@, prefix@),
{
    let width = prefix.unicode_len();
    let mut rest = text.to_owned();
    while starts_with(rest.as_str(), prefix)
        invariant
            width == prefix@.len(),
            width > 0,
            strip_repeated(text@, prefix@) == strip_repeated(rest@, prefix@),
        decreases rest@.len(),
    {
        let n = rest.as_str().unicode_len();
        assert(rest@.subrange(width as int, n as int) =~= rest@.skip(width as int));
        rest = slice_text(rest.as_str(), width, n);
    }
    rest
}

// ---------------------------------------------------------------------------
// Rewriting
// ---------------------------------------------------------------------------
/// `text` with every `A` to `Z` mapped to `a` to `z`.
pub fn to_lowercase(text: &str) -> (out: String)
    ensures
        out@ == lowercase(text@),
{
    let t = to_chars(text);
    let mut out = String::new();
    for i in 0..t.len()
        invariant
            t@ == text@,
            out@ == lowercase(text@).take(i as int),
    {
        let c = t[i];
        let low = if 'A' <= c && c <= 'Z' {
            (c as u8 + 32) as char
        } else {
            c
        };
        out.push(low);
        assert(out@ =~= lowercase(text@).take(i + 1));
    }
    assert(lowercase(text@).take(t.len() as int) =~= lowercase(text@));
    out
}

/// `text` with every `from` replaced by `to`.
pub open spec fn replaced(text: Seq<char>, from: char, to: char) -> Seq<char> {
    text.map_values(
        |c: char|
            if c == from {
                to
            } else {
                c
            },
    )
}

/// `text` with every `from` replaced by `to`.
pub fn replace(text: &str, from: char, to: char) -> (out: String)
    ensures
        out@ == replaced(text@, from, to),
{
    let t = to_chars(text);
    let mut out = String::new();
    for i in 0..t.len()
        invariant
            t@ == text@,
            out@ == replaced(text@, from, to).take(i as int),
    {
        let c = if t[i] == from {
            to
        } else {
            t[i]
        };
        out.push(c);
        assert(out@ =~= replaced(text@, from, to).take(i + 1));
    }
    assert(replaced(text@, from, to).take(t.len() as int) =~= replaced(text@, from, to));
    out
}

// ---------------------------------------------------------------------------
// Splitting and joining
// ---------------------------------------------------------------------------
/// The pieces of `text` between the characters that `separates` picks.
pub open spec fn pieces(text: Seq<char>, separates: spec_fn(char) -> bool) -> Seq<Seq<char>>
    decreases text.len(),
{
    if text.len() == 0 {
        seq![Seq::empty()]
    } else {
        let before = pieces(text.drop_last(), separates);
        if separates(text.last()) {
            before.push(Seq::empty())
        } else {
            before.drop_last().push(before.last().push(text.last()))
        }
    }
}

/// The pieces of `text` between white space; some may be empty.
pub open spec fn white_pieces(text: Seq<char>) -> Seq<Seq<char>> {
    pieces(text, |c: char| is_white(c))
}

/// The pieces of `text` between line separators; the last one is not terminated.
pub open spec fn newline_pieces(text: Seq<char>) -> Seq<Seq<char>> {
    pieces(text, |c: char| is_newline(c))
}

/// The parts of a path between slashes; some may be empty.
pub open spec fn path_parts(path: Seq<char>) -> Seq<Seq<char>> {
    pieces(path, |c: char| is_slash(c))
}

/// A terminated line without the carriage return before its separator.
pub open spec fn without_return(line: Seq<char>) -> Seq<char> {
    if line.len() > 0 && line.last() == '\r' {
        line.drop_last()
    } else {
        line
    }
}

/// The lines of `text`: each ends at a line feed, with or without a carriage return before it,
/// and text behind the last line feed is a line where there is any.
pub open spec fn lines(text: Seq<char>) -> Seq<Seq<char>> {
    let parts = newline_pieces(text);
    let terminated = parts.drop_last().map_values(|line: Seq<char>| without_return(line));
    if parts.last().len() == 0 {
        terminated
    } else {
        terminated.push(parts.last())
    }
}

/// There is always a last piece.
pub proof fn lemma_pieces_nonempty(text: Seq<char>, separates: spec_fn(char) -> bool)
    ensures
        pieces(text, separates).len() > 0,
    decreases text.len(),
{
    if text.len() > 0 {
        lemma_pieces_nonempty(text.drop_last(), separates);
    }
}

/// The parts of a path between slashes; some may be empty.
pub fn split_path(path: &str) -> (parts: Vec<String>)
    ensures
        views(parts@) == path_parts(path@),
{
    let t = to_chars(path);
    let mut parts: Vec<String> = Vec::new();
    let mut current = String::new();
    assert(path@.take(0) =~= Seq::<char>::empty());
    assert(views(parts@).push(current@) =~= path_parts(path@.take(0)));
    for i in 0..t.len()
        invariant
            t@ == path@,
            views(parts@).push(current@) == path_parts(path@.take(i as int)),
    {
        proof {
            assert(path@.take(i + 1).drop_last() =~= path@.take(i as int));
            assert(views(parts@).push(current@).drop_last() =~= views(parts@));
        }
        let ghost before = views(parts@);
        if t[i] == '/' {
            parts.push(current);
            assert(views(parts@) =~= before.push(current@));
            current = String::new();
        } else {
            current.push(t[i]);
        }
        assert(views(parts@).push(current@) =~= path_parts(path@.take(i + 1)));
    }
    assert(path@.take(t.len() as int) =~= path@);
    let ghost before = views(parts@);
    parts.push(current);
    assert(views(parts@) =~= before.push(current@));
    parts
}

/// The pieces of `text` between white space; some may be empty.
pub fn split_white(text: &str) -> (parts: Vec<String>)
    ensures
        views(parts@) == white_pieces(text@),
{
    let t = to_chars(text);
    let mut parts: Vec<String> = Vec::new();
    let mut current = String::new();
    assert(text@.take(0) =~= Seq::<char>::empty());
    assert(views(parts@).push(current@) =~= white_pieces(text@.take(0)));
    for i in 0..t.len()
        invariant
            t@ == text@,
            views(parts@).push(current@) == white_pieces(text@.take(i as int)),
    {
        proof {
            assert(text@.take(i + 1).drop_last() =~= text@.take(i as int));
            assert(views(parts@).push(current@).drop_last() =~= views(parts@));
        }
        let ghost before = views(parts@);
        if white(t[i]) {
            parts.push(current);
            assert(views(parts@) =~= before.push(current@));
            current = String::new();
        } else {
            current.push(t[i]);
        }
        assert(views(parts@).push(current@) =~= white_pieces(text@.take(i + 1)));
    }
    assert(text@.take(t.len() as int) =~= text@);
    let ghost before = views(parts@);
    parts.push(current);
    assert(views(parts@) =~= before.push(current@));
    parts
}

/// The lines of `text`.
pub fn split_lines(text: &str) -> (found: Vec<String>)
    ensures
        views(found@) == lines(text@),
{
    let t = to_chars(text);
    let mut found: Vec<String> = Vec::new();
    let mut current = String::new();
    let ghost mut done: Seq<Seq<char>> = Seq::empty();
    let ghost strip = |line: Seq<char>| without_return(line);
    assert(text@.take(0) =~= Seq::<char>::empty());
    assert(done.push(current@) =~= newline_pieces(text@.take(0)));
    assert(views(found@) =~= done.map_values(strip));
    for i in 0..t.len()
        invariant
            t@ == text@,
            strip == (|line: Seq<char>| without_return(line)),
            done.push(current@) == newline_pieces(text@.take(i as int)),
            views(found@) == done.map_values(strip),
    {
        proof {
            assert(text@.take(i + 1).drop_last() =~= text@.take(i as int));
            assert(done.push(current@).drop_last() =~= done);
        }
        if t[i] == '\n' {
            let ghost before = views(found@);
            let n = current.as_str().unicode_len();
            let line = if n > 0 && current.as_str().get_char(n - 1) == '\r' {
                assert(current@.subrange(0, n - 1) =~= current@.drop_last());
                slice_text(current.as_str(), 0, n - 1)
            } else {
                current.clone()
            };
            found.push(line);
            proof {
                assert(views(found@) =~= before.push(without_return(current@)));
                assert(done.push(current@).map_values(strip) =~= done.map_values(strip).push(
                    without_return(current@),
                ));
                done = done.push(current@);
            }
            current = String::new();
        } else {
            current.push(t[i]);
        }
        assert(done.push(current@) =~= newline_pieces(text@.take(i + 1)));
    }
    proof {
        assert(text@.take(t.len() as int) =~= text@);
        assert(done.push(current@).drop_last() =~= done);
    }
    if current.as_str().unicode_len() > 0 {
        let ghost before = views(found@);
        found.push(current);
        assert(views(found@) =~= before.push(current@));
    }
    found
}

/// The texts, with `separator` between each two.
pub open spec fn joined(parts: Seq<Seq<char>>, separator: Seq<char>) -> Seq<char>
    decreases parts.len(),
{
    if parts.len() == 0 {
        Seq::empty()
    } else if parts.len() == 1 {
        parts[0]
    } else {
        joined(parts.drop_last(), separator) + separator + parts.last()
    }
}

/// The texts, with `separator` between each two.
pub fn join(parts: &Vec<String>, separator: &str) -> (out: String)
    ensures
        out@ == joined(views(parts@), separator@),
{
    let mut out = String::new();
    for i in 0..parts.len()
        invariant
            out@ == joined(views(parts@).take(i as int), separator@),
    {
        assert(views(parts@).take(i + 1).drop_last() =~= views(parts@).take(i as int));
        if i > 0 {
            out.append(separator);
        }
        out.append(parts[i].as_str());
        assert(out@ =~= joined(views(parts@).take(i + 1), separator@));
    }
    assert(views(parts@).take(parts@.len() as int) =~= views(parts@));
    out
}

// ---------------------------------------------------------------------------
// Numbers
// ---------------------------------------------------------------------------
/// A decimal digit.
pub open spec fn digit(d: nat) -> char {
    (48 + d) as char
}

/// A number in decimal, without leading zeros.
pub open spec fn decimal(n: nat) -> Seq<char>
    decreases n,
{
    if n < 10 {
        seq![digit(n)]
    } else {
        decimal(n / 10).push(digit(n % 10))
    }
}

/// A number in decimal, without leading zeros.
pub fn to_decimal(n: u64) -> (out: String)
    ensures
        out@ == decimal(n as nat),
    decreases n,
{
    let mut out = if n < 10 {
        String::new()
    } else {
        to_decimal(n / 10)
    };
    out.push((48 + (n % 10) as u8) as char);
    assert(out@ =~= decimal(n as nat));
    out
}

// ---------------------------------------------------------------------------
// Laws
// ---------------------------------------------------------------------------
/// White space is what Unicode's `White_Space` property lists.
pub proof fn white_space_is_unicodes(c: char)
    ensures
        is_white(c) <==> {
            let code = c as int;
            ||| 0x9 <= code <= 0xd
            ||| code == 0x20
            ||| code == 0x85
            ||| code == 0xa0
            ||| code == 0x1680
            ||| 0x2000 <= code <= 0x200a
            ||| 0x2028 <= code <= 0x2029
            ||| code == 0x202f
            ||| code == 0x205f
            ||| code == 0x3000
        },
{
}

/// Lowercasing moves the letters `A` to `Z` by 32 and leaves every other character.
pub proof fn lowercase_moves_capitals(text: Seq<char>)
    ensures
        lowercase(text).len() == text.len(),
        forall|i: int|
            0 <= i < text.len() ==> (#[trigger] lowercase(text)[i]) as int == text[i] as int + if 65
                <= text[i] as int <= 90 {
                32int
            } else {
                0
            },
{
}

/// Replacing a character touches no other.
pub proof fn replacing_touches_one_character(text: Seq<char>, from: char, to: char)
    ensures
        replaced(text, from, to).len() == text.len(),
        forall|i: int|
            0 <= i < text.len() ==> (#[trigger] replaced(text, from, to)[i]) == if text[i] == from {
                to
            } else {
                text[i]
            },
{
}

/// A text stands in another where it can be read off from some position on.
pub proof fn occurrences_are_read_off(text: Seq<char>, part: Seq<char>)
    ensures
        contains_text(text, part) <==> exists|at: int|
            0 <= at && at + part.len() <= text.len() && text =~= #[trigger] text.take(at) + part
                + text.skip(at + part.len()),
{
    if contains_text(text, part) {
        let at = choose|at: int| occurs_at(text, part, at);
        assert(text =~= text.take(at) + part + text.skip(at + part.len())) by {
            assert forall|i: int| 0 <= i < part.len() implies text[at + i] == part[i] by {
                assert(text.subrange(at, at + part.len())[i] == part[i]);
            }
        }
    }
    if exists|at: int|
        0 <= at && at + part.len() <= text.len() && text =~= #[trigger] text.take(at) + part
            + text.skip(at + part.len()) {
        let at = choose|at: int|
            0 <= at && at + part.len() <= text.len() && text =~= #[trigger] text.take(at) + part
                + text.skip(at + part.len());
        let whole = text.take(at) + part + text.skip(at + part.len());
        assert(text.subrange(at, at + part.len()) =~= part) by {
            assert forall|i: int| 0 <= i < part.len() implies text[at + i] == part[i] by {
                assert(whole[at + i] == part[i]);
            }
        }
        assert(occurs_at(text, part, at));
    }
}

/// Trimming the end takes off white space, as much of it as there is, and nothing else.
pub proof fn trimming_the_end_takes_white_space(text: Seq<char>)
    ensures
        trim_back(text).len() <= text.len(),
        trim_back(text) == text.take(trim_back(text).len() as int),
        forall|i: int| trim_back(text).len() <= i < text.len() ==> is_white(#[trigger] text[i]),
        trim_back(text).len() > 0 ==> !is_white(trim_back(text).last()),
    decreases text.len(),
{
    if text.len() > 0 && is_white(text.last()) {
        let front = text.drop_last();
        trimming_the_end_takes_white_space(front);
        assert(front.take(trim_back(front).len() as int) =~= text.take(
            trim_back(front).len() as int,
        ));
        assert forall|i: int| trim_back(text).len() <= i < text.len() implies is_white(
            #[trigger] text[i],
        ) by {
            if i < front.len() {
                assert(front[i] == text[i]);
            }
        }
    } else {
        assert(text =~= text.take(text.len() as int));
    }
}

/// Trimming the start takes off white space, as much of it as there is, and nothing else.
pub proof fn trimming_the_start_takes_white_space(text: Seq<char>)
    ensures
        trim_front(text).len() <= text.len(),
        trim_front(text) == text.skip(text.len() - trim_front(text).len()),
        forall|i: int|
            0 <= i < text.len() - trim_front(text).len() ==> is_white(#[trigger] text[i]),
        trim_front(text).len() > 0 ==> !is_white(trim_front(text)[0]),
    decreases text.len(),
{
    if text.len() > 0 && is_white(text[0]) {
        let rest = text.drop_first();
        trimming_the_start_takes_white_space(rest);
        assert(rest.skip(rest.len() - trim_front(rest).len()) =~= text.skip(
            text.len() - trim_front(rest).len(),
        ));
        assert forall|i: int| 0 <= i < text.len() - trim_front(text).len() implies is_white(
            #[trigger] text[i],
        ) by {
            if i > 0 {
                assert(rest[i - 1] == text[i]);
            }
        }
    } else {
        assert(text =~= text.skip(0));
    }
}

/// Trimming a text leaves the part of it between its first and its last character that is not
/// white space.
pub proof fn trimming_leaves_the_middle(before: Seq<char>, middle: Seq<char>, behind: Seq<char>)
    requires
        forall|i: int| 0 <= i < before.len() ==> is_white(#[trigger] before[i]),
        forall|i: int| 0 <= i < behind.len() ==> is_white(#[trigger] behind[i]),
        middle.len() > 0 ==> !is_white(middle[0]) && !is_white(middle.last()),
    ensures
        trimmed(before + middle + behind) == middle,
{
    let text = before + middle + behind;
    let front = trim_front(text);
    trimming_the_start_takes_white_space(text);
    trimming_the_end_takes_white_space(front);
    let cut = text.len() - front.len();
    if middle.len() > 0 {
        assert(text[before.len() as int] == middle[0]);
        if cut > before.len() {
            assert(is_white(text[before.len() as int]));
        }
        if cut < before.len() {
            assert(front[0] == text[cut]);
            assert(text[cut] == before[cut]);
        }
        assert(front =~= middle + behind);
        let kept = trim_back(front).len();
        if kept < middle.len() {
            assert(is_white(front[middle.len() - 1]));
        }
        if kept > middle.len() {
            assert(trim_back(front).last() == front[kept - 1]);
            assert(front[kept - 1] == behind[kept - 1 - middle.len()]);
        }
        assert(front.take(middle.len() as int) =~= middle);
    } else {
        if front.len() > 0 {
            assert(front[0] == text[cut]);
            if cut < before.len() {
                assert(text[cut] == before[cut]);
            } else {
                assert(text[cut] == behind[cut - before.len()]);
            }
        }
        assert(trim_back(front) =~= middle);
    }
}

/// A repeated prefix is taken off as often as it stands there.
pub proof fn repeated_prefixes_are_taken_off(text: Seq<char>, prefix: Seq<char>)
    requires
        prefix.len() > 0,
    ensures
        strip_repeated(prefix + text, prefix) == strip_repeated(text, prefix),
        !prefix.is_prefix_of(text) ==> strip_repeated(text, prefix) == text,
{
    assert((prefix + text).subrange(0, prefix.len() as int) =~= prefix);
    assert((prefix + text).skip(prefix.len() as int) =~= text);
}

/// A text without separators is one piece; a separator ends a piece and the text behind it is cut
/// up on its own.
pub proof fn pieces_stand_between_separators(
    a: Seq<char>,
    separator: char,
    b: Seq<char>,
    separates: spec_fn(char) -> bool,
)
    requires
        separates(separator),
        forall|i: int| 0 <= i < a.len() ==> !separates(#[trigger] a[i]),
    ensures
        pieces(a, separates) == seq![a],
        pieces(a.push(separator) + b, separates) == seq![a] + pieces(b, separates),
    decreases a.len() + b.len(),
{
    lemma_one_piece(a, separates);
    let head = a.push(separator);
    if b.len() == 0 {
        assert(head + b =~= head);
        assert(head.drop_last() =~= a);
        assert(pieces(head, separates) =~= seq![a] + pieces(b, separates));
    } else {
        let front = b.drop_last();
        pieces_stand_between_separators(a, separator, front, separates);
        lemma_pieces_nonempty(front, separates);
        assert((head + b).drop_last() =~= head + front);
        assert((head + b).last() == b.last());
        let before = seq![a] + pieces(front, separates);
        assert(before.last() == pieces(front, separates).last());
        assert(before.drop_last() =~= seq![a] + pieces(front, separates).drop_last());
        assert(pieces(head + b, separates) =~= seq![a] + pieces(b, separates));
    }
}

/// A text without separators is one piece.
proof fn lemma_one_piece(a: Seq<char>, separates: spec_fn(char) -> bool)
    requires
        forall|i: int| 0 <= i < a.len() ==> !separates(#[trigger] a[i]),
    ensures
        pieces(a, separates) == seq![a],
    decreases a.len(),
{
    if a.len() == 0 {
        assert(a =~= Seq::<char>::empty());
    } else {
        let front = a.drop_last();
        assert forall|i: int| 0 <= i < front.len() implies !separates(#[trigger] front[i]) by {
            assert(front[i] == a[i]);
        }
        lemma_one_piece(front, separates);
        assert(!separates(a[a.len() - 1]));
        assert(front.push(a.last()) =~= a);
        assert(pieces(a, separates) =~= seq![a]);
    }
}

/// Words stand between white space, and the parts of a path between slashes.
pub proof fn words_and_parts_stand_between_separators(
    a: Seq<char>,
    separator: char,
    b: Seq<char>,
)
    ensures
        is_white(separator) && (forall|i: int| 0 <= i < a.len() ==> !is_white(#[trigger] a[i]))
            ==> white_pieces(a) == seq![a] && white_pieces(a.push(separator) + b) == seq![a]
            + white_pieces(b),
        !a.contains('/') ==> path_parts(a) == seq![a] && path_parts(a.push('/') + b) == seq![a]
            + path_parts(b),
{
    if is_white(separator) && (forall|i: int| 0 <= i < a.len() ==> !is_white(#[trigger] a[i])) {
        pieces_stand_between_separators(a, separator, b, |c: char| is_white(c));
    }
    if !a.contains('/') {
        assert forall|i: int| 0 <= i < a.len() implies !(|c: char| is_slash(c))(#[trigger] a[i]) by {
            assert(a.contains(a[i]));
        }
        pieces_stand_between_separators(a, '/', b, |c: char| is_slash(c));
    }
}

/// A text has a line up to its first line feed, without a carriage return before that, and then the
/// lines of what follows; text without a line feed is one line where there is any.
pub proof fn lines_end_at_line_feeds(a: Seq<char>, b: Seq<char>)
    requires
        !a.contains('\n'),
    ensures
        lines(Seq::empty()) == Seq::<Seq<char>>::empty(),
        a.len() > 0 ==> lines(a) == seq![a],
        lines(a.push('\n') + b) == seq![
            if a.len() > 0 && a.last() == '\r' {
                a.drop_last()
            } else {
                a
            },
        ] + lines(b),
{
    let separates = |c: char| is_newline(c);
    assert forall|i: int| 0 <= i < a.len() implies !separates(#[trigger] a[i]) by {
        assert(a.contains(a[i]));
    }
    pieces_stand_between_separators(a, '\n', b, separates);
    lemma_pieces_nonempty(b, separates);
    assert(lines(Seq::empty()) =~= Seq::<Seq<char>>::empty());
    assert(a.len() > 0 ==> lines(a) =~= seq![a]);
    let parts = seq![a] + pieces(b, separates);
    assert(parts.last() == pieces(b, separates).last());
    assert(parts.drop_last() =~= seq![a] + pieces(b, separates).drop_last());
    assert(lines(a.push('\n') + b) =~= seq![without_return(a)] + lines(b));
}

/// Joining texts puts the separator between each two of them, and nowhere else.
pub proof fn joining_puts_separators_between(
    a: Seq<Seq<char>>,
    b: Seq<Seq<char>>,
    text: Seq<char>,
    separator: Seq<char>,
)
    ensures
        joined(Seq::empty(), separator) == Seq::<char>::empty(),
        joined(seq![text], separator) == text,
        a.len() > 0 && b.len() > 0 ==> joined(a + b, separator) == joined(a, separator) + separator
            + joined(b, separator),
    decreases b.len(),
{
    if a.len() > 0 && b.len() > 0 {
        let whole = a + b;
        assert(whole.drop_last() =~= a + b.drop_last());
        assert(whole.last() == b.last());
        if b.len() == 1 {
            assert(a + b.drop_last() =~= a);
        } else {
            joining_puts_separators_between(a, b.drop_last(), text, separator);
            assert(joined(whole, separator) =~= joined(a, separator) + separator + joined(
                b,
                separator,
            ));
        }
    }
}

/// A number is written in decimal digits that count it, the first of them not zero unless the
/// number is.
pub proof fn decimals_count_their_number(n: nat)
    ensures
        is_digits(decimal(n)),
        digits_value(decimal(n)) == n,
        n > 0 ==> decimal(n)[0] != '0',
        n < 10 ==> decimal(n).len() == 1,
    decreases n,
{
    if n >= 10 {
        decimals_count_their_number(n / 10);
        assert(decimal(n).drop_last() =~= decimal(n / 10));
        assert(n / 10 > 0);
        assert(decimal(n)[0] == decimal(n / 10)[0]);
        assert forall|i: int| 0 <= i < decimal(n).len() implies '0' <= #[trigger] decimal(n)[i]
            <= '9' by {
            if i < decimal(n / 10).len() {
                assert(decimal(n)[i] == decimal(n / 10)[i]);
            }
        }
    } else {
        assert(decimal(n).drop_last() =~= Seq::<char>::empty());
        assert(digits_value(decimal(n).drop_last()) == 0);
    }
}

/// A text comes before another where it is a shorter beginning of it, or where the first character
/// in which they differ is the smaller one.
pub proof fn texts_are_ordered_by_their_first_difference(a: Seq<char>, b: Seq<char>)
    ensures
        text_less(a, b) <==> exists|k: int|
            0 <= k <= a.len() && k < b.len() && #[trigger] a.take(k) == b.take(k) && (k == a.len()
                || a[k] < b[k]),
    decreases a.len(),
{
    if b.len() > 0 && a.len() == 0 {
        assert(a.take(0) =~= b.take(0));
    }
    if a.len() > 0 && b.len() > 0 {
        let x = a.drop_first();
        let y = b.drop_first();
        texts_are_ordered_by_their_first_difference(x, y);
        if text_less(a, b) {
            if a[0] != b[0] {
                assert(a.take(0) =~= b.take(0));
            } else {
                let k = choose|k: int|
                    0 <= k <= x.len() && k < y.len() && #[trigger] x.take(k) == y.take(k) && (k
                        == x.len() || x[k] < y[k]);
                assert(a.take(k + 1) =~= seq![a[0]] + x.take(k));
                assert(b.take(k + 1) =~= seq![b[0]] + y.take(k));
                assert(a.take(k + 1) == b.take(k + 1));
            }
        }
        if exists|k: int|
            0 <= k <= a.len() && k < b.len() && #[trigger] a.take(k) == b.take(k) && (k == a.len()
                || a[k] < b[k]) {
            let k = choose|k: int|
                0 <= k <= a.len() && k < b.len() && #[trigger] a.take(k) == b.take(k) && (k
                    == a.len() || a[k] < b[k]);
            if k > 0 {
                assert(a.take(k)[0] == b.take(k)[0]);
                assert(x.take(k - 1) =~= a.take(k).drop_first());
                assert(y.take(k - 1) =~= b.take(k).drop_first());
                assert(x.take(k - 1) == y.take(k - 1));
            }
        }
    }
}

/// A text's encoding is that of its first characters and that of the others, and between the two is
/// a boundary.
proof fn lemma_encoding_splits(text: Seq<char>, k: int)
    requires
        0 <= k <= text.len(),
    ensures
        encode_utf8(text) == encode_utf8(text.take(k)) + encode_utf8(text.skip(k)),
        is_char_boundary(encode_utf8(text), byte_len(text.take(k)) as int),
    decreases k,
{
    let bytes = encode_utf8(text);
    if k == 0 {
        assert(text.take(0) =~= Seq::empty());
        assert(text.skip(0) =~= text);
        assert(encode_utf8(text.take(0)) =~= Seq::empty());
    } else {
        let rest = text.drop_first();
        lemma_encoding_splits(rest, k - 1);
        assert(text.take(k).drop_first() =~= rest.take(k - 1));
        assert(rest.skip(k - 1) =~= text.skip(k));
        encode_utf8_first_scalar(text);
        encode_utf8_valid_utf8(text);
        assert(pop_first_scalar(bytes) =~= encode_utf8(rest));
    }
}

/// Cutting a text at as many bytes as its first characters have leaves these characters, whatever
/// characters they are.
pub proof fn cutting_leaves_whole_characters(text: Seq<char>, k: int)
    requires
        0 <= k <= text.len(),
    ensures
        byte_prefix_or_all(text, byte_len(text.take(k)) as int) == text.take(k),
{
    let head = text.take(k);
    lemma_encoding_splits(text, k);
    assert(encode_utf8(text).subrange(0, byte_len(head) as int) =~= encode_utf8(head));
    encode_utf8_decode_utf8(head);
}

/// A boundary in a text's encoding stands behind its first characters, for some number of them.
proof fn lemma_boundary_splits(text: Seq<char>, n: int) -> (k: int)
    requires
        is_char_boundary(encode_utf8(text), n),
    ensures
        0 <= k <= text.len(),
        byte_len(text.take(k)) == n,
    decreases text.len(),
{
    let bytes = encode_utf8(text);
    encode_utf8_valid_utf8(text);
    if n == 0 {
        assert(text.take(0) =~= Seq::empty());
        0
    } else {
        assert(text.len() > 0);
        let rest = text.drop_first();
        encode_utf8_first_scalar(text);
        assert(pop_first_scalar(bytes) =~= encode_utf8(rest));
        let k = lemma_boundary_splits(rest, n - length_of_first_scalar(bytes));
        assert(text.take(k + 1).drop_first() =~= rest.take(k));
        k + 1
    }
}

/// Cutting a text at a number of bytes that none of its beginnings has leaves all of it.
pub proof fn cutting_splits_no_character(text: Seq<char>, n: int)
    requires
        forall|k: int| 0 <= k <= text.len() ==> byte_len(#[trigger] text.take(k)) != n,
    ensures
        byte_prefix_or_all(text, n) == text,
{
    if is_char_boundary(encode_utf8(text), n) {
        let k = lemma_boundary_splits(text, n);
        assert(byte_len(text.take(k)) == n);
    }
}

} // verus!
