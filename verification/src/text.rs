//! Work on text: equality, ASCII case folding, the order of strings and
//! the search for a part of one, all by UTF-8 bytes as Rust does them, and
//! splitting and trimming by characters.

use vstd::prelude::*;
use vstd::string::*;
use vstd::utf8::*;

verus! {

/// The UTF-8 bytes of a string given by its characters.
pub open spec fn utf8(text: Seq<char>) -> Seq<u8> {
    encode_utf8(text)
}

/// Two character sequences with the same UTF-8 bytes are the same sequence.
pub proof fn lemma_utf8_injective(a: Seq<char>, b: Seq<char>)
    requires
        utf8(a) == utf8(b),
    ensures
        a == b,
{
    encode_utf8_decode_utf8(a);
    encode_utf8_decode_utf8(b);
}

/// Whether two strings hold the same text.
pub fn str_eq(a: &str, b: &str) -> (same: bool)
    ensures
        same == (a@ == b@),
{
    let x = a.as_bytes();
    let y = b.as_bytes();
    if x.len() != y.len() {
        return false;
    }
    let mut i: usize = 0;
    while i < x.len()
        invariant
            x@.len() == y@.len(),
            i <= x@.len(),
            x@ == utf8(a@),
            y@ == utf8(b@),
            forall|k: int| 0 <= k < i ==> x@[k] == y@[k],
        decreases x@.len() - i,
    {
        if x[i] != y[i] {
            return false;
        }
        i += 1;
    }
    proof {
        assert(x@ =~= y@);
        lemma_utf8_injective(a@, b@);
    }
    true
}

/// The ASCII lower-case form of a byte: `A`..`Z` move to `a`..`z`, every
/// other byte stays.
pub open spec fn ascii_lower(b: u8) -> u8 {
    if 0x41 <= b <= 0x5a {
        (b + 0x20) as u8
    } else {
        b
    }
}

/// Whether two byte strings are equal once every byte is ASCII lower-cased.
pub open spec fn caseless_eq(a: Seq<u8>, b: Seq<u8>) -> bool {
    &&& a.len() == b.len()
    &&& forall|k: int| 0 <= k < a.len() ==> ascii_lower(#[trigger] a[k]) == ascii_lower(b[k])
}

/// Matching without regard to ASCII case is symmetric and transitive.
pub proof fn lemma_caseless_eq_equivalence(a: Seq<u8>, b: Seq<u8>, c: Seq<u8>)
    ensures
        caseless_eq(a, a),
        caseless_eq(a, b) ==> caseless_eq(b, a),
        caseless_eq(a, b) && caseless_eq(b, c) ==> caseless_eq(a, c),
{
    if caseless_eq(a, b) {
        assert forall|k: int| 0 <= k < b.len() implies ascii_lower(#[trigger] b[k]) == ascii_lower(
            a[k],
        ) by {
            assert(ascii_lower(a[k]) == ascii_lower(b[k]));
        }
        if caseless_eq(b, c) {
            assert forall|k: int| 0 <= k < a.len() implies ascii_lower(#[trigger] a[k])
                == ascii_lower(c[k]) by {
                assert(ascii_lower(b[k]) == ascii_lower(c[k]));
            }
        }
    }
}

/// The ASCII lower-case form of a byte.
pub fn to_ascii_lower(b: u8) -> (lower: u8)
    ensures
        lower == ascii_lower(b),
{
    if 0x41 <= b && b <= 0x5a {
        b + 0x20
    } else {
        b
    }
}

/// Whether two strings match when ASCII letters are compared without regard
/// to case. Bytes outside `A`..`Z` and `a`..`z` must match exactly.
pub fn eq_ignore_ascii_case(a: &str, b: &str) -> (same: bool)
    ensures
        same == caseless_eq(utf8(a@), utf8(b@)),
{
    let x = a.as_bytes();
    let y = b.as_bytes();
    if x.len() != y.len() {
        return false;
    }
    let mut i: usize = 0;
    while i < x.len()
        invariant
            x@.len() == y@.len(),
            i <= x@.len(),
            x@ == utf8(a@),
            y@ == utf8(b@),
            forall|k: int| 0 <= k < i ==> ascii_lower(#[trigger] x@[k]) == ascii_lower(y@[k]),
        decreases x@.len() - i,
    {
        if to_ascii_lower(x[i]) != to_ascii_lower(y[i]) {
            assert(ascii_lower(x@[i as int]) != ascii_lower(y@[i as int]));
            return false;
        }
        i += 1;
    }
    true
}

/// Whether `a` comes strictly before `b` in the lexicographic order of
/// byte strings: at the first place where they differ `a` holds the smaller
/// byte, or `a` ends there and `b` goes on.
pub open spec fn bytes_lt(a: Seq<u8>, b: Seq<u8>) -> bool
    decreases a.len(),
{
    if b.len() == 0 {
        false
    } else if a.len() == 0 {
        true
    } else if a[0] != b[0] {
        a[0] < b[0]
    } else {
        bytes_lt(a.drop_first(), b.drop_first())
    }
}

/// Whether text `a` sorts strictly before text `b`: the order of Rust
/// strings, which compares their UTF-8 bytes.
pub open spec fn text_lt(a: Seq<char>, b: Seq<char>) -> bool {
    bytes_lt(utf8(a), utf8(b))
}

/// No byte string comes before itself.
pub proof fn lemma_bytes_lt_irreflexive(a: Seq<u8>)
    ensures
        !bytes_lt(a, a),
    decreases a.len(),
{
    if a.len() > 0 {
        lemma_bytes_lt_irreflexive(a.drop_first());
    }
}

/// The order is transitive.
pub proof fn lemma_bytes_lt_transitive(a: Seq<u8>, b: Seq<u8>, c: Seq<u8>)
    requires
        bytes_lt(a, b),
        bytes_lt(b, c),
    ensures
        bytes_lt(a, c),
    decreases a.len(),
{
    if a.len() > 0 && b.len() > 0 && c.len() > 0 && a[0] == b[0] && b[0] == c[0] {
        lemma_bytes_lt_transitive(a.drop_first(), b.drop_first(), c.drop_first());
    }
}

/// Of two different byte strings one comes before the other.
pub proof fn lemma_bytes_lt_total(a: Seq<u8>, b: Seq<u8>)
    ensures
        bytes_lt(a, b) || bytes_lt(b, a) || a == b,
    decreases a.len(),
{
    if a.len() == 0 || b.len() == 0 {
        if a.len() == 0 && b.len() == 0 {
            assert(a =~= b);
        }
    } else if a[0] == b[0] {
        lemma_bytes_lt_total(a.drop_first(), b.drop_first());
        if a.drop_first() == b.drop_first() {
            assert(a =~= seq![a[0]] + a.drop_first());
            assert(b =~= seq![b[0]] + b.drop_first());
        }
    }
}

/// The order of texts is a strict total order: irreflexive, transitive, and
/// any two different texts are ordered one way or the other.
pub proof fn lemma_text_lt_strict_total(a: Seq<char>, b: Seq<char>, c: Seq<char>)
    ensures
        !text_lt(a, a),
        text_lt(a, b) && text_lt(b, c) ==> text_lt(a, c),
        text_lt(a, b) || text_lt(b, a) || a == b,
        text_lt(a, b) ==> !text_lt(b, a),
{
    lemma_bytes_lt_irreflexive(utf8(a));
    if text_lt(a, b) && text_lt(b, c) {
        lemma_bytes_lt_transitive(utf8(a), utf8(b), utf8(c));
    }
    lemma_bytes_lt_total(utf8(a), utf8(b));
    if utf8(a) == utf8(b) {
        lemma_utf8_injective(a, b);
    }
    if text_lt(a, b) && text_lt(b, a) {
        lemma_bytes_lt_transitive(utf8(a), utf8(b), utf8(a));
    }
}

/// Dropping a common first part does not change how two byte strings
/// compare.
proof fn lemma_bytes_lt_skip(a: Seq<u8>, b: Seq<u8>, n: int)
    requires
        0 <= n <= a.len(),
        n <= b.len(),
        forall|k: int| 0 <= k < n ==> a[k] == b[k],
    ensures
        bytes_lt(a, b) == bytes_lt(a.skip(n), b.skip(n)),
    decreases n,
{
    if n == 0 {
        assert(a.skip(0) =~= a);
        assert(b.skip(0) =~= b);
    } else {
        lemma_bytes_lt_skip(a, b, n - 1);
        let x = a.skip(n - 1);
        let y = b.skip(n - 1);
        assert(x[0] == y[0]);
        assert(x.drop_first() =~= a.skip(n));
        assert(y.drop_first() =~= b.skip(n));
    }
}

/// Whether `a` sorts strictly before `b`, as Rust orders strings.
pub fn str_lt(a: &str, b: &str) -> (before: bool)
    ensures
        before == text_lt(a@, b@),
{
    let x = a.as_bytes();
    let y = b.as_bytes();
    let mut i: usize = 0;
    while i < x.len() && i < y.len()
        invariant
            i <= x@.len(),
            i <= y@.len(),
            x@ == utf8(a@),
            y@ == utf8(b@),
            forall|k: int| 0 <= k < i ==> x@[k] == y@[k],
        decreases x@.len() - i,
    {
        if x[i] != y[i] {
            proof {
                lemma_bytes_lt_skip(x@, y@, i as int);
            }
            return x[i] < y[i];
        }
        i += 1;
    }
    proof {
        lemma_bytes_lt_skip(x@, y@, i as int);
    }
    i < y.len()
}

/// Whether `needle` stands in `text` at place `at`.
pub open spec fn bytes_match_at(text: Seq<u8>, needle: Seq<u8>, at: int) -> bool {
    0 <= at && at + needle.len() <= text.len() && text.subrange(at, at + needle.len()) == needle
}

/// Whether `needle` stands somewhere in `text`.
pub open spec fn bytes_contain(text: Seq<u8>, needle: Seq<u8>) -> bool {
    exists|at: int| bytes_match_at(text, needle, at)
}

/// Whether `needle` stands in `text` at byte `at`.
fn matches_at(text: &[u8], needle: &[u8], at: usize) -> (yes: bool)
    requires
        at + needle@.len() <= text@.len(),
    ensures
        yes == bytes_match_at(text@, needle@, at as int),
{
    let len = text.len();
    let mut k: usize = 0;
    while k < needle.len()
        invariant
            at + needle@.len() <= text@.len() <= usize::MAX,
            k <= needle@.len(),
            forall|j: int| 0 <= j < k ==> text@[at + j] == needle@[j],
        decreases needle@.len() - k,
    {
        if text[at + k] != needle[k] {
            assert(text@.subrange(at as int, at + needle@.len())[k as int] != needle@[k as int]);
            return false;
        }
        k += 1;
    }
    assert(text@.subrange(at as int, at + needle@.len()) =~= needle@);
    true
}

/// Whether `needle` stands somewhere in `text`, byte for byte.
pub fn contains(text: &str, needle: &str) -> (yes: bool)
    ensures
        yes == bytes_contain(utf8(text@), utf8(needle@)),
{
    let x = text.as_bytes();
    let y = needle.as_bytes();
    if y.len() > x.len() {
        return false;
    }
    if y.len() == 0 {
        assert(bytes_match_at(x@, y@, 0)) by {
            assert(x@.subrange(0, 0) =~= y@);
        }
        return true;
    }
    let last = x.len() - y.len();
    let mut at: usize = 0;
    while at <= last
        invariant
            x@ == utf8(text@),
            y@ == utf8(needle@),
            last + y@.len() == x@.len(),
            0 < y@.len(),
            x@.len() <= usize::MAX,
            at <= last + 1,
            forall|k: int| 0 <= k < at ==> !bytes_match_at(x@, y@, k),
        decreases last + 1 - at,
    {
        if matches_at(x, y, at) {
            return true;
        }
        at += 1;
    }
    false
}

/// Whether the first `c` of `text` stands at place `i`.
pub open spec fn first_at(text: Seq<char>, c: char, i: int) -> bool {
    &&& 0 <= i < text.len()
    &&& text[i] == c
    &&& forall|k: int| 0 <= k < i ==> text[k] != c
}

/// Whether `text` holds the character `c`.
pub open spec fn holds_char(text: Seq<char>, c: char) -> bool {
    exists|i: int| first_at(text, c, i)
}

/// The place of the first `c` in a text that holds one.
pub open spec fn first_place(text: Seq<char>, c: char) -> int {
    choose|i: int| first_at(text, c, i)
}

/// What stands before the first `c` of a text that holds one.
pub open spec fn before_first(text: Seq<char>, c: char) -> Seq<char> {
    text.subrange(0, first_place(text, c))
}

/// What stands after the first `c` of a text that holds one.
pub open spec fn after_first(text: Seq<char>, c: char) -> Seq<char> {
    text.subrange(first_place(text, c) + 1, text.len() as int)
}

/// A text holds its first `c` at one place only.
pub proof fn lemma_first_place(text: Seq<char>, c: char, i: int)
    requires
        first_at(text, c, i),
    ensures
        holds_char(text, c),
        first_place(text, c) == i,
{
    let j = first_place(text, c);
    assert(first_at(text, c, j));
    if j < i {
        assert(text[j] != c);
    } else if i < j {
        assert(text[i] != c);
    }
}

/// What stands after the first `c` is shorter than the text.
pub proof fn lemma_after_first_is_shorter(text: Seq<char>, c: char)
    requires
        holds_char(text, c),
    ensures
        after_first(text, c).len() < text.len(),
{
    assert(first_at(text, c, first_place(text, c)));
}

/// Splits `text` at its first `c` into what stands before it and what
/// stands after it; `None` for a text without a `c`.
pub fn split_once(text: &str, c: char) -> (parts: Option<(String, String)>)
    ensures
        match parts {
            Some((before, after)) => {
                &&& holds_char(text@, c)
                &&& before@ == before_first(text@, c)
                &&& after@ == after_first(text@, c)
            },
            None => !holds_char(text@, c),
        },
{
    let len = text.unicode_len();
    let mut i: usize = 0;
    while i < len
        invariant
            len == text@.len(),
            i <= len,
            forall|k: int| 0 <= k < i ==> text@[k] != c,
        decreases len - i,
    {
        if text.get_char(i) == c {
            proof {
                lemma_first_place(text@, c, i as int);
            }
            let before = text.substring_char(0, i).to_owned();
            let after = text.substring_char(i + 1, len).to_owned();
            return Some((before, after));
        }
        i += 1;
    }
    assert forall|k: int| !first_at(text@, c, k) by {}
    None
}

/// The parts of `text` between its separators `sep`, in order: one more
/// than there are separators, empty parts included.
pub open spec fn parts(text: Seq<char>, sep: char) -> Seq<Seq<char>>
    decreases text.len(),
{
    if holds_char(text, sep) {
        proof {
            lemma_after_first_is_shorter(text, sep);
        }
        seq![before_first(text, sep)] + parts(after_first(text, sep), sep)
    } else {
        seq![text]
    }
}

/// Splits `text` at every `sep`.
pub fn split(text: &str, sep: char) -> (pieces: Vec<String>)
    ensures
        pieces.deep_view() == parts(text@, sep),
{
    let mut pieces: Vec<String> = Vec::new();
    let mut rest: String = text.to_owned();
    assert(pieces.deep_view() + parts(rest@, sep) =~= parts(text@, sep));
    loop
        invariant
            pieces.deep_view() + parts(rest@, sep) == parts(text@, sep),
        decreases rest@.len(),
    {
        let ghost done = pieces.deep_view();
        match split_once(rest.as_str(), sep) {
            Some((before, after)) => {
                proof {
                    lemma_after_first_is_shorter(rest@, sep);
                }
                pieces.push(before);
                assert(pieces.deep_view() =~= done.push(before@));
                assert(pieces.deep_view() + parts(after@, sep) =~= done + parts(rest@, sep));
                rest = after;
            },
            None => {
                pieces.push(rest);
                assert(pieces.deep_view() =~= done + parts(rest@, sep));
                return pieces;
            },
        }
    }
}

/// Whether `c` is white space: a character with the Unicode property
/// `White_Space`.
pub open spec fn white_space(c: char) -> bool {
    ||| '\u{9}' <= c <= '\u{d}'
    ||| c == ' '
    ||| c == '\u{85}'
    ||| c == '\u{a0}'
    ||| c == '\u{1680}'
    ||| '\u{2000}' <= c <= '\u{200a}'
    ||| c == '\u{2028}'
    ||| c == '\u{2029}'
    ||| c == '\u{202f}'
    ||| c == '\u{205f}'
    ||| c == '\u{3000}'
}

/// Whether `c` is white space.
pub fn is_white_space(c: char) -> (yes: bool)
    ensures
        yes == white_space(c),
{
    ('\u{9}' <= c && c <= '\u{d}') || c == ' ' || c == '\u{85}' || c == '\u{a0}' || c == '\u{1680}'
        || ('\u{2000}' <= c && c <= '\u{200a}') || c == '\u{2028}' || c == '\u{2029}' || c
        == '\u{202f}' || c == '\u{205f}' || c == '\u{3000}'
}

/// Whether `text` from `from` up to `to` is what is left of it without the
/// white space at its ends: all before `from` and all from `to` on is
/// white space, and what lies between neither begins nor ends with any.
pub open spec fn trim_bounds(text: Seq<char>, from: int, to: int) -> bool {
    &&& 0 <= from <= to <= text.len()
    &&& forall|k: int| 0 <= k < from ==> white_space(#[trigger] text[k])
    &&& forall|k: int| to <= k < text.len() ==> white_space(#[trigger] text[k])
    &&& from < to ==> !white_space(text[from]) && !white_space(text[to - 1])
}

/// A text without the white space at its ends.
pub open spec fn trimmed(text: Seq<char>) -> Seq<char> {
    let (from, to) = choose|from: int, to: int| trim_bounds(text, from, to);
    text.subrange(from, to)
}

/// Whatever bounds are found, what lies between them is the trimmed text.
pub proof fn lemma_trimmed(text: Seq<char>, from: int, to: int)
    requires
        trim_bounds(text, from, to),
    ensures
        trimmed(text) == text.subrange(from, to),
{
    let (a, b) = choose|a: int, b: int| trim_bounds(text, a, b);
    assert(trim_bounds(text, a, b));
    if from < to {
        assert(!white_space(text[from]));
        assert(!white_space(text[to - 1]));
        if a < b {
            assert(!white_space(text[a]));
            assert(!white_space(text[b - 1]));
            if a < from {
                assert(white_space(text[a]));
            }
            if from < a {
                assert(white_space(text[from]));
            }
            if b < to {
                assert(white_space(text[to - 1]));
            }
            if to < b {
                assert(white_space(text[b - 1]));
            }
        } else {
            if from < a {
                assert(white_space(text[from]));
            } else {
                assert(white_space(text[to - 1]));
            }
        }
    } else {
        if a < b {
            if a < from {
                assert(white_space(text[a]));
            } else {
                assert(white_space(text[b - 1]));
            }
        }
        assert(text.subrange(a, b) =~= text.subrange(from, to));
    }
}

/// `text` without the white space at its ends.
pub fn trim(text: &str) -> (inner: String)
    ensures
        inner@ == trimmed(text@),
{
    let len = text.unicode_len();
    let mut from: usize = 0;
    while from < len && is_white_space(text.get_char(from))
        invariant
            len == text@.len(),
            from <= len,
            forall|k: int| 0 <= k < from ==> white_space(#[trigger] text@[k]),
        decreases len - from,
    {
        from += 1;
    }
    let mut to: usize = len;
    while to > from && is_white_space(text.get_char(to - 1))
        invariant
            len == text@.len(),
            from <= to <= len,
            forall|k: int| to <= k < len ==> white_space(#[trigger] text@[k]),
        decreases to,
    {
        to -= 1;
    }
    proof {
        lemma_trimmed(text@, from as int, to as int);
    }
    text.substring_char(from, to).to_owned()
}

} // verus!
