//! Character and string primitives that the parsers build on.
use vstd::prelude::*;
use vstd::string::{StrSliceExecFns, StringExecFns};

verus! {

/// The Unicode `White_Space` property of a character, which `char::is_whitespace` reports:
/// tab, line feed, vertical tab, form feed, carriage return and space among the ASCII
/// characters, and above them next line, no-break space, Ogham space mark, the spaces
/// from en quad to hair space, line and paragraph separator, narrow no-break space,
/// medium mathematical space and ideographic space.
pub open spec fn is_white_space(c: char) -> bool {
    ||| c == ' '
    ||| '\t' <= c <= '\r'
    ||| c == '\u{85}'
    ||| c == '\u{a0}'
    ||| c == '\u{1680}'
    ||| '\u{2000}' <= c <= '\u{200a}'
    ||| c == '\u{2028}'
    ||| c == '\u{2029}'
    ||| c == '\u{202f}'
    ||| c == '\u{205f}'
    ||| c == '\u{3000}'
}

/// The full Unicode upper-case mapping of a string, which `str::to_uppercase` computes.
pub uninterp spec fn uppercase_of(s: Seq<char>) -> Seq<char>;

/// Whether every character of `s` is ASCII.
pub open spec fn is_ascii_text(s: Seq<char>) -> bool {
    forall|i: int| 0 <= i < s.len() ==> s[i] <= '\x7f'
}

/// The upper-case form of an ASCII character: `a..=z` become `A..=Z`, the others stay.
pub open spec fn ascii_upper(c: char) -> char {
    if 'a' <= c <= 'z' {
        ((c as u32) - 32) as char
    } else {
        c
    }
}

/// The upper-case form of a string: for ASCII text each letter `a..=z` becomes its
/// capital and every other character stays; for other text, the Unicode mapping, which
/// stands here under the name `uppercase_of`.
pub open spec fn upper_case(s: Seq<char>) -> Seq<char> {
    if is_ascii_text(s) {
        s.map_values(|c: char| ascii_upper(c))
    } else {
        uppercase_of(s)
    }
}

/// Calls `char::is_whitespace`, which reports the Unicode `White_Space` property of `c`;
/// the contract states that property in full (`is_white_space`).
#[verifier::external_body]
pub(crate) fn char_is_whitespace(c: char) -> (r: bool)
    ensures
        r == is_white_space(c),
{
    c.is_whitespace()
}

/// Calls `str::to_uppercase`. The result is the Unicode upper-case form of `s`: on ASCII
/// text the contract states it (capitals for `a..=z`, every other character kept); on
/// other text it is named `uppercase_of`, and which characters it changes is left to the
/// Unicode tables.
#[verifier::external_body]
pub(crate) fn str_to_uppercase(s: &str) -> (r: String)
    ensures
        is_ascii_text(s@) ==> r@ == s@.map_values(|c: char| ascii_upper(c)),
        !is_ascii_text(s@) ==> r@ == uppercase_of(s@),
{
    s.to_uppercase()
}

/// Calls `String::push`, which appends one character at the end of the string.
#[verifier::external_body]
pub(crate) fn push_char(s: &mut String, c: char)
    ensures
        final(s)@ == old(s)@.push(c),
{
    s.push(c)
}

/// Whether `c` is one of the ASCII letters `A..=Z` or `a..=z`.
pub open spec fn is_ascii_letter(c: char) -> bool {
    ('a' <= c && c <= 'z') || ('A' <= c && c <= 'Z')
}

/// `char::is_ascii_alphabetic`, written out.
pub fn ascii_letter(c: char) -> (r: bool)
    ensures
        r == is_ascii_letter(c),
{
    ('a' <= c && c <= 'z') || ('A' <= c && c <= 'Z')
}

/// Whether two string slices hold the same characters.
pub fn str_eq(a: &str, b: &str) -> (r: bool)
    ensures
        r == (a@ == b@),
{
    let n = a.unicode_len();
    let m = b.unicode_len();
    if n != m {
        return false;
    }
    let mut i: usize = 0;
    while i < n
        invariant
            n == a@.len(),
            m == b@.len(),
            n == m,
            i <= n,
            forall|j: int| 0 <= j < i ==> a@[j] == b@[j],
        decreases n - i,
    {
        if a.get_char(i) != b.get_char(i) {
            return false;
        }
        i = i + 1;
    }
    assert(a@ =~= b@);
    true
}

/// A new string that holds the one character `c`.
pub fn char_string(c: char) -> (r: String)
    ensures
        r@ == seq![c],
{
    let mut s = String::new();
    push_char(&mut s, c);
    assert(s@ =~= seq![c]);
    s
}

/// Copies a string slice into a new string.
pub fn owned(s: &str) -> (r: String)
    ensures
        r@ == s@,
{
    s.to_owned()
}

/// The parts written one after the other, with `sep` between each two.
pub open spec fn join(parts: Seq<Seq<char>>, sep: Seq<char>) -> Seq<char>
    decreases parts.len(),
{
    if parts.len() == 0 {
        seq![]
    } else if parts.len() == 1 {
        parts[0]
    } else {
        join(parts.drop_last(), sep) + sep + parts.last()
    }
}

/// The characters of each string of a list.
pub open spec fn strings_view(v: Seq<String>) -> Seq<Seq<char>> {
    v.map_values(|s: String| s@)
}

/// `[String]::join`: the strings one after the other, with `sep` between each two.
pub fn join_strings(parts: &Vec<String>, sep: &str) -> (r: String)
    ensures
        r@ == join(strings_view(parts@), sep@),
{
    let mut r = String::new();
    let mut i: usize = 0;
    let ghost all = strings_view(parts@);
    while i < parts.len()
        invariant
            i <= parts@.len(),
            all == strings_view(parts@),
            r@ == join(all.take(i as int), sep@),
        decreases parts@.len() - i,
    {
        if i != 0 {
            r.append(sep);
        }
        r.append(parts[i].as_str());
        assert(all.take(i + 1).drop_last() =~= all.take(i as int));
        i = i + 1;
    }
    assert(all.take(parts@.len() as int) =~= all);
    r
}

} // verus!
