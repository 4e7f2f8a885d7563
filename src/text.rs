//! Character-level helpers shared by the library.
use vstd::prelude::*;

verus! {

/// Whether a character has the Unicode `White_Space` property: tab, line
/// feed, vertical tab, form feed, carriage return, space, next line,
/// no-break space, ogham space mark, the spaces from en quad to hair space,
/// line and paragraph separators, narrow no-break space, medium mathematical
/// space and ideographic space.
pub open spec fn white_space(c: char) -> bool {
    let u = c as u32;
    (0x09 <= u <= 0x0D) || u == 0x20 || u == 0x85 || u == 0xA0 || u == 0x1680 || (0x2000 <= u
        <= 0x200A) || u == 0x2028 || u == 0x2029 || u == 0x202F || u == 0x205F || u == 0x3000
}

/// Tests `white_space`.
pub fn is_whitespace(c: char) -> (r: bool)
    ensures
        r == white_space(c),
{
    let u = c as u32;
    (0x09 <= u && u <= 0x0D) || u == 0x20 || u == 0x85 || u == 0xA0 || u == 0x1680 || (0x2000 <= u
        && u <= 0x200A) || u == 0x2028 || u == 0x2029 || u == 0x202F || u == 0x205F || u == 0x3000
}

/// Relies on `String::push`: appends one character.
#[verifier::external_body]
pub(crate) fn push_char(s: &mut String, c: char)
    ensures
        final(s)@ == old(s)@.push(c),
{
    s.push(c)
}

/// Non-empty and made of whitespace only.
pub open spec fn is_blank(s: Seq<char>) -> bool {
    s.len() > 0 && forall|i: int| 0 <= i < s.len() ==> white_space(#[trigger] s[i])
}

/// Tests `is_blank` on a string.
pub fn blank(s: &str) -> (r: bool)
    ensures
        r == is_blank(s@),
{
    let mut all = true;
    let mut seen = false;
    for c in it: s.chars()
        invariant
            it.seq() == s@,
            seen <==> it.index() > 0,
            all <==> (forall|i: int| 0 <= i < it.index() ==> white_space(#[trigger] it.seq()[i])),
    {
        if !is_whitespace(c) {
            all = false;
        }
        seen = true;
    }
    all && seen
}

/// The lowercase mapping of a string, character by character, as Unicode
/// defines it (one character may map to several).
pub uninterp spec fn lowercase_of(s: Seq<char>) -> Seq<char>;

/// Relies on `str::to_lowercase`: the result depends on the characters alone;
/// an empty string stays empty.
#[verifier::external_body]
pub(crate) fn to_lowercase(s: &str) -> (r: String)
    ensures
        r@ == lowercase_of(s@),
        s@.len() == 0 ==> r@.len() == 0,
{
    s.to_lowercase()
}

/// Whether two strings hold the same characters.
pub fn same_text(a: &str, b: &str) -> (r: bool)
    ensures
        r == (a@ == b@),
{
    a.to_owned() == b.to_owned()
}

/// `p` is a prefix of `s`.
pub open spec fn is_prefix(p: Seq<char>, s: Seq<char>) -> bool {
    p.len() <= s.len() && s.take(p.len() as int) == p
}

/// Tests `is_prefix`.
pub fn starts_with(s: &str, p: &str) -> (r: bool)
    ensures
        r == is_prefix(p@, s@),
{
    let n = p.unicode_len();
    if n > s.unicode_len() {
        return false;
    }
    let mut i: usize = 0;
    while i < n
        invariant
            n == p@.len(),
            n <= s@.len(),
            i <= n,
            s@.take(i as int) == p@.take(i as int),
        decreases n - i,
    {
        if s.get_char(i) != p.get_char(i) {
            assert(s@.take(n as int)[i as int] != p@[i as int]);
            return false;
        }
        assert(s@.take(i as int + 1) =~= s@.take(i as int).push(s@[i as int]));
        assert(p@.take(i as int + 1) =~= p@.take(i as int).push(p@[i as int]));
        i = i + 1;
    }
    assert(p@.take(n as int) =~= p@);
    true
}

/// Builds a `String` holding the characters of `s`.
pub fn owned(s: &str) -> (r: String)
    ensures
        r@ == s@,
{
    s.to_owned()
}

/// Whether a character has the Unicode `Alphabetic` property.
pub uninterp spec fn alphabetic(c: char) -> bool;

/// Relies on `char::is_alphabetic`: true exactly for `Alphabetic` characters.
#[verifier::external_body]
pub(crate) fn is_alphabetic(c: char) -> (r: bool)
    ensures
        r == alphabetic(c),
{
    c.is_alphabetic()
}

/// Whether a character has the Unicode `Uppercase` property.
pub uninterp spec fn uppercase(c: char) -> bool;

/// Relies on `char::is_uppercase`: true exactly for `Uppercase` characters.
#[verifier::external_body]
pub(crate) fn is_uppercase(c: char) -> (r: bool)
    ensures
        r == uppercase(c),
{
    c.is_uppercase()
}

/// The ASCII transliteration of a string.
pub uninterp spec fn transliteration_of(s: Seq<char>) -> Seq<char>;

/// Every character is ASCII.
pub open spec fn all_ascii(s: Seq<char>) -> bool {
    forall|i: int| 0 <= i < s.len() ==> (#[trigger] s[i]) as u32 <= 0x7F
}

/// Relies on `unidecode::unidecode`: each character is replaced by its ASCII
/// transliteration, which depends on the characters alone; ASCII characters
/// are mapped to themselves.
#[verifier::external_body]
pub(crate) fn transliterate(s: &str) -> (r: String)
    ensures
        r@ == transliteration_of(s@),
        all_ascii(s@) ==> r@ == s@,
{
    unidecode::unidecode(s)
}

/// Every character is alphabetic.
pub open spec fn all_alphabetic(s: Seq<char>) -> bool {
    forall|i: int| 0 <= i < s.len() ==> alphabetic(#[trigger] s[i])
}

/// Every character is uppercase.
pub open spec fn all_uppercase(s: Seq<char>) -> bool {
    forall|i: int| 0 <= i < s.len() ==> uppercase(#[trigger] s[i])
}

/// Tests `all_alphabetic`.
pub fn only_alphabetic(s: &str) -> (r: bool)
    ensures
        r == all_alphabetic(s@),
{
    let mut all = true;
    for c in it: s.chars()
        invariant
            it.seq() == s@,
            all <==> (forall|i: int| 0 <= i < it.index() ==> alphabetic(#[trigger] s@[i])),
    {
        if !is_alphabetic(c) {
            all = false;
        }
    }
    all
}

/// Tests `all_uppercase`.
pub fn only_uppercase(s: &str) -> (r: bool)
    ensures
        r == all_uppercase(s@),
{
    let mut all = true;
    for c in it: s.chars()
        invariant
            it.seq() == s@,
            all <==> (forall|i: int| 0 <= i < it.index() ==> uppercase(#[trigger] s@[i])),
    {
        if !is_uppercase(c) {
            all = false;
        }
    }
    all
}

} // verus!
