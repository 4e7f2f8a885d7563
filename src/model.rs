//! Loading rules of a packaged language model: which folder of the archive
//! holds it, which resources it must have, how a frequency dictionary reads,
//! and the key under which a parsed model is kept.
use vstd::prelude::*;

use crate::text::owned;

verus! {

/// Why a packaged language model cannot be loaded.
#[derive(Debug)]
pub enum ModelError {
    /// The archive holds no folder named like a language code.
    NoLanguageFolder,
    /// The archive holds several folders named like a language code.
    SeveralLanguageFolders(Vec<String>),
    /// A resource file is missing from the language folder.
    MissingResource(String),
}

/// An ASCII lowercase letter.
pub open spec fn is_lower(c: char) -> bool {
    'a' <= c <= 'z'
}

/// An ASCII uppercase letter.
pub open spec fn is_upper(c: char) -> bool {
    'A' <= c <= 'Z'
}

/// A language code as folder name: lowercase letters, `_`, uppercase letters
/// (`en_US`).
pub open spec fn is_language_code(s: Seq<char>) -> bool {
    exists|k: int|
        0 < k < s.len() - 1 && s[k] == '_' && (forall|i: int| 0 <= i < k ==> is_lower(#[trigger] s[i]))
            && (forall|i: int| k < i < s.len() ==> is_upper(#[trigger] s[i]))
}

/// Tests `is_language_code`.
pub fn language_code(s: &str) -> (r: bool)
    ensures
        r == is_language_code(s@),
{
    let n = s.unicode_len();
    let mut k: usize = 0;
    while k < n && 'a' <= s.get_char(k) && s.get_char(k) <= 'z'
        invariant
            n == s@.len(),
            k <= n,
            forall|i: int| 0 <= i < k ==> is_lower(#[trigger] s@[i]),
        decreases n - k,
    {
        k = k + 1;
    }
    if k == 0 || k >= n || s.get_char(k) != '_' {
        assert(!is_language_code(s@)) by {
            if is_language_code(s@) {
                let j = choose|j: int|
                    0 < j < s@.len() - 1 && s@[j] == '_' && (forall|i: int|
                        0 <= i < j ==> is_lower(#[trigger] s@[i])) && (forall|i: int|
                        j < i < s@.len() ==> is_upper(#[trigger] s@[i]));
                if j < k {
                    assert(is_lower(s@[j]));
                } else if j > k {
                    assert(is_lower(s@[k as int]));
                }
            }
        }
        return false;
    }
    let mut i: usize = k + 1;
    while i < n
        invariant
            n == s@.len(),
            k < i <= n,
            s@[k as int] == '_',
            forall|i: int| 0 <= i < k ==> is_lower(#[trigger] s@[i]),
            forall|j: int| k < j < i ==> is_upper(#[trigger] s@[j]),
        decreases n - i,
    {
        let c = s.get_char(i);
        if !('A' <= c && c <= 'Z') {
            assert(!is_language_code(s@)) by {
                if is_language_code(s@) {
                    let j = choose|j: int|
                        0 < j < s@.len() - 1 && s@[j] == '_' && (forall|m: int|
                            0 <= m < j ==> is_lower(#[trigger] s@[m])) && (forall|m: int|
                            j < m < s@.len() ==> is_upper(#[trigger] s@[m]));
                    if j < k {
                        assert(is_lower(s@[j]));
                    } else if j > k {
                        assert(is_lower(s@[k as int]));
                    } else {
                        assert(is_upper(s@[i as int]));
                    }
                }
            }
            return false;
        }
        i = i + 1;
    }
    if k + 1 == n {
        assert(!is_language_code(s@)) by {
            if is_language_code(s@) {
                let j = choose|j: int|
                    0 < j < s@.len() - 1 && s@[j] == '_' && (forall|m: int|
                        0 <= m < j ==> is_lower(#[trigger] s@[m])) && (forall|m: int|
                        j < m < s@.len() ==> is_upper(#[trigger] s@[m]));
                if j < k {
                    assert(is_lower(s@[j]));
                }
            }
        }
        return false;
    }
    assert(s@[k as int] == '_');
    true
}

/// The positions of the names that are language codes.
pub open spec fn code_positions(names: Seq<String>) -> Seq<int> {
    Seq::new(names.len(), |i: int| i).filter(|i: int| is_language_code(names[i]@))
}

/// The folder that holds the model, among the archive's top-level folders:
/// the only one named like a language code.
pub fn select_language_folder(names: &Vec<String>) -> (r: Result<usize, ModelError>)
    ensures
        r matches Ok(i) ==> i < names@.len() && is_language_code(names@[i as int]@) && forall|j: int|
            0 <= j < names@.len() && j != i ==> !is_language_code(#[trigger] names@[j]@),
        r matches Err(ModelError::NoLanguageFolder) ==> forall|j: int|
            0 <= j < names@.len() ==> !is_language_code(#[trigger] names@[j]@),
        r matches Err(ModelError::SeveralLanguageFolders(found)) ==> exists|a: int, b: int|
            0 <= a < b < names@.len() && is_language_code(#[trigger] names@[a]@) && is_language_code(
                #[trigger] names@[b]@,
            ),
        r is Err ==> !(r matches Err(ModelError::MissingResource(_))),
{
    let mut found: Vec<String> = Vec::new();
    let mut first: usize = 0;
    let mut count: usize = 0;
    let mut i: usize = 0;
    while i < names.len()
        invariant
            i <= names@.len(),
            count <= i,
            count == 0 ==> forall|j: int| 0 <= j < i ==> !is_language_code(#[trigger] names@[j]@),
            count >= 1 ==> first < i && is_language_code(names@[first as int]@),
            count == 1 ==> forall|j: int|
                0 <= j < i && j != first ==> !is_language_code(#[trigger] names@[j]@),
            count >= 2 ==> exists|a: int, b: int|
                0 <= a < b < i && is_language_code(#[trigger] names@[a]@) && is_language_code(
                    #[trigger] names@[b]@,
                ),
        decreases names@.len() - i,
    {
        if language_code(names[i].as_str()) {
            if count == 1 {
                assert(is_language_code(names@[first as int]@) && is_language_code(names@[i as int]@));
            }
            if count == 0 {
                first = i;
            }
            found.push(names[i].clone());
            if count < 2 {
                count = count + 1;
            }
        }
        i = i + 1;
    }
    if count == 0 {
        Err(ModelError::NoLanguageFolder)
    } else if count == 1 {
        Ok(first)
    } else {
        Err(ModelError::SeveralLanguageFolders(found))
    }
}

/// The file names of the resources that a language folder must hold, in the
/// order they are checked.
pub open spec fn resource_names() -> Seq<Seq<char>> {
    seq!["rules.bin"@, "tokenizer.bin"@, "frequency_dict.txt"@]
}

/// Checks that the resources are present: the first one missing, in the order
/// rules, tokenizer, frequency dictionary, is reported.
pub fn check_resources(rules: bool, tokenizer: bool, dictionary: bool) -> (r: Result<(), ModelError>)
    ensures
        r is Ok <==> rules && tokenizer && dictionary,
        !rules ==> (r matches Err(ModelError::MissingResource(n)) && n@ == resource_names()[0]),
        rules && !tokenizer ==> (r matches Err(ModelError::MissingResource(n)) && n@
            == resource_names()[1]),
        rules && tokenizer && !dictionary ==> (r matches Err(ModelError::MissingResource(n)) && n@
            == resource_names()[2]),
{
    if !rules {
        Err(ModelError::MissingResource(owned("rules.bin")))
    } else if !tokenizer {
        Err(ModelError::MissingResource(owned("tokenizer.bin")))
    } else if !dictionary {
        Err(ModelError::MissingResource(owned("frequency_dict.txt")))
    } else {
        Ok(())
    }
}

/// The hexadecimal BLAKE3 digest of some bytes.
pub uninterp spec fn blake3_hex(bytes: Seq<u8>) -> Seq<char>;

/// Relies on `blake3::hash` and `Hash::to_hex`: the digest of the bytes, as 64
/// hexadecimal digits.
#[verifier::external_body]
fn digest_hex(bytes: &[u8]) -> (r: String)
    ensures
        r@ == blake3_hex(bytes@),
        r@.len() == 64,
{
    blake3::hash(bytes).to_hex().as_str().to_string()
}

/// The name under which the parsed model of an archive is kept: the digest
/// of the archive's bytes, so that each content has one name.
pub fn snapshot_name(archive: &[u8]) -> (r: String)
    ensures
        r@ == blake3_hex(archive@),
        r@.len() == 64,
{
    digest_hex(archive)
}

/// End of the space-separated field that starts at `from`.
pub open spec fn field_end(s: Seq<char>, from: int) -> int
    decreases s.len() - from,
{
    if from >= s.len() {
        s.len() as int
    } else if s[from] == ' ' {
        from
    } else {
        field_end(s, from + 1)
    }
}

/// A decimal digit.
pub open spec fn is_digit(c: char) -> bool {
    '0' <= c <= '9'
}

/// The value of a string of decimal digits.
pub open spec fn decimal_value(d: Seq<char>) -> int
    decreases d.len(),
{
    if d.len() == 0 {
        0
    } else {
        decimal_value(d.drop_last()) * 10 + (d.last() as int - '0' as int)
    }
}

/// A frequency count: decimal digits whose value fits in `i64`.
pub open spec fn is_count(d: Seq<char>) -> bool {
    d.len() > 0 && (forall|i: int| 0 <= i < d.len() ==> is_digit(#[trigger] d[i])) && decimal_value(d)
        <= i64::MAX
}

/// A line `term count` of a frequency dictionary: the first two
/// space-separated fields, when there are two and the second is a count.
pub open spec fn frequency_entry(s: Seq<char>) -> Option<(Seq<char>, int)> {
    let e0 = field_end(s, 0);
    let e1 = field_end(s, e0 + 1);
    if e0 < s.len() && is_count(s.subrange(e0 + 1, e1)) {
        Some((s.subrange(0, e0), decimal_value(s.subrange(e0 + 1, e1))))
    } else {
        None
    }
}

fn find_field_end(s: &str, from: usize) -> (r: usize)
    requires
        from <= s@.len(),
    ensures
        r == field_end(s@, from as int),
        from <= r <= s@.len(),
{
    let n = s.unicode_len();
    let mut i = from;
    while i < n && s.get_char(i) != ' '
        invariant
            n == s@.len(),
            from <= i <= n,
            field_end(s@, from as int) == field_end(s@, i as int),
        decreases n - i,
    {
        i = i + 1;
    }
    i
}

proof fn lemma_field_end_bounds(s: Seq<char>, from: int)
    requires
        0 <= from <= s.len(),
    ensures
        from <= field_end(s, from) <= s.len(),
        forall|i: int| from <= i < field_end(s, from) ==> s[i] != ' ',
    decreases s.len() - from,
{
    if from < s.len() && s[from] != ' ' {
        lemma_field_end_bounds(s, from + 1);
    }
}

/// The term of a frequency dictionary line holds no space.
pub proof fn lemma_entry_term(s: Seq<char>)
    ensures
        frequency_entry(s) matches Some((t, _)) ==> !t.contains(' '),
{
    lemma_field_end_bounds(s, 0);
    if frequency_entry(s) is Some {
        let t = s.subrange(0, field_end(s, 0));
        assert forall|i: int| 0 <= i < t.len() implies t[i] != ' ' by {
            assert(t[i] == s[i]);
        }
    }
}

/// Reads one line of a frequency dictionary.
pub fn parse_frequency_line(line: &str) -> (r: Option<(String, i64)>)
    ensures
        r matches Some((t, c)) ==> frequency_entry(line@) == Some((t@, c as int)),
        r is None ==> frequency_entry(line@) is None,
{
    let n = line.unicode_len();
    let e0 = find_field_end(line, 0);
    if e0 >= n {
        return None;
    }
    let e1 = find_field_end(line, e0 + 1);
    let ghost d = line@.subrange(e0 + 1, e1 as int);
    if e1 == e0 + 1 {
        return None;
    }
    let mut value: i64 = 0;
    let mut i: usize = e0 + 1;
    while i < e1
        invariant
            n == line@.len(),
            e0 < n,
            e0 + 1 < e1 <= n,
            d == line@.subrange(e0 + 1, e1 as int),
            e0 == field_end(line@, 0),
            e1 == field_end(line@, e0 + 1),
            e0 + 1 <= i <= e1,
            forall|j: int| 0 <= j < i - (e0 + 1) ==> is_digit(#[trigger] d[j]),
            value == decimal_value(d.take(i - (e0 + 1))),
            0 <= value,
        decreases e1 - i,
    {
        let c = line.get_char(i);
        let ghost k = i - (e0 + 1);
        proof {
            assert(d[k] == c);
            assert(d.take(k + 1).drop_last() =~= d.take(k));
        }
        if !('0' <= c && c <= '9') {
            assert(!is_count(d));
            return None;
        }
        let digit = (c as u32 - '0' as u32) as i64;
        match value.checked_mul(10) {
            None => {
                proof {
                    lemma_decimal_prefix_grows(d, k + 1);
                }
                return None;
            },
            Some(v10) => match v10.checked_add(digit) {
                None => {
                    proof {
                        lemma_decimal_prefix_grows(d, k + 1);
                    }
                    return None;
                },
                Some(v) => {
                    value = v;
                },
            },
        }
        i = i + 1;
    }
    proof {
        assert(d.take(d.len() as int) =~= d);
    }
    let term = line.substring_char(0, e0);
    Some((owned(term), value))
}

proof fn lemma_decimal_prefix_grows(d: Seq<char>, k: int)
    requires
        0 < k <= d.len(),
        forall|j: int| 0 <= j < k ==> is_digit(#[trigger] d[j]),
        decimal_value(d.take(k)) > i64::MAX,
    ensures
        !is_count(d),
    decreases d.len() - k,
{
    if k < d.len() {
        if forall|j: int| 0 <= j < k + 1 ==> is_digit(#[trigger] d[j]) {
            assert(d.take(k + 1).drop_last() =~= d.take(k));
            lemma_decimal_prefix_grows(d, k + 1);
        }
    } else {
        assert(d.take(k) =~= d);
    }
}

} // verus!
