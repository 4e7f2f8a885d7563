//! The custom dictionary: words that the user accepts, which silence spelling
//! suggestions. It can be emptied and filled again while the checkers live.
use vstd::prelude::*;

use crate::text::{owned, push_char};

verus! {

/// ASCII whitespace, as `str::split_ascii_whitespace` separates on it.
pub open spec fn ascii_ws(c: char) -> bool {
    c == ' ' || c == '\t' || c == '\n' || c == '\x0C' || c == '\r'
}

/// ASCII lowercase of a character; other characters are kept.
pub open spec fn ascii_lower(c: char) -> char {
    if 'A' <= c <= 'Z' {
        ((c as u32) + 32) as char
    } else {
        c
    }
}

/// Computes `ascii_lower`.
fn to_ascii_lower(c: char) -> (r: char)
    ensures
        r == ascii_lower(c),
{
    if 'A' <= c && c <= 'Z' {
        ((c as u8) + 32) as char
    } else {
        c
    }
}

/// The words finished so far in `s`, and the word being read at its end.
pub open spec fn split_words(s: Seq<char>) -> (Seq<Seq<char>>, Seq<char>)
    decreases s.len(),
{
    if s.len() == 0 {
        (Seq::empty(), Seq::empty())
    } else {
        let (ws, cur) = split_words(s.drop_last());
        let c = s.last();
        if ascii_ws(c) {
            if cur.len() > 0 {
                (ws.push(cur), Seq::empty())
            } else {
                (ws, Seq::empty())
            }
        } else {
            (ws, cur.push(ascii_lower(c)))
        }
    }
}

/// The words of a dictionary file: the runs of non-whitespace characters, in
/// ASCII lowercase.
pub open spec fn dictionary_words(s: Seq<char>) -> Seq<Seq<char>> {
    let (ws, cur) = split_words(s);
    if cur.len() > 0 {
        ws.push(cur)
    } else {
        ws
    }
}

/// `w` with one trailing `s` removed, if it ends with one.
pub open spec fn without_plural_s(w: Seq<char>) -> Seq<char> {
    if w.len() > 0 && w.last() == 's' {
        w.drop_last()
    } else {
        w
    }
}

/// Splits the text of a dictionary file into its words.
pub fn parse_words(contents: &str) -> (r: Vec<String>)
    ensures
        texts(r@) == dictionary_words(contents@),
{
    let mut words: Vec<String> = Vec::new();
    let mut cur = String::new();
    for c in it: contents.chars()
        invariant
            it.seq() == contents@,
            (texts(words@), cur@) == split_words(contents@.take(it.index())),
    {
        let ghost before = contents@.take(it.index());
        proof {
            assert(contents@.take(it.index() + 1).drop_last() =~= before);
        }
        if c == ' ' || c == '\t' || c == '\n' || c == '\x0C' || c == '\r' {
            if cur.unicode_len() > 0 {
                let ghost old_words = words@;
                words.push(cur);
                proof {
                    assert(texts(words@) =~= texts(old_words).push(split_words(before).1));
                }
                cur = String::new();
            }
        } else {
            push_char(&mut cur, to_ascii_lower(c));
        }
    }
    proof {
        assert(contents@.take(contents@.len() as int) =~= contents@);
    }
    if cur.unicode_len() > 0 {
        let ghost old_words = words@;
        words.push(cur);
        proof {
            assert(texts(words@) =~= texts(old_words).push(split_words(contents@).1));
        }
    }
    words
}

/// A set of accepted words.
#[derive(Debug)]
pub struct CustomDictionary {
    words: Vec<String>,
}

/// The characters of each string.
pub open spec fn texts(ws: Seq<String>) -> Seq<Seq<char>> {
    ws.map_values(|w: String| w@)
}

impl View for CustomDictionary {
    type V = Set<Seq<char>>;

    closed spec fn view(&self) -> Set<Seq<char>> {
        texts(self.words@).to_set()
    }
}

impl CustomDictionary {
    /// No word is held twice.
    pub closed spec fn wf(&self) -> bool {
        texts(self.words@).no_duplicates()
    }

    /// An empty dictionary.
    pub fn new() -> (r: CustomDictionary)
        ensures
            r.wf(),
            r@ == Set::<Seq<char>>::empty(),
    {
        let r = CustomDictionary { words: Vec::new() };
        assert(texts(r.words@) =~= Seq::<Seq<char>>::empty());
        assert(r@ =~= Set::<Seq<char>>::empty());
        r
    }

    /// Number of words held.
    pub fn len(&self) -> (r: usize)
        requires
            self.wf(),
        ensures
            r == self@.len(),
    {
        proof {
            texts(self.words@).unique_seq_to_set();
        }
        self.words.len()
    }

    /// Whether `w` is held.
    pub fn contains(&self, w: &str) -> (r: bool)
        ensures
            r == self@.contains(w@),
    {
        let target = owned(w);
        let ghost t = texts(self.words@);
        let mut i: usize = 0;
        while i < self.words.len()
            invariant
                target@ == w@,
                t == texts(self.words@),
                i <= self.words@.len(),
                forall|j: int| 0 <= j < i ==> t[j] != w@,
            decreases self.words@.len() - i,
        {
            if self.words[i] == target {
                assert(t[i as int] == w@);
                assert(t.contains(w@));
                return true;
            }
            i = i + 1;
        }
        assert(!t.contains(w@));
        false
    }

    /// Adds one word.
    pub fn insert(&mut self, w: String)
        requires
            old(self).wf(),
        ensures
            final(self).wf(),
            final(self)@ == old(self)@.insert(w@),
    {
        if !self.contains(w.as_str()) {
            let ghost before = texts(self.words@);
            let ghost v = w@;
            self.words.push(w);
            proof {
                assert(texts(self.words@) =~= before.push(v));
                before.lemma_push_to_set_commute(v);
                assert(!before.contains(v));
                assert forall|i: int, j: int|
                    0 <= i < before.push(v).len() && 0 <= j < before.push(v).len() && i != j
                    implies before.push(v)[i] != before.push(v)[j] by {
                    if i == before.len() {
                        assert(before[j] == before.push(v)[j]);
                    } else if j == before.len() {
                        assert(before[i] == before.push(v)[i]);
                    }
                }
            }
        } else {
            assert(self@ =~= old(self)@.insert(w@));
        }
    }

    /// Removes every word.
    pub fn clear(&mut self)
        ensures
            final(self).wf(),
            final(self)@ == Set::<Seq<char>>::empty(),
    {
        self.words = Vec::new();
        assert(texts(self.words@) =~= Seq::<Seq<char>>::empty());
        assert(self@ =~= Set::<Seq<char>>::empty());
    }

    /// Adds the words of a dictionary file.
    pub fn add_words(&mut self, contents: &str)
        requires
            old(self).wf(),
        ensures
            final(self).wf(),
            final(self)@ == old(self)@ + dictionary_words(contents@).to_set(),
    {
        let words = parse_words(contents);
        let ghost ws = texts(words@);
        let mut i: usize = 0;
        while i < words.len()
            invariant
                ws == texts(words@),
                i <= words@.len(),
                self.wf(),
                self@ == old(self)@ + ws.take(i as int).to_set(),
            decreases words@.len() - i,
        {
            let w = words[i].clone();
            self.insert(w);
            proof {
                assert(ws.take(i + 1) =~= ws.take(i as int).push(ws[i as int]));
                ws.take(i as int).lemma_push_to_set_commute(ws[i as int]);
                assert(self@ =~= old(self)@ + ws.take(i + 1).to_set());
            }
            i = i + 1;
        }
        proof {
            assert(ws.take(ws.len() as int) =~= ws);
        }
    }

    /// Whether `w` is accepted: held as it is, or without one trailing `s`.
    pub fn accepts(&self, w: &str) -> (r: bool)
        ensures
            r == (self@.contains(w@) || self@.contains(without_plural_s(w@))),
    {
        if self.contains(w) {
            return true;
        }
        let n = w.unicode_len();
        if n > 0 && w.get_char(n - 1) == 's' {
            assert(w@.subrange(0, n - 1) =~= w@.drop_last());
            self.contains(w.substring_char(0, n - 1))
        } else {
            false
        }
    }
}

} // verus!
