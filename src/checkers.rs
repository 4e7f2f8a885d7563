//! The checkers of one language: grammar rules and a tokenizer, a spelling
//! index, and the custom dictionary; and the suggestions they make on a text.
use vstd::prelude::*;

use crate::annotations::{Annotations, no_expansion, original_len, plain_text};
use crate::api::{Language, Match, passes_filter, spelling_id};
use crate::dictionary::{CustomDictionary, texts};
use crate::model::{frequency_entry, lemma_entry_term, parse_frequency_line};
use crate::pipeline::{
    AnalyzedSentence,
    Candidate,
    RawSuggestion,
    same_distance,
    TokenSpan,
    lookups_where_wanted,
    wants_spelling,
    assemble,
    lemma_known_word_not_flagged,
    lemma_not_wanted_not_flagged,
    lemma_suggestions_laws,
    models_all,
    token_spec,
    spelling_wanted,
    suggestions_spec,
    within,
};
use crate::text::{lowercase_of, to_lowercase, transliterate, transliteration_of};

verus! {

/// Largest edit distance of a spelling lookup.
pub const MAX_EDIT_DISTANCE: i64 = 3;

#[verifier::external_type_specification]
#[verifier::external_body]
pub struct ExTokenizer(nlprule::Tokenizer);

#[verifier::external_type_specification]
#[verifier::external_body]
pub struct ExRules(nlprule::Rules);

/// A spelling index: a frequency dictionary searched by edit distance.
#[verifier::external_body]
pub struct SpellingIndex {
    index: symspell::SymSpell<symspell::AsciiStringStrategy>,
}

/// The largest edit distance that a spelling index was built for.
pub uninterp spec fn lookup_bound(index: SpellingIndex) -> int;

/// The words of a spelling index, with their frequencies.
pub uninterp spec fn spelling_words(index: SpellingIndex) -> Map<Seq<char>, int>;

/// The least frequency that a spelling index takes a word in with.
pub uninterp spec fn entry_threshold(index: SpellingIndex) -> int;

/// What a lookup in a spelling index returns: terms and their distances.
pub uninterp spec fn lookup_of(index: SpellingIndex, word: Seq<char>, max_distance: int) -> Seq<
    (Seq<char>, int),
>;

/// The tokens of each sentence of a text, as a tokenizer reads it.
pub uninterp spec fn sentence_tokens_of(tokenizer: nlprule::Tokenizer, text: Seq<char>) -> Seq<
    Seq<(int, int, Seq<char>)>,
>;

/// The grammar rules' findings on each sentence of a text.
pub uninterp spec fn rule_findings_of(
    rules: nlprule::Rules,
    tokenizer: nlprule::Tokenizer,
    text: Seq<char>,
) -> Seq<Seq<(int, int, Seq<char>, Seq<Seq<char>>, Seq<char>)>>;

/// Tokens as start, end and word.
pub open spec fn token_views(ts: Seq<TokenSpan>) -> Seq<(int, int, Seq<char>)> {
    ts.map_values(|t: TokenSpan| (t.start as int, t.end as int, t.word@))
}

/// Findings as start, end, message, replacements and rule id.
pub open spec fn finding_views(fs: Seq<RawSuggestion>) -> Seq<
    (int, int, Seq<char>, Seq<Seq<char>>, Seq<char>),
> {
    fs.map_values(
        |f: RawSuggestion|
            (f.start as int, f.end as int, f.message@, texts(f.replacements@), f.rule_id@),
    )
}

/// Candidates as term and distance.
pub open spec fn candidate_views(cs: Seq<Candidate>) -> Seq<(Seq<char>, int)> {
    cs.map_values(|c: Candidate| (c.term@, c.distance as int))
}

/// No words at all.
pub open spec fn no_words() -> Map<Seq<char>, int> {
    Map::empty()
}

/// The frequencies after adding `count` to `key`: counts under 1 are
/// ignored, and a sum beyond `i64::MAX` stays at `i64::MAX`.
pub open spec fn with_entry(words: Map<Seq<char>, int>, key: Seq<char>, count: int) -> Map<
    Seq<char>,
    int,
> {
    if count < 1 {
        words
    } else if words.contains_key(key) {
        words.insert(
            key,
            if i64::MAX - words[key] > count {
                words[key] + count
            } else {
                i64::MAX as int
            },
        )
    } else {
        words.insert(key, count)
    }
}

/// Relies on `SymSpellBuilder::max_dictionary_edit_distance` and `build`: an
/// empty index for lookups up to `max_distance`, taking words of frequency 1
/// and more. Every field of the builder has a default and nothing is
/// validated, so `build` succeeds.
#[verifier::external_body]
fn new_spelling_index(max_distance: i64) -> (r: SpellingIndex)
    ensures
        lookup_bound(r) == max_distance,
        spelling_words(r) == no_words(),
        entry_threshold(r) == 1,
{
    let index = symspell::SymSpellBuilder::<symspell::AsciiStringStrategy>::default()
        .max_dictionary_edit_distance(max_distance)
        .build()
        .unwrap();
    SpellingIndex { index }
}

/// Relies on `SymSpell::load_dictionary_line`: adds `count` to the frequency of
/// the transliteration of `term`, when `count` reaches the index's threshold,
/// saturating at `i64::MAX`. The line handed over is `term count`, which
/// splits into exactly these two fields when `term` holds no space, so the
/// count parses.
#[verifier::external_body]
fn add_spelling_entry(index: &mut SpellingIndex, term: &str, count: i64)
    requires
        !term@.contains(' '),
        entry_threshold(*old(index)) == 1,
    ensures
        lookup_bound(*final(index)) == lookup_bound(*old(index)),
        entry_threshold(*final(index)) == entry_threshold(*old(index)),
        spelling_words(*final(index)) == with_entry(
            spelling_words(*old(index)),
            transliteration_of(term@),
            count as int,
        ),
{
    index.index.load_dictionary_line(&format!("{} {}", term, count), 0, 1, " ");
}

/// Relies on `SymSpell::lookup` with `Verbosity::Closest`: the dictionary
/// words nearest to `word` within `max_distance` edits, with their distances.
/// A word of the dictionary (after transliteration) is returned alone, at
/// distance 0, and otherwise every candidate returned is at the same, least
/// distance found. It panics when `max_distance` exceeds the index's own
/// bound; a negative bound would hide the words of the dictionary.
#[verifier::external_body]
fn lookup(index: &SpellingIndex, word: &str, max_distance: i64) -> (r: Vec<Candidate>)
    requires
        0 <= lookup_bound(*index),
        max_distance <= lookup_bound(*index),
    ensures
        same_distance(r@),
        candidate_views(r@) == lookup_of(*index, word@, max_distance as int),
        spelling_words(*index).contains_key(transliteration_of(word@)) ==> candidate_views(r@)
            == seq![(transliteration_of(word@), 0int)],
{
    index.index.lookup(word, symspell::Verbosity::Closest, max_distance).into_iter().map(
        |s| Candidate { term: s.term, distance: s.distance },
    ).collect()
}

/// Relies on `Tokenizer::pipe` and `Rules::apply`: for each sentence of a
/// text, its tokens (word and character span in the text) and the grammar
/// rules' findings on it (span, message, replacements, rule id).
#[verifier::external_body]
fn analyze(tokenizer: &nlprule::Tokenizer, rules: &nlprule::Rules, text: &str) -> (r: Vec<
    (Vec<TokenSpan>, Vec<RawSuggestion>),
>)
    ensures
        r@.len() == sentence_tokens_of(*tokenizer, text@).len(),
        r@.len() == rule_findings_of(*rules, *tokenizer, text@).len(),
        forall|i: int|
            0 <= i < r@.len() ==> token_views((#[trigger] r@[i]).0@) == sentence_tokens_of(
                *tokenizer,
                text@,
            )[i] && finding_views(r@[i].1@) == rule_findings_of(*rules, *tokenizer, text@)[i],
{
    tokenizer.pipe(text).map(|s| {
        let tokens = s.tokens().iter().map(|t| TokenSpan {
            start: t.span().start().char, end: t.span().end().char, word: t.word().as_str().to_string(),
        }).collect();
        let found = rules.apply(&s).into_iter().map(|f| RawSuggestion {
            start: f.span().start().char, end: f.span().end().char, message: f.message().to_string(),
            replacements: f.replacements().to_vec(), rule_id: f.source().to_string(),
        }).collect();
        (tokens, found)
    }).collect()
}

/// The key a token is looked up by: its transliteration, lowercased.
pub open spec fn spelling_key(word: Seq<char>) -> Seq<char> {
    lowercase_of(transliteration_of(word))
}

/// `c` is what the index returns for `key`: candidates all at one distance,
/// and a word of the index alone, at distance 0.
pub open spec fn found_by(index: SpellingIndex, key: Seq<char>, c: Seq<Candidate>) -> bool {
    &&& candidate_views(c) == lookup_of(index, key, MAX_EDIT_DISTANCE as int)
    &&& same_distance(c)
    &&& spelling_words(index).contains_key(transliteration_of(key)) ==> candidate_views(c) == seq![
        (transliteration_of(key), 0int),
    ]
}

/// `ss` holds what the detectors report on a text: the tokenizer's tokens and
/// the rules' findings on each sentence, and the index's answer for each token
/// whose spelling is wanted.
pub open spec fn detected(
    ss: Seq<AnalyzedSentence>,
    tokens: Seq<Seq<(int, int, Seq<char>)>>,
    findings: Seq<Seq<(int, int, Seq<char>, Seq<Seq<char>>, Seq<char>)>>,
    index: SpellingIndex,
    dict: Set<Seq<char>>,
) -> bool {
    &&& ss.len() == tokens.len()
    &&& ss.len() == findings.len()
    &&& forall|k: int|
        0 <= k < ss.len() ==> {
            &&& token_views((#[trigger] ss[k]).tokens@) == tokens[k]
            &&& finding_views(ss[k].suggestions@) == findings[k]
            &&& lookups_where_wanted(dict, ss[k])
            &&& forall|j: int|
                0 <= j < ss[k].lookups@.len() ==> ((#[trigger] ss[k].lookups@[j]) matches Some(c)
                    ==> found_by(index, spelling_key(ss[k].tokens@[j].word@), c@))
        }
}

/// The checkers of one language.
pub struct Checkers {
    tokenizer: nlprule::Tokenizer,
    rules: nlprule::Rules,
    spelling: SpellingIndex,
    custom_dictionary: CustomDictionary,
    pub language: Language,
}

impl Checkers {
    /// The spelling index serves lookups up to `MAX_EDIT_DISTANCE` and takes
    /// words of frequency 1 and more, and the custom dictionary is well formed.
    pub closed spec fn wf(&self) -> bool {
        &&& lookup_bound(self.spelling) >= MAX_EDIT_DISTANCE
        &&& entry_threshold(self.spelling) == 1
        &&& self.custom_dictionary.wf()
    }

    /// The language served.
    pub closed spec fn lang(&self) -> Language {
        self.language
    }

    /// The words of the custom dictionary.
    pub closed spec fn dictionary(&self) -> Set<Seq<char>> {
        self.custom_dictionary@
    }

    /// The tokenizer.
    pub closed spec fn tokenizer_of(&self) -> nlprule::Tokenizer {
        self.tokenizer
    }

    /// The grammar rules.
    pub closed spec fn rules_of(&self) -> nlprule::Rules {
        self.rules
    }

    /// The spelling index.
    pub closed spec fn spelling_of(&self) -> SpellingIndex {
        self.spelling
    }

    /// The words of the spelling index, with their frequencies.
    pub closed spec fn frequencies(&self) -> Map<Seq<char>, int> {
        spelling_words(self.spelling)
    }

    /// Checkers with an empty spelling index and an empty custom dictionary.
    pub fn new(tokenizer: nlprule::Tokenizer, rules: nlprule::Rules, language: Language) -> (r:
        Checkers)
        ensures
            r.wf(),
            r.dictionary() == Set::<Seq<char>>::empty(),
            r.frequencies() == no_words(),
            r.lang() == language,
            r.tokenizer_of() == tokenizer,
            r.rules_of() == rules,
    {
        Checkers {
            tokenizer,
            rules,
            spelling: new_spelling_index(MAX_EDIT_DISTANCE),
            custom_dictionary: CustomDictionary::new(),
            language,
        }
    }

    /// Adds `count` to the frequency of `term` (transliterated) in the
    /// spelling index; `false` (and nothing added) when the term holds a space.
    pub fn add_frequency(&mut self, term: &str, count: i64) -> (r: bool)
        requires
            old(self).wf(),
        ensures
            final(self).wf(),
            final(self).dictionary() == old(self).dictionary(),
            final(self).lang() == old(self).lang(),
            final(self).tokenizer_of() == old(self).tokenizer_of(),
            final(self).rules_of() == old(self).rules_of(),
            r == !term@.contains(' '),
            r ==> final(self).frequencies() == with_entry(
                old(self).frequencies(),
                transliteration_of(term@),
                count as int,
            ),
            !r ==> final(self).frequencies() == old(self).frequencies(),
    {
        let mut i: usize = 0;
        let n = term.unicode_len();
        while i < n
            invariant
                n == term@.len(),
                i <= n,
                forall|j: int| 0 <= j < i ==> term@[j] != ' ',
                self.wf(),
                self.dictionary() == old(self).dictionary(),
                self.lang() == old(self).lang(),
                self.frequencies() == old(self).frequencies(),
                self.tokenizer_of() == old(self).tokenizer_of(),
                self.rules_of() == old(self).rules_of(),
            decreases n - i,
        {
            if term.get_char(i) == ' ' {
                assert(term@[i as int] == ' ');
                return false;
            }
            i = i + 1;
        }
        add_spelling_entry(&mut self.spelling, term, count);
        true
    }

    /// Adds one line `term count` of a frequency dictionary to the spelling
    /// index; `false` (and nothing added) when the line is no such entry.
    pub fn load_frequency_line(&mut self, line: &str) -> (r: bool)
        requires
            old(self).wf(),
        ensures
            final(self).wf(),
            final(self).dictionary() == old(self).dictionary(),
            final(self).lang() == old(self).lang(),
            final(self).tokenizer_of() == old(self).tokenizer_of(),
            final(self).rules_of() == old(self).rules_of(),
            r == frequency_entry(line@) is Some,
            frequency_entry(line@) matches Some((t, c)) ==> final(self).frequencies() == with_entry(
                old(self).frequencies(),
                transliteration_of(t),
                c,
            ),
            frequency_entry(line@) is None ==> final(self).frequencies() == old(self).frequencies(),
    {
        proof {
            lemma_entry_term(line@);
        }
        match parse_frequency_line(line) {
            Some((term, count)) => self.add_frequency(term.as_str(), count),
            None => false,
        }
    }

    /// Adds the words of a dictionary file to the custom dictionary.
    pub fn add_dictionary_words(&mut self, contents: &str)
        requires
            old(self).wf(),
        ensures
            final(self).wf(),
            final(self).dictionary() == old(self).dictionary()
                + crate::dictionary::dictionary_words(contents@).to_set(),
            final(self).lang() == old(self).lang(),
            final(self).frequencies() == old(self).frequencies(),
            final(self).tokenizer_of() == old(self).tokenizer_of(),
            final(self).rules_of() == old(self).rules_of(),
    {
        self.custom_dictionary.add_words(contents);
    }

    /// Replaces the custom dictionary by the words of a dictionary file.
    pub fn replace_dictionary(&mut self, contents: &str)
        requires
            old(self).wf(),
        ensures
            final(self).wf(),
            final(self).dictionary() == crate::dictionary::dictionary_words(contents@).to_set(),
            final(self).lang() == old(self).lang(),
            final(self).frequencies() == old(self).frequencies(),
            final(self).tokenizer_of() == old(self).tokenizer_of(),
            final(self).rules_of() == old(self).rules_of(),
    {
        let mut fresh = CustomDictionary::new();
        fresh.add_words(contents);
        assert(fresh@ =~= crate::dictionary::dictionary_words(contents@).to_set());
        self.custom_dictionary = fresh;
    }

    /// Empties the custom dictionary.
    pub fn clear_dictionary(&mut self)
        requires
            old(self).wf(),
        ensures
            final(self).wf(),
            final(self).dictionary() == Set::<Seq<char>>::empty(),
            final(self).lang() == old(self).lang(),
            final(self).frequencies() == old(self).frequencies(),
            final(self).tokenizer_of() == old(self).tokenizer_of(),
            final(self).rules_of() == old(self).rules_of(),
    {
        self.custom_dictionary.clear();
    }

    /// Number of words in the custom dictionary.
    pub fn dictionary_len(&self) -> (r: usize)
        requires
            self.wf(),
        ensures
            r == self.dictionary().len(),
    {
        self.custom_dictionary.len()
    }

    /// The suggestions on a document: for each sentence that the tokenizer
    /// finds in the analysed text, the grammar rules' findings that pass the
    /// filter, then per token a repeated word and a spelling mistake (given
    /// the spelling index's answer), all in document offsets.
    pub fn suggest(&self, annotations: &Annotations) -> (r: Vec<Match>)
        requires
            self.wf(),
            annotations.fits(),
        ensures
            exists|ss: Seq<AnalyzedSentence>|
                detected(
                    ss,
                    sentence_tokens_of(self.tokenizer_of(), plain_text(annotations.annotation@)),
                    rule_findings_of(
                        self.rules_of(),
                        self.tokenizer_of(),
                        plain_text(annotations.annotation@),
                    ),
                    self.spelling_of(),
                    self.dictionary(),
                ) && models_all(
                    r@,
                    #[trigger] suggestions_spec(annotations.annotation@, self.dictionary(), ss),
                ),
            forall|i: int| 0 <= i < r@.len() ==> passes_filter(#[trigger] r@[i].rule.id@),
            no_expansion(annotations.annotation@) ==> forall|i: int|
                0 <= i < r@.len() ==> (#[trigger] r@[i]).offset + r@[i].length <= original_len(
                    annotations.annotation@,
                ),
    {
        let text = annotations.text();
        let ghost tokens = sentence_tokens_of(self.tokenizer, text@);
        let ghost findings = rule_findings_of(self.rules, self.tokenizer, text@);
        let ghost dict = self.custom_dictionary@;
        let mut found = analyze(&self.tokenizer, &self.rules, text.as_str());
        let ghost all = found@;
        let n = found.len();
        let mut analyzed: Vec<AnalyzedSentence> = Vec::new();
        let mut i: usize = 0;
        while i < n
            invariant
                self.wf(),
                dict == self.custom_dictionary@,
                n == all.len(),
                all.len() == tokens.len(),
                all.len() == findings.len(),
                forall|k: int|
                    0 <= k < all.len() ==> token_views((#[trigger] all[k]).0@) == tokens[k]
                        && finding_views(all[k].1@) == findings[k],
                i <= n,
                found@ == all.skip(i as int),
                analyzed@.len() == i,
                forall|k: int|
                    0 <= k < i ==> {
                        &&& token_views((#[trigger] analyzed@[k]).tokens@) == tokens[k]
                        &&& finding_views(analyzed@[k].suggestions@) == findings[k]
                        &&& lookups_where_wanted(dict, analyzed@[k])
                        &&& forall|j: int|
                            0 <= j < analyzed@[k].lookups@.len() ==> ((
                            #[trigger] analyzed@[k].lookups@[j]) matches Some(c) ==> found_by(
                                self.spelling,
                                spelling_key(analyzed@[k].tokens@[j].word@),
                                c@,
                            ))
                    },
            decreases n - i,
        {
            assert(found@[0] == all[i as int]);
            let (tokens_i, suggestions) = found.remove(0);
            assert(found@ =~= all.skip(i + 1));
            let mut lookups: Vec<Option<Vec<Candidate>>> = Vec::new();
            let mut j: usize = 0;
            while j < tokens_i.len()
                invariant
                    self.wf(),
                    dict == self.custom_dictionary@,
                    j <= tokens_i@.len(),
                    lookups@.len() == j,
                    forall|k: int|
                        0 <= k < j ==> ((#[trigger] lookups@[k]) is Some <==> wants_spelling(
                            dict,
                            tokens_i@,
                            k,
                        )),
                    forall|k: int|
                        0 <= k < j ==> ((#[trigger] lookups@[k]) matches Some(c) ==> found_by(
                            self.spelling,
                            spelling_key(tokens_i@[k].word@),
                            c@,
                        )),
                decreases tokens_i@.len() - j,
            {
                if spelling_wanted(&self.custom_dictionary, &tokens_i, j) {
                    let t = transliterate(tokens_i[j].word.as_str());
                    let l = to_lowercase(t.as_str());
                    lookups.push(Some(lookup(&self.spelling, l.as_str(), MAX_EDIT_DISTANCE)));
                } else {
                    lookups.push(None);
                }
                j = j + 1;
            }
            let sentence = AnalyzedSentence { suggestions, tokens: tokens_i, lookups };
            let ghost before = analyzed@;
            analyzed.push(sentence);
            assert(forall|k: int| 0 <= k < before.len() ==> analyzed@[k] == before[k]);
            assert(analyzed@[i as int] == sentence);
            i = i + 1;
        }
        let r = assemble(annotations, &self.custom_dictionary, &analyzed);
        proof {
            let f = annotations.annotation@;
            let specs = suggestions_spec(f, self.custom_dictionary@, analyzed@);
            lemma_suggestions_laws(f, self.custom_dictionary@, analyzed@);
            assert(detected(analyzed@, tokens, findings, self.spelling, dict));
            assert(models_all(r@, suggestions_spec(f, self.dictionary(), analyzed@)));
            assert forall|k: int| 0 <= k < r@.len() implies passes_filter(#[trigger] r@[k].rule.id@) by {
                assert(r@[k].models(specs[k]));
            }
            if no_expansion(f) {
                assert forall|k: int| 0 <= k < r@.len() implies (#[trigger] r@[k]).offset
                    + r@[k].length <= original_len(f) by {
                    assert(r@[k].models(specs[k]));
                    assert(within(specs[k], original_len(f) as int));
                }
            }
        }
        r
    }
}

/// A token whose lookup key (transliterated) is a word of the spelling index
/// is not flagged as a spelling mistake, in any detector report on a text.
pub proof fn lemma_indexed_word_not_flagged(
    f: Seq<crate::annotations::AnnotationElement>,
    ss: Seq<AnalyzedSentence>,
    tokens: Seq<Seq<(int, int, Seq<char>)>>,
    findings: Seq<Seq<(int, int, Seq<char>, Seq<Seq<char>>, Seq<char>)>>,
    index: SpellingIndex,
    dict: Set<Seq<char>>,
    k: int,
    j: int,
)
    requires
        detected(ss, tokens, findings, index, dict),
        0 <= k < ss.len(),
        0 <= j < ss[k].tokens@.len(),
        spelling_words(index).contains_key(
            transliteration_of(spelling_key(ss[k].tokens@[j].word@)),
        ),
    ensures
        forall|i: int|
            0 <= i < token_spec(f, dict, ss[k].tokens@, ss[k].lookups@, j).len() ==> (
            #[trigger] token_spec(f, dict, ss[k].tokens@, ss[k].lookups@, j)[i]).rule_id
                != spelling_id(),
{
    let s = ss[k];
    if s.lookups@[j] is Some {
        let c = s.lookups@[j]->0@;
        assert(found_by(index, spelling_key(s.tokens@[j].word@), c));
        assert(candidate_views(c).len() == 1);
        assert(candidate_views(c)[0].1 == 0);
        lemma_known_word_not_flagged(f, dict, s.tokens@, s.lookups@, j);
    } else {
        assert(!wants_spelling(dict, s.tokens@, j));
        lemma_not_wanted_not_flagged(f, dict, s.tokens@, s.lookups@, j);
    }
}

} // verus!
