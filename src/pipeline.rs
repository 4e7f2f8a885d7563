//! The suggestion pipeline: from what the detectors report, in plain-text
//! offsets, to the matches of a response, in document offsets.
use vstd::prelude::*;

use crate::annotations::{
    Annotations,
    lemma_span_within,
    no_expansion,
    original_len,
    translate,
};
use crate::api::{Match, MatchSpec, Rule, passes_filter, spelling_id};
use crate::dictionary::{CustomDictionary, texts, without_plural_s};
use crate::text::{
    all_alphabetic,
    all_uppercase,
    lowercase_of,
    only_alphabetic,
    only_uppercase,
    owned,
    same_text,
    to_lowercase,
    transliterate,
    transliteration_of,
};

verus! {

/// Most spelling candidates that a match offers.
pub const MAX_CANDIDATES: usize = 5;

/// A token of a sentence, in plain-text character offsets.
#[derive(Debug)]
pub struct TokenSpan {
    pub start: usize,
    pub end: usize,
    pub word: String,
}

/// A grammar rule's finding, in plain-text character offsets.
#[derive(Debug)]
pub struct RawSuggestion {
    pub start: usize,
    pub end: usize,
    pub message: String,
    pub replacements: Vec<String>,
    pub rule_id: String,
}

/// A spelling candidate and its edit distance.
#[derive(Debug)]
pub struct Candidate {
    pub term: String,
    pub distance: i64,
}

/// A sentence with what the detectors reported on it: the grammar rules'
/// findings, its tokens, and for each token the spelling lookup made on it,
/// if one was.
#[derive(Debug)]
pub struct AnalyzedSentence {
    pub suggestions: Vec<RawSuggestion>,
    pub tokens: Vec<TokenSpan>,
    pub lookups: Vec<Option<Vec<Candidate>>>,
}

/// Offset and length in the document of the plain-text span `[a, b)`.
pub open spec fn span_spec(f: Seq<crate::annotations::AnnotationElement>, a: int, b: int) -> (
    int,
    int,
) {
    let (x, y) = translate(f, a, b);
    (x, if x <= y { y - x } else { 0 })
}

/// A detector's finding as a match.
pub open spec fn rule_match_spec(
    f: Seq<crate::annotations::AnnotationElement>,
    s: RawSuggestion,
) -> MatchSpec {
    let (o, l) = span_spec(f, s.start as int, s.end as int);
    MatchSpec {
        offset: o,
        length: l,
        message: s.message@,
        replacements: texts(s.replacements@),
        rule_id: s.rule_id@,
        issue_type: Seq::empty(),
    }
}

/// The grammar rules' findings that pass the filter, as matches, in order.
pub open spec fn rules_spec(
    f: Seq<crate::annotations::AnnotationElement>,
    ss: Seq<RawSuggestion>,
) -> Seq<MatchSpec>
    decreases ss.len(),
{
    if ss.len() == 0 {
        Seq::empty()
    } else {
        let prev = rules_spec(f, ss.drop_last());
        if passes_filter(ss.last().rule_id@) {
            prev.push(rule_match_spec(f, ss.last()))
        } else {
            prev
        }
    }
}

/// The message of a repeated word.
pub open spec fn duplicate_message() -> Seq<char> {
    "Possible typo: you repeated a word"@
}

/// A word and the next one are the same: one match over both.
pub open spec fn duplicate_spec(
    f: Seq<crate::annotations::AnnotationElement>,
    toks: Seq<TokenSpan>,
    i: int,
) -> Seq<MatchSpec> {
    if i + 1 < toks.len() && toks[i + 1].word@ == toks[i].word@ {
        let (o, l) = span_spec(f, toks[i].start as int, toks[i + 1].end as int);
        seq![
            MatchSpec {
                offset: o,
                length: l,
                message: duplicate_message(),
                replacements: seq![toks[i].word@],
                rule_id: Seq::empty(),
                issue_type: "duplication"@,
            },
        ]
    } else {
        Seq::empty()
    }
}

/// The apostrophes that mark a contraction or a possessive.
pub open spec fn is_apostrophe(w: Seq<char>) -> bool {
    w == "'"@ || w == "\u{2019}"@
}

/// Whether the spelling of token `i` is to be looked up: its transliteration is
/// alphabetic, not in the dictionary (as it is or without one trailing `s`,
/// lowercased), at least 3 characters long, not all uppercase, and not followed
/// by an apostrophe.
pub open spec fn wants_spelling(dict: Set<Seq<char>>, toks: Seq<TokenSpan>, i: int) -> bool {
    let t = transliteration_of(toks[i].word@);
    let l = lowercase_of(t);
    &&& all_alphabetic(t)
    &&& !(dict.contains(l) || dict.contains(without_plural_s(l)))
    &&& t.len() >= 3
    &&& !all_uppercase(t)
    &&& (i + 1 < toks.len() ==> !is_apostrophe(toks[i + 1].word@))
}

/// The lookup found the word itself and nothing else.
pub open spec fn known_word(c: Seq<Candidate>) -> bool {
    c.len() == 1 && c[0].distance == 0
}

/// All candidates are at the same distance.
pub open spec fn same_distance(c: Seq<Candidate>) -> bool {
    forall|i: int| 0 <= i < c.len() ==> (#[trigger] c[i]).distance == c[0].distance
}

/// The candidate that a spelling message names, the last one returned, is at
/// the least distance of all when the candidates share one distance.
pub proof fn lemma_named_candidate_is_nearest(c: Seq<Candidate>)
    requires
        same_distance(c),
        c.len() > 0,
    ensures
        kept_terms(c)[0] == c[c.len() - 1].term@,
        forall|i: int| 0 <= i < c.len() ==> c[c.len() - 1].distance <= (#[trigger] c[i]).distance,
{
}

/// The candidates offered: farthest first, at most `MAX_CANDIDATES` of them.
pub open spec fn kept_terms(c: Seq<Candidate>) -> Seq<Seq<char>> {
    let n = if c.len() > MAX_CANDIDATES { MAX_CANDIDATES as int } else { c.len() as int };
    Seq::new(n as nat, |j: int| c[c.len() - 1 - j].term@)
}

/// The message of a spelling match, naming the first candidate offered.
pub open spec fn spelling_message(terms: Seq<Seq<char>>) -> Seq<char> {
    if terms.len() > 0 {
        "Possible spelling mistake."@ + " Did you mean "@ + terms[0] + "?"@
    } else {
        "Possible spelling mistake."@
    }
}

/// The spelling match of a token, given what the lookup returned.
pub open spec fn spelling_spec(
    f: Seq<crate::annotations::AnnotationElement>,
    t: TokenSpan,
    c: Seq<Candidate>,
) -> Seq<MatchSpec> {
    if known_word(c) {
        Seq::empty()
    } else {
        let (o, l) = span_spec(f, t.start as int, t.end as int);
        seq![
            MatchSpec {
                offset: o,
                length: l,
                message: spelling_message(kept_terms(c)),
                replacements: kept_terms(c),
                rule_id: spelling_id(),
                issue_type: Seq::empty(),
            },
        ]
    }
}

/// The matches of token `i`: a repetition, then a spelling mistake.
pub open spec fn token_spec(
    f: Seq<crate::annotations::AnnotationElement>,
    dict: Set<Seq<char>>,
    toks: Seq<TokenSpan>,
    lookups: Seq<Option<Vec<Candidate>>>,
    i: int,
) -> Seq<MatchSpec> {
    if !all_alphabetic(transliteration_of(toks[i].word@)) {
        Seq::empty()
    } else {
        duplicate_spec(f, toks, i) + if wants_spelling(dict, toks, i) && i < lookups.len()
            && lookups[i] is Some {
            spelling_spec(f, toks[i], lookups[i]->0@)
        } else {
            Seq::empty()
        }
    }
}

/// The matches of the first `n` tokens.
pub open spec fn tokens_spec(
    f: Seq<crate::annotations::AnnotationElement>,
    dict: Set<Seq<char>>,
    toks: Seq<TokenSpan>,
    lookups: Seq<Option<Vec<Candidate>>>,
    n: int,
) -> Seq<MatchSpec>
    decreases n,
{
    if n <= 0 {
        Seq::empty()
    } else {
        tokens_spec(f, dict, toks, lookups, n - 1) + token_spec(f, dict, toks, lookups, n - 1)
    }
}

/// The matches of a sentence: the grammar rules' first, then the tokens'.
pub open spec fn sentence_spec(
    f: Seq<crate::annotations::AnnotationElement>,
    dict: Set<Seq<char>>,
    s: AnalyzedSentence,
) -> Seq<MatchSpec> {
    rules_spec(f, s.suggestions@) + tokens_spec(f, dict, s.tokens@, s.lookups@, s.tokens@.len() as int)
}

/// The matches of a text, sentence by sentence.
pub open spec fn suggestions_spec(
    f: Seq<crate::annotations::AnnotationElement>,
    dict: Set<Seq<char>>,
    ss: Seq<AnalyzedSentence>,
) -> Seq<MatchSpec>
    decreases ss.len(),
{
    if ss.len() == 0 {
        Seq::empty()
    } else {
        suggestions_spec(f, dict, ss.drop_last()) + sentence_spec(f, dict, ss.last())
    }
}

/// A spelling lookup was made on a token exactly where one is wanted.
pub open spec fn lookups_where_wanted(dict: Set<Seq<char>>, s: AnalyzedSentence) -> bool {
    &&& s.lookups@.len() == s.tokens@.len()
    &&& forall|j: int|
        0 <= j < s.tokens@.len() ==> ((#[trigger] s.lookups@[j]) is Some <==> wants_spelling(
            dict,
            s.tokens@,
            j,
        ))
}

/// Each match holds its counterpart.
pub open spec fn models_all(ms: Seq<Match>, specs: Seq<MatchSpec>) -> bool {
    ms.len() == specs.len() && forall|i: int| 0 <= i < ms.len() ==> (#[trigger] ms[i]).models(specs[i])
}

proof fn lemma_models_push(ms: Seq<Match>, specs: Seq<MatchSpec>, m: Match, x: MatchSpec)
    requires
        models_all(ms, specs),
        m.models(x),
    ensures
        models_all(ms.push(m), specs.push(x)),
{
    assert forall|i: int| 0 <= i < ms.len() + 1 implies (#[trigger] ms.push(m)[i]).models(
        specs.push(x)[i],
    ) by {
        if i < ms.len() {
            assert(ms.push(m)[i] == ms[i]);
            assert(specs.push(x)[i] == specs[i]);
        }
    }
}

proof fn lemma_models_concat(ms: Seq<Match>, n: int, specs: Seq<MatchSpec>, tail: Seq<MatchSpec>)
    requires
        0 <= n <= ms.len(),
        models_all(ms.take(n), specs),
        models_all(ms.skip(n), tail),
    ensures
        models_all(ms, specs + tail),
{
    assert forall|i: int| 0 <= i < ms.len() implies (#[trigger] ms[i]).models((specs + tail)[i]) by {
        if i < n {
            assert(ms.take(n)[i] == ms[i]);
        } else {
            assert(ms.skip(n)[i - n] == ms[i]);
        }
    }
}

/// Document offset and length of the plain-text span `[a, b)`.
fn span(annotations: &Annotations, a: usize, b: usize) -> (r: (usize, usize))
    requires
        annotations.fits(),
    ensures
        r.0 == span_spec(annotations.annotation@, a as int, b as int).0,
        r.1 == span_spec(annotations.annotation@, a as int, b as int).1,
{
    let (x, y) = annotations.translate_span(a, b);
    if x <= y {
        (x, y - x)
    } else {
        (x, 0)
    }
}

fn clone_strings(v: &Vec<String>) -> (r: Vec<String>)
    ensures
        texts(r@) == texts(v@),
{
    let mut out: Vec<String> = Vec::new();
    let mut i: usize = 0;
    while i < v.len()
        invariant
            i <= v@.len(),
            texts(out@) == texts(v@).take(i as int),
        decreases v@.len() - i,
    {
        let c = v[i].clone();
        assert(c@ == texts(v@)[i as int]);
        let ghost before = out@;
        out.push(c);
        assert(texts(out@) =~= texts(before).push(c@));
        assert(texts(out@) =~= texts(v@).take(i + 1));
        i = i + 1;
    }
    assert(texts(v@).take(v@.len() as int) =~= texts(v@));
    out
}

proof fn lemma_models_from_new(m: Match, values: Seq<String>, x: MatchSpec)
    requires
        m.message@ == x.message,
        m.offset == x.offset,
        m.length == x.length,
        m.rule.is(x.rule_id, x.issue_type),
        m.short_message@.len() == 0,
        m.sentence@.len() == 0,
        m.context_for_sure_match == 0,
        !m.ignore_for_incomplete_sentence,
        m.match_type.name@.len() == 0,
        m.replacements@.len() == values.len(),
        forall|i: int|
            0 <= i < values.len() ==> (#[trigger] m.replacements@[i]).value == values[i]
                && m.replacements@[i].short_description is None,
        texts(values) == x.replacements,
    ensures
        m.models(x),
{
    assert forall|i: int| 0 <= i < x.replacements.len() implies (#[trigger] m.replacements@[i]).value@
        == x.replacements[i] && m.replacements@[i].short_description is None by {
        assert(texts(values)[i] == values[i]@);
    }
}

/// A grammar rule's finding as a match.
pub fn rule_match(annotations: &Annotations, s: &RawSuggestion) -> (r: Match)
    requires
        annotations.fits(),
    ensures
        r.models(rule_match_spec(annotations.annotation@, *s)),
{
    let (offset, length) = span(annotations, s.start, s.end);
    let values = clone_strings(&s.replacements);
    let r = Match::new(offset, length, s.message.clone(), values, Rule::from_id(s.rule_id.clone()));
    proof {
        lemma_models_from_new(r, values@, rule_match_spec(annotations.annotation@, *s));
    }
    r
}

/// The match of token `i` repeating the next one, if it does.
pub fn duplication_match(annotations: &Annotations, tokens: &Vec<TokenSpan>, i: usize) -> (r: Option<
    Match,
>)
    requires
        annotations.fits(),
        i < tokens@.len(),
    ensures
        duplicate_spec(annotations.annotation@, tokens@, i as int).len() == if r is Some {
            1int
        } else {
            0int
        },
        r matches Some(m) ==> m.models(duplicate_spec(annotations.annotation@, tokens@, i as int)[0]),
{
    let n = tokens.len();
    if n - i > 1 && tokens[i + 1].word == tokens[i].word {
        let (offset, length) = span(annotations, tokens[i].start, tokens[i + 1].end);
        let mut values: Vec<String> = Vec::new();
        values.push(tokens[i].word.clone());
        let ghost x = duplicate_spec(annotations.annotation@, tokens@, i as int)[0];
        let r = Match::new(offset, length, owned("Possible typo: you repeated a word"), values, Rule::duplication());
        proof {
            assert(texts(values@) =~= x.replacements);
            lemma_models_from_new(r, values@, x);
        }
        Some(r)
    } else {
        None
    }
}

/// Whether the spelling of token `i` is to be looked up.
pub fn spelling_wanted(dictionary: &CustomDictionary, tokens: &Vec<TokenSpan>, i: usize) -> (r: bool)
    requires
        i < tokens@.len(),
    ensures
        r == wants_spelling(dictionary@, tokens@, i as int),
{
    let t = transliterate(tokens[i].word.as_str());
    if !only_alphabetic(t.as_str()) {
        return false;
    }
    let l = to_lowercase(t.as_str());
    if dictionary.accepts(l.as_str()) {
        return false;
    }
    if t.as_str().unicode_len() < 3 {
        return false;
    }
    if only_uppercase(t.as_str()) {
        return false;
    }
    let n = tokens.len();
    if n - i > 1 {
        let next = tokens[i + 1].word.as_str();
        if same_text(next, "'") || same_text(next, "\u{2019}") {
            return false;
        }
    }
    true
}

/// The spelling match of a token, given what the lookup returned: none when
/// the lookup found the word itself alone.
pub fn spelling_match(annotations: &Annotations, token: &TokenSpan, candidates: &Vec<Candidate>) -> (r:
    Option<Match>)
    requires
        annotations.fits(),
    ensures
        spelling_spec(annotations.annotation@, *token, candidates@).len() == if r is Some {
            1int
        } else {
            0int
        },
        r matches Some(m) ==> m.models(spelling_spec(annotations.annotation@, *token, candidates@)[0]),
{
    let n = candidates.len();
    if n == 1 && candidates[0].distance == 0 {
        return None;
    }
    let k = if n > MAX_CANDIDATES {
        MAX_CANDIDATES
    } else {
        n
    };
    let ghost kept = kept_terms(candidates@);
    let mut values: Vec<String> = Vec::new();
    let mut j: usize = 0;
    while j < k
        invariant
            n == candidates@.len(),
            k <= n,
            k == kept.len(),
            kept == kept_terms(candidates@),
            j <= k,
            texts(values@) == kept.take(j as int),
        decreases k - j,
    {
        let c = candidates[n - 1 - j].term.clone();
        assert(c@ == kept[j as int]);
        let ghost before = values@;
        values.push(c);
        assert(texts(values@) =~= texts(before).push(c@));
        assert(texts(values@) =~= kept.take(j + 1));
        j = j + 1;
    }
    assert(kept.take(k as int) =~= kept);
    let mut message = owned("Possible spelling mistake.");
    if k > 0 {
        message.append(" Did you mean ");
        message.append(candidates[n - 1].term.as_str());
        message.append("?");
    }
    let (offset, length) = span(annotations, token.start, token.end);
    let ghost x = spelling_spec(annotations.annotation@, *token, candidates@)[0];
    let r = Match::new(offset, length, message, values, Rule::spelling());
    proof {
        lemma_models_from_new(r, values@, x);
    }
    Some(r)
}

/// Appends the matches of a sentence.
pub fn add_sentence_matches(
    annotations: &Annotations,
    dictionary: &CustomDictionary,
    sentence: &AnalyzedSentence,
    out: &mut Vec<Match>,
)
    requires
        annotations.fits(),
    ensures
        forall|specs: Seq<MatchSpec>|
            models_all(old(out)@, specs) ==> models_all(
                final(out)@,
                specs + sentence_spec(annotations.annotation@, dictionary@, *sentence),
            ),
{
    let ghost f = annotations.annotation@;
    let ghost dict = dictionary@;
    let ghost start = out@;
    let ghost rules = sentence.suggestions@;
    let mut i: usize = 0;
    while i < sentence.suggestions.len()
        invariant
            annotations.fits(),
            f == annotations.annotation@,
            rules == sentence.suggestions@,
            i <= rules.len(),
            out@.len() >= start.len(),
            out@.take(start.len() as int) == start,
            models_all(out@.skip(start.len() as int), rules_spec(f, rules.take(i as int))),
        decreases rules.len() - i,
    {
        proof {
            assert(rules.take(i + 1).drop_last() =~= rules.take(i as int));
            assert(rules.take(i + 1).last() == rules[i as int]);
        }
        let s = &sentence.suggestions[i];
        let m = rule_match(annotations, s);
        if m.filter() {
            let ghost before = out@;
            out.push(m);
            proof {
                lemma_models_push(before.skip(start.len() as int), rules_spec(f, rules.take(i as int)), m, rule_match_spec(f, *s));
                assert(out@.skip(start.len() as int) =~= before.skip(start.len() as int).push(m));
                assert(out@.take(start.len() as int) =~= start);
            }
        }
        i = i + 1;
    }
    proof {
        assert(rules.take(rules.len() as int) =~= rules);
    }
    let ghost mid = out@;
    let ghost rs = rules_spec(f, rules);
    let ghost toks = sentence.tokens@;
    let ghost lookups = sentence.lookups@;
    let mut j: usize = 0;
    while j < sentence.tokens.len()
        invariant
            annotations.fits(),
            f == annotations.annotation@,
            dict == dictionary@,
            toks == sentence.tokens@,
            lookups == sentence.lookups@,
            j <= toks.len(),
            out@.len() >= start.len(),
            out@.take(start.len() as int) == start,
            models_all(out@.skip(start.len() as int), rs + tokens_spec(f, dict, toks, lookups, j as int)),
        decreases toks.len() - j,
    {
        let ghost prev = rs + tokens_spec(f, dict, toks, lookups, j as int);
        let t = transliterate(sentence.tokens[j].word.as_str());
        if only_alphabetic(t.as_str()) {
            let ghost before = out@;
            match duplication_match(annotations, &sentence.tokens, j) {
                Some(m) => {
                    out.push(m);
                    proof {
                        lemma_models_push(before.skip(start.len() as int), prev, m, duplicate_spec(f, toks, j as int)[0]);
                        assert(out@.skip(start.len() as int) =~= before.skip(start.len() as int).push(m));
                        assert(prev.push(duplicate_spec(f, toks, j as int)[0]) =~= prev + duplicate_spec(f, toks, j as int));
                        assert(out@.take(start.len() as int) =~= start);
                    }
                },
                None => {
                    assert(prev =~= prev + duplicate_spec(f, toks, j as int));
                },
            }
            let ghost prev2 = prev + duplicate_spec(f, toks, j as int);
            let ghost before2 = out@;
            let mut added = false;
            if spelling_wanted(dictionary, &sentence.tokens, j) && j < sentence.lookups.len() {
                match &sentence.lookups[j] {
                    Some(c) => {
                        match spelling_match(annotations, &sentence.tokens[j], c) {
                            Some(m) => {
                                out.push(m);
                                added = true;
                                proof {
                                    let x = spelling_spec(f, toks[j as int], c@)[0];
                                    lemma_models_push(before2.skip(start.len() as int), prev2, m, x);
                                    assert(out@.skip(start.len() as int) =~= before2.skip(start.len() as int).push(m));
                                    assert(prev2.push(x) =~= prev2 + spelling_spec(f, toks[j as int], c@));
                                    assert(out@.take(start.len() as int) =~= start);
                                }
                            },
                            None => {},
                        }
                    },
                    None => {},
                }
            }
            proof {
                assert(prev2 + token_spec(f, dict, toks, lookups, j as int).skip(duplicate_spec(f, toks, j as int).len() as int) =~= prev + token_spec(f, dict, toks, lookups, j as int));
            }
        } else {
            proof {
                assert(prev + token_spec(f, dict, toks, lookups, j as int) =~= prev);
            }
        }
        j = j + 1;
    }
    proof {
        assert forall|specs: Seq<MatchSpec>| models_all(start, specs) implies models_all(
            out@,
            specs + sentence_spec(f, dict, *sentence),
        ) by {
            lemma_models_concat(out@, start.len() as int, specs, sentence_spec(f, dict, *sentence));
            assert(specs + (rs + tokens_spec(f, dict, toks, lookups, toks.len() as int)) =~= specs
                + sentence_spec(f, dict, *sentence));
        }
    }
}

/// The matches of a text, given what the detectors reported on each of its
/// sentences.
pub fn assemble(
    annotations: &Annotations,
    dictionary: &CustomDictionary,
    sentences: &Vec<AnalyzedSentence>,
) -> (r: Vec<Match>)
    requires
        annotations.fits(),
    ensures
        models_all(r@, suggestions_spec(annotations.annotation@, dictionary@, sentences@)),
{
    let ghost f = annotations.annotation@;
    let ghost dict = dictionary@;
    let mut out: Vec<Match> = Vec::new();
    let mut i: usize = 0;
    while i < sentences.len()
        invariant
            annotations.fits(),
            f == annotations.annotation@,
            dict == dictionary@,
            i <= sentences@.len(),
            models_all(out@, suggestions_spec(f, dict, sentences@.take(i as int))),
        decreases sentences@.len() - i,
    {
        proof {
            assert(sentences@.take(i + 1).drop_last() =~= sentences@.take(i as int));
        }
        add_sentence_matches(annotations, dictionary, &sentences[i], &mut out);
        i = i + 1;
    }
    proof {
        assert(sentences@.take(sentences@.len() as int) =~= sentences@);
    }
    out
}

/// A match lies within a document of length `n`.
pub open spec fn within(m: MatchSpec, n: int) -> bool {
    0 <= m.offset && 0 <= m.length && m.offset + m.length <= n
}

proof fn lemma_span_spec_within(f: Seq<crate::annotations::AnnotationElement>, a: int, b: int)
    requires
        no_expansion(f),
    ensures
        0 <= span_spec(f, a, b).0,
        0 <= span_spec(f, a, b).1,
        span_spec(f, a, b).0 + span_spec(f, a, b).1 <= original_len(f),
{
    lemma_span_within(f, a, b);
}

/// Every match passes the filter of likely false positives.
pub open spec fn all_pass(specs: Seq<MatchSpec>) -> bool {
    forall|i: int| 0 <= i < specs.len() ==> passes_filter(#[trigger] specs[i].rule_id)
}

/// Every match lies within a document of length `n`.
pub open spec fn all_within(specs: Seq<MatchSpec>, n: int) -> bool {
    forall|i: int| 0 <= i < specs.len() ==> within(#[trigger] specs[i], n)
}

proof fn lemma_laws_concat(a: Seq<MatchSpec>, b: Seq<MatchSpec>, n: int)
    ensures
        all_pass(a) && all_pass(b) ==> all_pass(a + b),
        all_within(a, n) && all_within(b, n) ==> all_within(a + b, n),
{
    assert forall|i: int| a.len() <= i < (a + b).len() implies (a + b)[i] == b[i - a.len()] by {}
    assert forall|i: int| 0 <= i < a.len() implies (a + b)[i] == a[i] by {}
}

proof fn lemma_rules_spec_laws(f: Seq<crate::annotations::AnnotationElement>, ss: Seq<RawSuggestion>)
    ensures
        all_pass(rules_spec(f, ss)),
        no_expansion(f) ==> all_within(rules_spec(f, ss), original_len(f) as int),
    decreases ss.len(),
{
    if ss.len() > 0 {
        lemma_rules_spec_laws(f, ss.drop_last());
        if no_expansion(f) {
            lemma_span_spec_within(f, ss.last().start as int, ss.last().end as int);
        }
        let prev = rules_spec(f, ss.drop_last());
        let x = rule_match_spec(f, ss.last());
        if passes_filter(ss.last().rule_id@) {
            lemma_laws_concat(prev, seq![x], original_len(f) as int);
            assert(prev.push(x) =~= prev + seq![x]);
        }
    }
}

proof fn lemma_token_spec_laws(
    f: Seq<crate::annotations::AnnotationElement>,
    dict: Set<Seq<char>>,
    toks: Seq<TokenSpan>,
    lookups: Seq<Option<Vec<Candidate>>>,
    k: int,
)
    requires
        0 <= k < toks.len(),
    ensures
        all_pass(token_spec(f, dict, toks, lookups, k)),
        no_expansion(f) ==> all_within(token_spec(f, dict, toks, lookups, k), original_len(f) as int),
{
    reveal_strlit("MORFOLOGIK_RULE");
    reveal_strlit("TYPOGRAPHY/EN_QUOTES");
    reveal_strlit("PUNCTUATION/DASH_RULE");
    assert(passes_filter(spelling_id()));
    assert(passes_filter(Seq::empty()));
    if no_expansion(f) {
        lemma_span_spec_within(f, toks[k].start as int, toks[k].end as int);
        if k + 1 < toks.len() {
            lemma_span_spec_within(f, toks[k].start as int, toks[k + 1].end as int);
        }
    }
    let d = duplicate_spec(f, toks, k);
    let sp = if wants_spelling(dict, toks, k) && k < lookups.len() && lookups[k] is Some {
        spelling_spec(f, toks[k], lookups[k]->0@)
    } else {
        Seq::empty()
    };
    lemma_laws_concat(d, sp, original_len(f) as int);
}

proof fn lemma_tokens_spec_laws(
    f: Seq<crate::annotations::AnnotationElement>,
    dict: Set<Seq<char>>,
    toks: Seq<TokenSpan>,
    lookups: Seq<Option<Vec<Candidate>>>,
    n: int,
)
    requires
        n <= toks.len(),
    ensures
        all_pass(tokens_spec(f, dict, toks, lookups, n)),
        no_expansion(f) ==> all_within(tokens_spec(f, dict, toks, lookups, n), original_len(f) as int),
    decreases n,
{
    if n > 0 {
        lemma_tokens_spec_laws(f, dict, toks, lookups, n - 1);
        lemma_token_spec_laws(f, dict, toks, lookups, n - 1);
        lemma_laws_concat(
            tokens_spec(f, dict, toks, lookups, n - 1),
            token_spec(f, dict, toks, lookups, n - 1),
            original_len(f) as int,
        );
    }
}

/// Every match of a text passes the filter of likely false positives and,
/// where no fragment is longer in the analysed text than in the document,
/// lies within the document.
pub proof fn lemma_suggestions_laws(
    f: Seq<crate::annotations::AnnotationElement>,
    dict: Set<Seq<char>>,
    ss: Seq<AnalyzedSentence>,
)
    ensures
        all_pass(suggestions_spec(f, dict, ss)),
        no_expansion(f) ==> all_within(suggestions_spec(f, dict, ss), original_len(f) as int),
    decreases ss.len(),
{
    if ss.len() > 0 {
        let s = ss.last();
        let n = original_len(f) as int;
        lemma_suggestions_laws(f, dict, ss.drop_last());
        lemma_rules_spec_laws(f, s.suggestions@);
        lemma_tokens_spec_laws(f, dict, s.tokens@, s.lookups@, s.tokens@.len() as int);
        let r = rules_spec(f, s.suggestions@);
        let t = tokens_spec(f, dict, s.tokens@, s.lookups@, s.tokens@.len() as int);
        lemma_laws_concat(r, t, n);
        lemma_laws_concat(suggestions_spec(f, dict, ss.drop_last()), r + t, n);
    }
}

/// A word repeated by the next token, whose transliteration is alphabetic,
/// gives one match over both tokens, with the word as its single replacement.
pub proof fn lemma_repetition_flagged(
    f: Seq<crate::annotations::AnnotationElement>,
    dict: Set<Seq<char>>,
    toks: Seq<TokenSpan>,
    lookups: Seq<Option<Vec<Candidate>>>,
    j: int,
)
    requires
        0 <= j,
        j + 1 < toks.len(),
        toks[j + 1].word@ == toks[j].word@,
        all_alphabetic(transliteration_of(toks[j].word@)),
    ensures
        token_spec(f, dict, toks, lookups, j).len() >= 1,
        token_spec(f, dict, toks, lookups, j)[0] == (MatchSpec {
            offset: span_spec(f, toks[j].start as int, toks[j + 1].end as int).0,
            length: span_spec(f, toks[j].start as int, toks[j + 1].end as int).1,
            message: duplicate_message(),
            replacements: seq![toks[j].word@],
            rule_id: Seq::empty(),
            issue_type: "duplication"@,
        }),
{
}

/// A token is not flagged as a spelling mistake when its lowercased
/// transliteration is in the custom dictionary.
pub proof fn lemma_dictionary_word_not_flagged(
    f: Seq<crate::annotations::AnnotationElement>,
    dict: Set<Seq<char>>,
    toks: Seq<TokenSpan>,
    lookups: Seq<Option<Vec<Candidate>>>,
    j: int,
)
    requires
        0 <= j < toks.len(),
        dict.contains(lowercase_of(transliteration_of(toks[j].word@))),
    ensures
        forall|i: int|
            0 <= i < token_spec(f, dict, toks, lookups, j).len() ==> (#[trigger] token_spec(
                f,
                dict,
                toks,
                lookups,
                j,
            )[i]).rule_id != spelling_id(),
{
    lemma_no_spelling_match(f, dict, toks, lookups, j);
}

/// A token whose lookup returned the word itself alone, at distance 0, is
/// not flagged as a spelling mistake.
pub proof fn lemma_known_word_not_flagged(
    f: Seq<crate::annotations::AnnotationElement>,
    dict: Set<Seq<char>>,
    toks: Seq<TokenSpan>,
    lookups: Seq<Option<Vec<Candidate>>>,
    j: int,
)
    requires
        0 <= j < toks.len(),
        j < lookups.len(),
        lookups[j] is Some,
        lookups[j]->0@.len() == 1,
        lookups[j]->0@[0].distance == 0,
    ensures
        forall|i: int|
            0 <= i < token_spec(f, dict, toks, lookups, j).len() ==> (#[trigger] token_spec(
                f,
                dict,
                toks,
                lookups,
                j,
            )[i]).rule_id != spelling_id(),
{
    lemma_no_spelling_match(f, dict, toks, lookups, j);
}

/// A token whose spelling is not wanted is not flagged as a spelling mistake.
pub proof fn lemma_not_wanted_not_flagged(
    f: Seq<crate::annotations::AnnotationElement>,
    dict: Set<Seq<char>>,
    toks: Seq<TokenSpan>,
    lookups: Seq<Option<Vec<Candidate>>>,
    j: int,
)
    requires
        0 <= j < toks.len(),
        !wants_spelling(dict, toks, j),
    ensures
        forall|i: int|
            0 <= i < token_spec(f, dict, toks, lookups, j).len() ==> (#[trigger] token_spec(
                f,
                dict,
                toks,
                lookups,
                j,
            )[i]).rule_id != spelling_id(),
{
    lemma_no_spelling_match(f, dict, toks, lookups, j);
}

proof fn lemma_no_spelling_match(
    f: Seq<crate::annotations::AnnotationElement>,
    dict: Set<Seq<char>>,
    toks: Seq<TokenSpan>,
    lookups: Seq<Option<Vec<Candidate>>>,
    j: int,
)
    requires
        0 <= j < toks.len(),
        !wants_spelling(dict, toks, j) || (j < lookups.len() && lookups[j] is Some && known_word(
            lookups[j]->0@,
        )),
    ensures
        forall|i: int|
            0 <= i < token_spec(f, dict, toks, lookups, j).len() ==> (#[trigger] token_spec(
                f,
                dict,
                toks,
                lookups,
                j,
            )[i]).rule_id != spelling_id(),
{
    reveal_strlit("MORFOLOGIK_RULE");
    assert(spelling_id().len() > 0);
    let d = duplicate_spec(f, toks, j);
    if all_alphabetic(transliteration_of(toks[j].word@)) {
        let sp = if wants_spelling(dict, toks, j) && j < lookups.len() && lookups[j] is Some {
            spelling_spec(f, toks[j], lookups[j]->0@)
        } else {
            Seq::empty()
        };
        assert(sp.len() == 0);
        assert(token_spec(f, dict, toks, lookups, j) =~= d);
    }
}

} // verus!
