//! The request and response types of the LanguageTool HTTP interface.
use vstd::prelude::*;

use crate::text::{is_prefix, lowercase_of, owned, push_char, same_text, starts_with, to_lowercase};

verus! {

/// `c` with every `_` written as `-`.
pub open spec fn dashed(c: Seq<char>) -> Seq<char> {
    c.map_values(|x: char| if x == '_' { '-' } else { x })
}

/// A language, named by its code (`en-US`).
#[derive(Debug, Clone)]
pub struct Language {
    pub name: String,
    pub code: String,
}

impl Language {
    /// The language of a code such as `en_US` (written `en-US`), with no name.
    pub fn from_code(code: &str) -> (r: Language)
        ensures
            r.code@ == dashed(code@),
            r.name@.len() == 0,
    {
        let mut out = String::new();
        for c in it: code.chars()
            invariant
                it.seq() == code@,
                out@ == dashed(code@.take(it.index())),
        {
            proof {
                assert(dashed(code@.take(it.index() + 1)) =~= dashed(code@.take(it.index())).push(
                    if c == '_' { '-' } else { c },
                ));
            }
            if c == '_' {
                push_char(&mut out, '-');
            } else {
                push_char(&mut out, c);
            }
        }
        proof {
            assert(code@.take(code@.len() as int) =~= code@);
        }
        Language { code: out, name: String::new() }
    }

    /// The language's code, as it is displayed.
    pub fn to_string(&self) -> (r: String)
        ensures
            r@ == self.code@,
    {
        self.code.clone()
    }
}

impl PartialEq for Language {
    /// Languages are equal when their codes are, ignoring case.
    fn eq(&self, other: &Language) -> (r: bool) {
        let a = to_lowercase(self.code.as_str());
        let b = to_lowercase(other.code.as_str());
        a == b
    }
}

impl vstd::std_specs::cmp::PartialEqSpecImpl for Language {
    open spec fn obeys_eq_spec() -> bool {
        true
    }

    open spec fn eq_spec(&self, other: &Language) -> bool {
        lowercase_of(self.code@) == lowercase_of(other.code@)
    }
}

impl Default for Language {
    /// American English.
    fn default() -> (r: Language)
        ensures
            r.name@ == "English"@,
            r.code@ == "en-US"@,
    {
        Language { name: owned("English"), code: owned("en-US") }
    }
}

/// What a request asks to check.
pub enum Payload {
    /// Plain text.
    Text(String),
    /// A JSON document, either `{"text": ..}` or `{"annotation": [..]}`.
    Data(String),
}

/// A check request. Either `text` or `data` has to be given.
#[derive(Debug)]
pub struct Request {
    pub text: Option<String>,
    pub data: Option<String>,
    pub language: String,
}

impl Request {
    /// A request to check plain text.
    pub fn new(text: String, language: &str) -> (r: Request)
        ensures
            r.text == Some(text),
            r.data is None,
            r.language@ == language@,
    {
        Request { text: Some(text), data: None, language: owned(language) }
    }

    /// The requested language; `auto` stands for the default one.
    pub fn language(&self) -> (r: Language)
        ensures
            self.language@ == "auto"@ ==> r.code@ == "en-US"@ && r.name@ == "English"@,
            self.language@ != "auto"@ ==> r.code@ == self.language@ && r.name@.len() == 0,
    {
        if same_text(self.language.as_str(), "auto") {
            return Language::default();
        }
        Language { code: self.language.clone(), name: String::new() }
    }

    /// What the request asks to check: its text if it has one, else its data.
    pub fn payload(&self) -> (r: Option<Payload>)
        ensures
            self.text matches Some(t) ==> (r matches Some(Payload::Text(u)) && u@ == t@),
            (self.text is None && self.data is Some) ==> (r matches Some(Payload::Data(u)) && u@
                == self.data->0@),
            self.text is None && self.data is None ==> r is None,
    {
        match &self.text {
            Some(t) => Some(Payload::Text(t.clone())),
            None => match &self.data {
                Some(d) => Some(Payload::Data(d.clone())),
                None => None,
            },
        }
    }
}

/// The answer to a check request.
#[derive(Debug)]
pub struct Response {
    pub matches: Vec<Match>,
    pub language: LanguageResponse,
}

/// The language of a response, both as requested and as detected.
#[derive(Debug)]
pub struct LanguageResponse {
    pub language: Language,
    pub detected_language: Language,
}

impl From<Language> for LanguageResponse {
    fn from(source: Language) -> (r: LanguageResponse) {
        LanguageResponse { language: source.clone(), detected_language: source }
    }
}

impl vstd::std_specs::convert::FromSpecImpl<Language> for LanguageResponse {
    open spec fn obeys_from_spec() -> bool {
        false
    }

    open spec fn from_spec(source: Language) -> LanguageResponse {
        LanguageResponse { language: source, detected_language: source }
    }
}

/// The type of a match.
#[derive(Debug)]
pub struct MatchType {
    pub name: String,
}

/// The category of a rule.
#[derive(Debug)]
pub struct RuleCategory {
    pub id: String,
    pub name: String,
}

/// The rule behind a match.
#[derive(Debug)]
pub struct Rule {
    pub id: String,
    pub sub_id: usize,
    pub description: String,
    pub issue_type: String,
    pub urls: Option<Vec<String>>,
    pub category: RuleCategory,
    pub is_premium: bool,
}

/// The id that clients render as a spelling mistake.
pub open spec fn spelling_id() -> Seq<char> {
    "MORFOLOGIK_RULE"@
}

impl Rule {
    /// The rule has id `id` and issue type `issue_type`, and is otherwise empty.
    pub open spec fn is(&self, id: Seq<char>, issue_type: Seq<char>) -> bool {
        &&& self.id@ == id
        &&& self.sub_id == 0
        &&& self.description@.len() == 0
        &&& self.issue_type@ == issue_type
        &&& self.urls is None
        &&& self.category.id@.len() == 0
        &&& self.category.name@.len() == 0
        &&& !self.is_premium
    }

    fn with(id: String, issue_type: String) -> (r: Rule)
        ensures
            r.is(id@, issue_type@),
    {
        Rule {
            id,
            sub_id: 0,
            description: String::new(),
            issue_type,
            urls: None,
            category: RuleCategory { id: String::new(), name: String::new() },
            is_premium: false,
        }
    }

    /// Whether the rule is the spelling rule.
    pub fn is_spelling(&self) -> (r: bool)
        ensures
            r == (self.id@ == spelling_id()),
    {
        same_text(self.id.as_str(), "MORFOLOGIK_RULE")
    }

    /// The spelling rule.
    pub fn spelling() -> (r: Rule)
        ensures
            r.is(spelling_id(), Seq::empty()),
    {
        Rule::with(owned("MORFOLOGIK_RULE"), String::new())
    }

    /// A rule that clients render as a style hint.
    pub fn style() -> (r: Rule)
        ensures
            r.is(Seq::empty(), "style"@),
    {
        Rule::with(String::new(), owned("style"))
    }

    /// The rule of repeated words.
    pub fn duplication() -> (r: Rule)
        ensures
            r.is(Seq::empty(), "duplication"@),
    {
        Rule::with(String::new(), owned("duplication"))
    }

    /// A rule known by its id alone.
    pub fn from_id(id: String) -> (r: Rule)
        ensures
            r.is(id@, Seq::empty()),
    {
        Rule::with(id, String::new())
    }
}

/// A suggested replacement.
#[derive(Debug)]
pub struct Replacement {
    pub value: String,
    pub short_description: Option<String>,
}

impl From<String> for Replacement {
    fn from(value: String) -> (r: Replacement) {
        Replacement { value, short_description: None }
    }
}

impl vstd::std_specs::convert::FromSpecImpl<String> for Replacement {
    open spec fn obeys_from_spec() -> bool {
        true
    }

    open spec fn from_spec(value: String) -> Replacement {
        Replacement { value, short_description: None }
    }
}

/// A flagged span of the document, with what to do about it.
#[derive(Debug)]
pub struct Match {
    pub message: String,
    pub short_message: String,
    pub offset: usize,
    pub length: usize,
    pub replacements: Vec<Replacement>,
    pub sentence: String,
    pub context_for_sure_match: usize,
    pub ignore_for_incomplete_sentence: bool,
    pub match_type: MatchType,
    pub rule: Rule,
}

/// The contents of a match, in document offsets.
pub ghost struct MatchSpec {
    pub offset: int,
    pub length: int,
    pub message: Seq<char>,
    pub replacements: Seq<Seq<char>>,
    pub rule_id: Seq<char>,
    pub issue_type: Seq<char>,
}

/// Rule ids whose matches are known to be false positives.
pub open spec fn passes_filter(id: Seq<char>) -> bool {
    !is_prefix("TYPOGRAPHY/EN_QUOTES"@, id) && !is_prefix("PUNCTUATION/DASH_RULE"@, id)
}

impl Match {
    /// The match holds `m`, and its other fields are empty.
    pub open spec fn models(&self, m: MatchSpec) -> bool {
        &&& self.message@ == m.message
        &&& self.short_message@.len() == 0
        &&& self.offset == m.offset
        &&& self.length == m.length
        &&& self.replacements@.len() == m.replacements.len()
        &&& forall|i: int|
            0 <= i < m.replacements.len() ==> (#[trigger] self.replacements@[i]).value@
                == m.replacements[i] && self.replacements@[i].short_description is None
        &&& self.sentence@.len() == 0
        &&& self.context_for_sure_match == 0
        &&& !self.ignore_for_incomplete_sentence
        &&& self.match_type.name@.len() == 0
        &&& self.rule.is(m.rule_id, m.issue_type)
    }

    /// A match with the given contents.
    pub fn new(offset: usize, length: usize, message: String, values: Vec<String>, rule: Rule) -> (r:
        Match)
        ensures
            r.message == message,
            r.offset == offset,
            r.length == length,
            r.rule == rule,
            r.short_message@.len() == 0,
            r.sentence@.len() == 0,
            r.context_for_sure_match == 0,
            !r.ignore_for_incomplete_sentence,
            r.match_type.name@.len() == 0,
            r.replacements@.len() == values@.len(),
            forall|i: int|
                0 <= i < values@.len() ==> (#[trigger] r.replacements@[i]).value == values@[i]
                    && r.replacements@[i].short_description is None,
    {
        let mut replacements: Vec<Replacement> = Vec::new();
        let mut rest = values;
        let ghost vs = rest@;
        let mut i: usize = 0;
        while i < rest.len()
            invariant
                rest@ == vs,
                i <= vs.len(),
                replacements@.len() == i,
                forall|j: int|
                    0 <= j < i ==> (#[trigger] replacements@[j]).value == vs[j]
                        && replacements@[j].short_description is None,
            decreases vs.len() - i,
        {
            replacements.push(Replacement { value: rest[i].clone(), short_description: None });
            i = i + 1;
        }
        Match {
            message,
            short_message: String::new(),
            offset,
            length,
            replacements,
            sentence: String::new(),
            context_for_sure_match: 0,
            ignore_for_incomplete_sentence: false,
            match_type: MatchType { name: String::new() },
            rule,
        }
    }

    /// Whether the match survives the filter of likely false positives.
    pub fn filter(&self) -> (r: bool)
        ensures
            r == passes_filter(self.rule.id@),
    {
        !starts_with(self.rule.id.as_str(), "TYPOGRAPHY/EN_QUOTES") && !starts_with(
            self.rule.id.as_str(),
            "PUNCTUATION/DASH_RULE",
        )
    }
}

} // verus!
