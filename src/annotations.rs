//! Annotated text: a document as a sequence of text and markup fragments, the
//! plain text that the checkers analyse, and the translation of plain-text
//! offsets back to offsets in the annotated document.
use vstd::prelude::*;

use crate::text::{blank, is_blank};

verus! {

/// One fragment of an annotated document.
#[derive(Debug)]
pub enum AnnotationElement {
    /// Literal text.
    Text { text: String },
    /// A structural marker (a tag, say), to be analysed as `interpret_as`.
    Markup { markup: String, interpret_as: Option<String> },
}

impl AnnotationElement {
    /// What the fragment contributes to the analysed text. Whitespace-only
    /// markup stands for itself so that sentence boundaries survive.
    pub open spec fn plain(self) -> Seq<char> {
        match self {
            AnnotationElement::Text { text } => text@,
            AnnotationElement::Markup { markup, interpret_as } => {
                if is_blank(markup@) {
                    markup@
                } else {
                    match interpret_as {
                        Some(s) => s@,
                        None => Seq::empty(),
                    }
                }
            },
        }
    }

    /// What the fragment occupies in the annotated document.
    pub open spec fn original(self) -> Seq<char> {
        match self {
            AnnotationElement::Text { text } => text@,
            AnnotationElement::Markup { markup, .. } => markup@,
        }
    }

    /// The fragment's contribution to the analysed text.
    pub fn text(&self) -> (r: &str)
        ensures
            r@ == self.plain(),
    {
        match self {
            AnnotationElement::Text { text } => text.as_str(),
            AnnotationElement::Markup { markup, interpret_as } => {
                if blank(markup.as_str()) {
                    markup.as_str()
                } else {
                    match interpret_as {
                        Some(s) => s.as_str(),
                        None => {
                            proof {
                                reveal_strlit("");
                            }
                            ""
                        },
                    }
                }
            },
        }
    }

    /// Length, in characters, of the fragment in the annotated document.
    pub fn original_len(&self) -> (r: usize)
        ensures
            r == self.original().len(),
    {
        match self {
            AnnotationElement::Text { text } => text.as_str().unicode_len(),
            AnnotationElement::Markup { markup, .. } => markup.as_str().unicode_len(),
        }
    }
}

/// The analysed text of a fragment sequence.
pub open spec fn plain_text(f: Seq<AnnotationElement>) -> Seq<char>
    decreases f.len(),
{
    if f.len() == 0 {
        Seq::empty()
    } else {
        plain_text(f.drop_last()) + f.last().plain()
    }
}

/// Sum of the lengths of the fragments' analysed texts.
pub open spec fn plain_len(f: Seq<AnnotationElement>) -> nat
    decreases f.len(),
{
    if f.len() == 0 {
        0
    } else {
        plain_len(f.drop_last()) + f.last().plain().len()
    }
}

/// Length of the annotated document.
pub open spec fn original_len(f: Seq<AnnotationElement>) -> nat
    decreases f.len(),
{
    if f.len() == 0 {
        0
    } else {
        original_len(f.drop_last()) + f.last().original().len()
    }
}

/// The document offset of plain-text offset `o`: found in the first fragment
/// whose plain-text range holds `o`, if any does.
pub open spec fn map_offset(f: Seq<AnnotationElement>, o: int) -> Option<int>
    decreases f.len(),
{
    if f.len() == 0 {
        None
    } else {
        let p = f.drop_last();
        match map_offset(p, o) {
            Some(r) => Some(r),
            None => if plain_len(p) <= o < plain_len(p) + f.last().plain().len() {
                Some(original_len(p) + (o - plain_len(p)))
            } else {
                None
            },
        }
    }
}

/// A plain-text span `[a, b)` in document space: an unmapped start becomes 0,
/// an unmapped end the end of the document.
pub open spec fn translate(f: Seq<AnnotationElement>, a: int, b: int) -> (int, int) {
    (
        match map_offset(f, a) {
            Some(x) => x,
            None => 0,
        },
        match map_offset(f, b) {
            Some(x) => x,
            None => original_len(f) as int,
        },
    )
}

/// No fragment is longer in the analysed text than in the document.
pub open spec fn no_expansion(f: Seq<AnnotationElement>) -> bool {
    forall|i: int| 0 <= i < f.len() ==> (#[trigger] f[i]).plain().len() <= f[i].original().len()
}

/// Every fragment is literal text.
pub open spec fn all_text(f: Seq<AnnotationElement>) -> bool {
    forall|i: int| 0 <= i < f.len() ==> (#[trigger] f[i]) is Text
}

proof fn lemma_take_step(f: Seq<AnnotationElement>, i: int)
    requires
        0 <= i < f.len(),
    ensures
        f.take(i + 1).drop_last() == f.take(i),
        f.take(i + 1).last() == f[i],
{
    assert(f.take(i + 1).drop_last() =~= f.take(i));
}

proof fn lemma_prefix_lens(f: Seq<AnnotationElement>, i: int)
    requires
        0 <= i <= f.len(),
    ensures
        plain_len(f.take(i)) <= plain_len(f),
        original_len(f.take(i)) <= original_len(f),
    decreases f.len() - i,
{
    if i < f.len() {
        lemma_take_step(f, i);
        lemma_prefix_lens(f, i + 1);
    } else {
        assert(f.take(i) =~= f);
    }
}

/// Where `o` is mapped, it lies in the analysed text and maps into the document.
proof fn lemma_mapped_range(f: Seq<AnnotationElement>, o: int)
    ensures
        map_offset(f, o) is Some <==> 0 <= o < plain_len(f),
        map_offset(f, o) matches Some(x) ==> 0 <= x,
        no_expansion(f) ==> (map_offset(f, o) matches Some(x) ==> x < original_len(f)),
    decreases f.len(),
{
    if f.len() > 0 {
        let p = f.drop_last();
        lemma_mapped_range(p, o);
        if no_expansion(f) {
            assert(f.last() == f[f.len() - 1]);
            assert forall|i: int| 0 <= i < p.len() implies (#[trigger] p[i]).plain().len()
                <= p[i].original().len() by {
                assert(p[i] == f[i]);
            }
        }
    }
}

proof fn lemma_map_monotone(f: Seq<AnnotationElement>, a: int, b: int)
    requires
        no_expansion(f),
        a <= b,
        map_offset(f, a) is Some,
        map_offset(f, b) is Some,
    ensures
        map_offset(f, a)->0 <= map_offset(f, b)->0,
    decreases f.len(),
{
    let p = f.drop_last();
    lemma_mapped_range(p, a);
    lemma_mapped_range(p, b);
    assert forall|i: int| 0 <= i < p.len() implies (#[trigger] p[i]).plain().len()
        <= p[i].original().len() by {
        assert(p[i] == f[i]);
    }
    if map_offset(p, b) is Some {
        lemma_map_monotone(p, a, b);
    } else if map_offset(p, a) is Some {
        assert(map_offset(p, a)->0 < original_len(p));
    }
}

/// For `a <= b`, the translated span is ordered and lies within the document,
/// as long as no fragment is longer in the analysed text than in the document.
pub proof fn lemma_span_monotone(f: Seq<AnnotationElement>, a: int, b: int)
    requires
        no_expansion(f),
        0 <= a <= b,
    ensures
        0 <= translate(f, a, b).0 <= translate(f, a, b).1 <= original_len(f),
{
    lemma_mapped_range(f, a);
    lemma_mapped_range(f, b);
    if map_offset(f, a) is Some && map_offset(f, b) is Some {
        lemma_map_monotone(f, a, b);
    }
}

/// Both ends of a translated span lie within the document, as long as no
/// fragment is longer in the analysed text than in the document.
pub proof fn lemma_span_within(f: Seq<AnnotationElement>, a: int, b: int)
    requires
        no_expansion(f),
    ensures
        0 <= translate(f, a, b).0 <= original_len(f),
        0 <= translate(f, a, b).1 <= original_len(f),
{
    lemma_mapped_range(f, a);
    lemma_mapped_range(f, b);
}

/// The analysed text is as long as the sum of the fragments' contributions.
pub proof fn lemma_plain_length(f: Seq<AnnotationElement>)
    ensures
        plain_len(f) == plain_text(f).len(),
    decreases f.len(),
{
    if f.len() > 0 {
        lemma_plain_length(f.drop_last());
    }
}

proof fn lemma_text_offsets(f: Seq<AnnotationElement>, o: int)
    requires
        all_text(f),
    ensures
        plain_len(f) == original_len(f),
        0 <= o < plain_len(f) ==> map_offset(f, o) == Some(o),
    decreases f.len(),
{
    if f.len() > 0 {
        let p = f.drop_last();
        assert forall|i: int| 0 <= i < p.len() implies (#[trigger] p[i]) is Text by {
            assert(p[i] == f[i]);
        }
        assert(f.last() == f[f.len() - 1]);
        lemma_text_offsets(p, o);
        lemma_mapped_range(p, o);
    }
}

/// Over text alone, a span within the analysed text translates to itself.
pub proof fn lemma_text_identity(f: Seq<AnnotationElement>, a: int, b: int)
    requires
        all_text(f),
        0 <= a < plain_len(f),
        a <= b <= plain_len(f),
    ensures
        translate(f, a, b) == (a, b),
{
    lemma_text_offsets(f, a);
    lemma_text_offsets(f, b);
    lemma_mapped_range(f, b);
}

/// An annotated document.
#[derive(Debug)]
pub struct Annotations {
    pub annotation: Vec<AnnotationElement>,
}

/// A request payload: plain text or an annotated document.
#[derive(Debug)]
pub enum Data {
    Text { text: String },
    Annotations(Annotations),
}

impl Data {
    /// The payload as an annotated document.
    pub fn into_annotations(self) -> (r: Annotations)
        ensures
            r.annotation@ == match self {
                Data::Text { text } => seq![AnnotationElement::Text { text }],
                Data::Annotations(a) => a.annotation@,
            },
    {
        match self {
            Data::Text { text } => Annotations::from_text(text),
            Data::Annotations(a) => a,
        }
    }
}

impl Annotations {
    /// A document made of one text fragment.
    pub fn from_text(text: String) -> (r: Annotations)
        ensures
            r.annotation@ == seq![AnnotationElement::Text { text }],
    {
        let mut annotation = Vec::new();
        annotation.push(AnnotationElement::Text { text });
        Annotations { annotation }
    }

    /// Offsets in the document and in its analysed text fit in `usize`.
    pub open spec fn fits(&self) -> bool {
        plain_len(self.annotation@) + original_len(self.annotation@) <= usize::MAX
    }

    /// Tests `fits`.
    pub fn fits_in_usize(&self) -> (r: bool)
        ensures
            r == self.fits(),
    {
        let ghost f = self.annotation@;
        let mut total: usize = 0;
        let mut i: usize = 0;
        while i < self.annotation.len()
            invariant
                f == self.annotation@,
                i <= f.len(),
                total == plain_len(f.take(i as int)) + original_len(f.take(i as int)),
            decreases f.len() - i,
        {
            proof {
                lemma_take_step(f, i as int);
                lemma_prefix_lens(f, i as int + 1);
            }
            let e = &self.annotation[i];
            let t = e.text().unicode_len();
            let o = e.original_len();
            match total.checked_add(t) {
                None => {
                    return false;
                },
                Some(s) => match s.checked_add(o) {
                    None => {
                        return false;
                    },
                    Some(s2) => {
                        total = s2;
                    },
                },
            }
            i = i + 1;
        }
        proof {
            assert(f.take(f.len() as int) =~= f);
        }
        true
    }

    /// The analysed text: each fragment's contribution, in order.
    pub fn text(&self) -> (r: String)
        ensures
            r@ == plain_text(self.annotation@),
    {
        let ghost f = self.annotation@;
        let mut out = String::new();
        let mut i: usize = 0;
        while i < self.annotation.len()
            invariant
                f == self.annotation@,
                i <= f.len(),
                out@ == plain_text(f.take(i as int)),
            decreases f.len() - i,
        {
            proof {
                lemma_take_step(f, i as int);
            }
            out.append(self.annotation[i].text());
            i = i + 1;
        }
        proof {
            assert(f.take(f.len() as int) =~= f);
        }
        out
    }

    /// Length, in characters, of the analysed text.
    pub fn text_len(&self) -> (r: usize)
        requires
            self.fits(),
        ensures
            r == plain_len(self.annotation@),
    {
        let ghost f = self.annotation@;
        let mut total: usize = 0;
        let mut i: usize = 0;
        while i < self.annotation.len()
            invariant
                f == self.annotation@,
                plain_len(f) + original_len(f) <= usize::MAX,
                i <= f.len(),
                total == plain_len(f.take(i as int)),
            decreases f.len() - i,
        {
            proof {
                lemma_take_step(f, i as int);
                lemma_prefix_lens(f, i as int + 1);
            }
            total = total + self.annotation[i].text().unicode_len();
            i = i + 1;
        }
        proof {
            assert(f.take(f.len() as int) =~= f);
        }
        total
    }

    /// Translates the plain-text span `[start, end)` into document offsets.
    pub fn translate_span(&self, start: usize, end: usize) -> (r: (usize, usize))
        requires
            self.fits(),
        ensures
            r.0 == translate(self.annotation@, start as int, end as int).0,
            r.1 == translate(self.annotation@, start as int, end as int).1,
    {
        let ghost f = self.annotation@;
        let mut text_offset: usize = 0;
        let mut markup_offset: usize = 0;
        let mut mapped_start: Option<usize> = None;
        let mut mapped_end: Option<usize> = None;
        let mut i: usize = 0;
        while i < self.annotation.len()
            invariant
                f == self.annotation@,
                plain_len(f) + original_len(f) <= usize::MAX,
                i <= f.len(),
                text_offset == plain_len(f.take(i as int)),
                markup_offset == original_len(f.take(i as int)),
                same_offset(mapped_start, map_offset(f.take(i as int), start as int)),
                same_offset(mapped_end, map_offset(f.take(i as int), end as int)),
            decreases f.len() - i,
        {
            proof {
                lemma_take_step(f, i as int);
                lemma_prefix_lens(f, i as int + 1);
            }
            let e = &self.annotation[i];
            let fragment_text_len = e.text().unicode_len();
            let fragment_markup_len = e.original_len();
            if mapped_start.is_none() && start >= text_offset && start - text_offset
                < fragment_text_len {
                mapped_start = Some(markup_offset + (start - text_offset));
            }
            if mapped_end.is_none() && end >= text_offset && end - text_offset < fragment_text_len {
                mapped_end = Some(markup_offset + (end - text_offset));
            }
            text_offset = text_offset + fragment_text_len;
            markup_offset = markup_offset + fragment_markup_len;
            i = i + 1;
        }
        proof {
            assert(f.take(f.len() as int) =~= f);
        }
        let s = match mapped_start {
            Some(v) => v,
            None => 0,
        };
        let e = match mapped_end {
            Some(v) => v,
            None => markup_offset,
        };
        (s, e)
    }
}

/// An executable offset that agrees with a mapped offset.
pub open spec fn same_offset(v: Option<usize>, m: Option<int>) -> bool {
    match v {
        Some(x) => m == Some(x as int),
        None => m is None,
    }
}

} // verus!
