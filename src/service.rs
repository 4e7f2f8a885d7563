//! The checks that a request passes before its text is analysed.
use vstd::prelude::*;

use crate::annotations::{Annotations, plain_len};
use crate::api::{Language, Request};
use crate::text::lowercase_of;

verus! {

/// Why a request is refused.
#[derive(Debug)]
pub enum Error {
    /// The request asks for another language than the one served.
    UnsupportedLanguage { supports: String, request: String },
    /// The request holds neither text nor a readable document.
    MissingAnnotations(String),
    /// The text is longer than allowed: its length, and the limit.
    QueryTooLarge(usize, usize),
}

/// Accepts a request for the language served, whatever the case of its code.
pub fn check_language(request: &Request, supported: &Language) -> (r: Result<Language, Error>)
    ensures
        r matches Ok(l) ==> l.code@ == if request.language@ == "auto"@ {
            "en-US"@
        } else {
            request.language@
        } && lowercase_of(l.code@) == lowercase_of(supported.code@),
        r matches Err(e) ==> (e matches Error::UnsupportedLanguage { supports, request: asked }
            && supports@ == supported.code@ && asked@ == if request.language@ == "auto"@ {
            "en-US"@
        } else {
            request.language@
        } && lowercase_of(asked@) != lowercase_of(supported.code@)),
{
    let language = request.language();
    if language == *supported {
        Ok(language)
    } else {
        Err(Error::UnsupportedLanguage { supports: supported.to_string(), request: language.to_string() })
    }
}

/// Accepts a document whose analysed text is at most `max` characters long,
/// and returns that length.
pub fn check_size(annotations: &Annotations, max: usize) -> (r: Result<usize, Error>)
    ensures
        r matches Ok(n) ==> annotations.fits() && n == plain_len(annotations.annotation@) && n <= max,
        r matches Err(e) ==> (e matches Error::QueryTooLarge(n, m) && m == max && (annotations.fits()
            ==> n == plain_len(annotations.annotation@) && n > max)),
        annotations.fits() && plain_len(annotations.annotation@) <= max ==> r is Ok,
{
    if !annotations.fits_in_usize() {
        return Err(Error::QueryTooLarge(usize::MAX, max));
    }
    let n = annotations.text_len();
    if n > max {
        Err(Error::QueryTooLarge(n, max))
    } else {
        Ok(n)
    }
}

} // verus!
