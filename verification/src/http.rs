//! What is decided about a response once it has arrived.

use crate::error::GsiError;
use vstd::prelude::*;

verus! {

/// `s` without the byte order mark U+FEFF, where it begins with one.
pub open spec fn without_bom(s: Seq<char>) -> Seq<char> {
    if s.len() > 0 && s[0] == '\u{feff}' {
        s.skip(1)
    } else {
        s
    }
}

/// `strip_bom::StripBom::strip_bom` on a `str`: where the text begins with
/// U+FEFF, it returns the text after that character, else the whole text.
#[verifier::external_body]
fn strip_bom(s: &str) -> (r: &str)
    ensures
        r@ == without_bom(s@),
{
    strip_bom::StripBom::strip_bom(s)
}

/// The text of a body: the body without a leading byte order mark.
pub fn body_text(body: &str) -> (r: &str)
    ensures
        r@ == without_bom(body@),
{
    strip_bom(body)
}

/// A status is one of success if it lies in 200..=299.
pub open spec fn is_success(status: u16) -> bool {
    200 <= status < 300
}

/// Accepts a response by its status: a status of success passes, any other
/// is the error.
pub fn check_status(status: u16) -> (r: Result<(), GsiError>)
    ensures
        is_success(status) ==> r is Ok,
        !is_success(status) ==> (r matches Err(GsiError::HttpResponseIsNotSucceeded(s)) && s
            == status),
{
    if 200 <= status && status < 300 {
        Ok(())
    } else {
        Err(GsiError::HttpResponseIsNotSucceeded(status))
    }
}

} // verus!
