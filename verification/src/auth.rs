//! What the Celcat login decides: which responses succeed, and where the
//! anti-forgery token of the login page is.

use crate::text::string_option;
use crate::patterns::regex_capture_group;
use crate::patterns::regex_first_group;
use vstd::prelude::*;

verus! {

/// The pattern of the hidden anti-forgery token of the login form.
pub open spec fn token_pattern() -> Seq<char> {
    "<input\\s*name=\"__RequestVerificationToken\"\\s*type=\"hidden\"\\s*value=\"(.+)\""@
}

/// Whether a response status counts as a success (200 to 399).
pub fn is_success_status(status: u16) -> (r: bool)
    ensures
        r == (200 <= status < 400),
{
    200 <= status && status < 400
}

/// The anti-forgery token of the login page, if the page has one.
pub fn extract_token(page: &str) -> (r: Option<String>)
    ensures
        string_option(r) == regex_first_group(token_pattern(), page@),
{
    match regex_capture_group("<input\\s*name=\"__RequestVerificationToken\"\\s*type=\"hidden\"\\s*value=\"(.+)\"", page) {
        Some(t) => Some(t),
        None => None,
    }
}

} // verus!
