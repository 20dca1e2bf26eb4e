//! Rules for a short-link redirect: the code's shape, reserved codes, and an
//! absolute `https` target.

use vstd::prelude::*;
use crate::text::same_text;

verus! {

/// A short code and the URL it redirects to.
#[derive(Debug, Clone)]
pub struct Redirect {
    pub code: String,
    pub target: String,
}

impl PartialEq for Redirect {
    fn eq(&self, o: &Redirect) -> (r: bool) {
        self.code == o.code && self.target == o.target
    }
}

impl vstd::std_specs::cmp::PartialEqSpecImpl for Redirect {
    open spec fn obeys_eq_spec() -> bool {
        true
    }

    open spec fn eq_spec(&self, o: &Redirect) -> bool {
        self.code@ == o.code@ && self.target@ == o.target@
    }
}

/// Why a redirect is refused.
#[derive(Clone, Copy, Debug, PartialEq, Eq, Structural)]
pub enum ValidationError {
    InvalidCode,
    ReservedCode,
    InvalidTarget,
    InsecureTarget,
}

impl ValidationError {
    /// A short human-readable description.
    pub fn message(&self) -> (r: &'static str) {
        match self {
            ValidationError::InvalidCode => "invalid code",
            ValidationError::ReservedCode => "reserved code",
            ValidationError::InvalidTarget => "invalid target URL",
            ValidationError::InsecureTarget => "target must be https",
        }
    }
}

/// The pattern a code must match in full.
pub const CODE_PATTERN: &'static str = "^[a-zA-Z0-9\\-]{2,32}$";

/// A character allowed in a code: an ASCII letter or digit, or `-`.
pub open spec fn is_code_char(c: char) -> bool {
    ('a' <= c && c <= 'z') || ('A' <= c && c <= 'Z') || ('0' <= c && c <= '9') || c == '-'
}

/// What `CODE_PATTERN` accepts: 2 to 32 code characters.
pub open spec fn is_code_shape(s: Seq<char>) -> bool {
    2 <= s.len() <= 32 && forall|i: int| 0 <= i < s.len() ==> is_code_char(#[trigger] s[i])
}

/// Codes kept for the service itself.
pub open spec fn is_reserved(s: Seq<char>) -> bool {
    s == seq!['a', 'p', 'i'] || s == seq!['a', 'd', 'm', 'i', 'n'] || s == seq!['w', 'w', 'w']
}

/// The scheme of `s` when it parses as an absolute URL, `None` when it does not.
pub uninterp spec fn url_scheme(s: Seq<char>) -> Option<Seq<char>>;

/// The verdict on a code and the parsed scheme of its target.
pub open spec fn verdict(code: Seq<char>, scheme: Option<Seq<char>>) -> Result<(), ValidationError> {
    if !is_code_shape(code) {
        Err(ValidationError::InvalidCode)
    } else if is_reserved(code) {
        Err(ValidationError::ReservedCode)
    } else {
        match scheme {
            None => Err(ValidationError::InvalidTarget),
            Some(s) => if s == seq!['h', 't', 't', 'p', 's'] {
                Ok(())
            } else {
                Err(ValidationError::InsecureTarget)
            },
        }
    }
}

/// Relies on regex::Regex::new and Regex::is_match: `CODE_PATTERN` compiles, and
/// matches a text exactly when it is 2 to 32 characters from `[a-zA-Z0-9-]`
/// (anchored at both ends, no multi-line mode).
#[verifier::external_body]
fn matches_code_pattern(pattern: &str, text: &str) -> (r: bool)
    requires
        pattern@ == CODE_PATTERN@,
    ensures
        r == is_code_shape(text@),
{
    regex::Regex::new(pattern).unwrap().is_match(text)
}

/// Relies on url::Url::parse and Url::scheme: the scheme of `s` when it parses.
#[verifier::external_body]
fn parse_scheme(s: &str) -> (r: Option<String>)
    ensures
        r is None <==> url_scheme(s@) is None,
        r matches Some(x) ==> url_scheme(s@) == Some(x@),
{
    url::Url::parse(s).ok().map(|u| u.scheme().to_string())
}

fn is_reserved_code(code: &str) -> (r: bool)
    ensures
        r == is_reserved(code@),
{
    proof {
        reveal_strlit("api");
        reveal_strlit("admin");
        reveal_strlit("www");
    }
    assert("api"@ =~= seq!['a', 'p', 'i']);
    assert("admin"@ =~= seq!['a', 'd', 'm', 'i', 'n']);
    assert("www"@ =~= seq!['w', 'w', 'w']);
    same_text(code, "api") || same_text(code, "admin") || same_text(code, "www")
}

/// Checks a redirect whose target has already been parsed to `scheme`
/// (`None` when the target is not an absolute URL).
pub fn validate_with_scheme(r: &Redirect, scheme: Option<String>) -> (res: Result<(), ValidationError>)
    ensures
        res == verdict(r.code@, match scheme { Some(s) => Some(s@), None => None }),
{
    if !matches_code_pattern(CODE_PATTERN, r.code.as_str()) {
        return Err(ValidationError::InvalidCode);
    }
    if is_reserved_code(r.code.as_str()) {
        return Err(ValidationError::ReservedCode);
    }
    match scheme {
        None => Err(ValidationError::InvalidTarget),
        Some(s) => {
            proof {
                reveal_strlit("https");
            }
            assert("https"@ =~= seq!['h', 't', 't', 'p', 's']);
            if same_text(s.as_str(), "https") {
                Ok(())
            } else {
                Err(ValidationError::InsecureTarget)
            }
        }
    }
}

/// Checks a redirect: the code has the shape of `CODE_PATTERN` and is not
/// reserved, and the target is an absolute URL with the `https` scheme.
pub fn validate_redirect(r: &Redirect) -> (res: Result<(), ValidationError>)
    ensures
        res == verdict(r.code@, url_scheme(r.target@)),
{
    let scheme = parse_scheme(r.target.as_str());
    validate_with_scheme(r, scheme)
}

} // verus!
