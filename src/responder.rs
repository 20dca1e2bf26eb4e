//! Decisions of the redirect responder: which answer a request gets.

use vstd::prelude::*;
use vstd::string::{StrSliceExecFns, StringExecFns};
use crate::text::same_text;

verus! {

/// The one code the responder knows.
pub open spec fn known_code() -> Seq<char> {
    seq!['o', 'k', '-', 'c', 'o', 'd', 'e']
}

/// Where the known code leads.
pub open spec fn known_target() -> Seq<char> {
    seq!['h', 't', 't', 'p', 's', ':', '/', '/', 'e', 'x', 'a', 'm', 'p', 'l', 'e', '.', 'c', 'o', 'm']
}

/// The redirect table: the target of `code`, if it has one.
pub open spec fn spec_lookup(code: Seq<char>) -> Option<Seq<char>> {
    if code == known_code() {
        Some(known_target())
    } else {
        None
    }
}

/// Looks `code` up in the redirect table.
pub fn lookup_target(code: &str) -> (r: Option<String>)
    ensures
        r is None <==> spec_lookup(code@) is None,
        r matches Some(t) ==> spec_lookup(code@) == Some(t@),
{
    proof {
        reveal_strlit("ok-code");
        reveal_strlit("https://example.com");
    }
    assert("ok-code"@ =~= known_code());
    assert("https://example.com"@ =~= known_target());
    if same_text(code, "ok-code") {
        Some(String::from_str("https://example.com"))
    } else {
        None
    }
}

/// Number of leading `/` characters of `s`.
pub open spec fn leading_slashes(s: Seq<char>) -> int
    decreases s.len(),
{
    if s.len() > 0 && s[0] == '/' {
        1 + leading_slashes(s.drop_first())
    } else {
        0
    }
}

/// `s` without its leading `/` characters.
pub open spec fn strip_slashes(s: Seq<char>) -> Seq<char> {
    s.subrange(leading_slashes(s), s.len() as int)
}

proof fn lemma_leading_slashes(s: Seq<char>, i: int)
    requires
        0 <= i <= s.len(),
        forall|j: int| 0 <= j < i ==> s[j] == '/',
    ensures
        leading_slashes(s) == i + leading_slashes(s.subrange(i, s.len() as int)),
    decreases i,
{
    if i > 0 {
        assert(s.drop_first().subrange(i - 1, s.drop_first().len() as int) =~= s.subrange(i, s.len() as int));
        lemma_leading_slashes(s.drop_first(), i - 1);
    } else {
        assert(s.subrange(0, s.len() as int) =~= s);
    }
}

/// Removes every leading `/` of a request path.
pub fn trim_leading_slashes(path: &str) -> (r: &str)
    ensures
        r@ == strip_slashes(path@),
{
    let n = path.unicode_len();
    let mut i: usize = 0;
    while i < n && path.get_char(i) == '/'
        invariant
            n == path@.len(),
            i <= n,
            forall|j: int| 0 <= j < i ==> path@[j] == '/',
        decreases n - i,
    {
        i = i + 1;
    }
    proof {
        lemma_leading_slashes(path@, i as int);
        let rest = path@.subrange(i as int, path@.len() as int);
        if rest.len() > 0 {
            assert(rest[0] == path@[i as int]);
        }
    }
    path.substring_char(i, n)
}

/// The answer to one request.
#[derive(Debug)]
pub enum Route {
    /// 405: only GET is served.
    MethodNotAllowed,
    /// 400: the path names no code.
    MissingCode,
    /// 302 to `target`; the hit on `code` is recorded.
    Found { code: String, target: String },
    /// 404: the code is not in the table.
    NotFound,
}

/// Decides the answer to a request with the given method and path.
pub fn route(is_get: bool, path: &str) -> (r: Route)
    ensures
        !is_get ==> r is MethodNotAllowed,
        is_get && strip_slashes(path@).len() == 0 ==> r is MissingCode,
        is_get && strip_slashes(path@).len() > 0 ==> match spec_lookup(strip_slashes(path@)) {
            None => r is NotFound,
            Some(t) => (r matches Route::Found { code, target } && code@ == strip_slashes(path@)
                && target@ == t),
        },
{
    if !is_get {
        return Route::MethodNotAllowed;
    }
    let code = trim_leading_slashes(path);
    if code.unicode_len() == 0 {
        return Route::MissingCode;
    }
    match lookup_target(code) {
        Some(target) => Route::Found { code: String::from_str(code), target },
        None => Route::NotFound,
    }
}

/// Exit status of a one-shot lookup with command-line `args` (program name first):
/// `2` without a code, `0` when the code is known, `1` when it is not.
pub fn lookup_exit_code(args: &Vec<String>) -> (r: i32)
    ensures
        args@.len() < 2 ==> r == 2,
        args@.len() >= 2 ==> r == if spec_lookup(args@[1]@) is Some { 0i32 } else { 1i32 },
{
    if args.len() < 2 {
        return 2;
    }
    match lookup_target(args[1].as_str()) {
        Some(_) => 0,
        None => 1,
    }
}

} // verus!
