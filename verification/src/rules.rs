//! Route match rules and path rewriting. Regular-expression matching and
//! substitution are delegated to the `regex` crate behind trusted wrappers;
//! everything around them is verified.

use vstd::prelude::*;
use crate::text::is_prefix_of;
use crate::text::str_starts_with;

verus! {

#[verifier::external_type_specification]
#[verifier::external_body]
pub struct ExRegex(regex::Regex);

/// Whether `regex::Regex::new` accepts the pattern `pat`.
pub uninterp spec fn re_valid(pat: Seq<char>) -> bool;

/// Whether the regular expression `pat` matches anywhere in `text`.
pub uninterp spec fn re_match(pat: Seq<char>, text: Seq<char>) -> bool;

/// The result of replacing the leftmost match of `pat` in `text` by `rep`.
pub uninterp spec fn re_replace(pat: Seq<char>, text: Seq<char>, rep: Seq<char>) -> Seq<char>;

/// A compiled regular expression paired with the pattern it was built from,
/// so that contracts can speak of the pattern.
pub struct CompiledRegex {
    re: regex::Regex,
    pattern: String,
}

impl View for CompiledRegex {
    type V = Seq<char>;

    closed spec fn view(&self) -> Seq<char> {
        self.pattern@
    }
}

impl CompiledRegex {
    /// Relies on `regex::Regex::new`: compilation succeeds exactly on the
    /// patterns the `regex` crate accepts, a function of the pattern alone.
    #[verifier::external_body]
    pub fn compile(pattern: &str) -> (r: Option<CompiledRegex>)
        ensures
            r is Some <==> re_valid(pattern@),
            r matches Some(c) ==> c@ == pattern@,
    {
        match regex::Regex::new(pattern) {
            Ok(re) => Some(CompiledRegex { re, pattern: pattern.to_owned() }),
            Err(_) => None,
        }
    }

    /// Relies on `regex::Regex::is_match`: true iff the pattern matches
    /// anywhere in `text`, a function of pattern and text alone.
    #[verifier::external_body]
    pub fn is_match(&self, text: &str) -> (r: bool)
        ensures
            r == re_match(self@, text@),
    {
        self.re.is_match(text)
    }

    /// Relies on `regex::Regex::replace`: replaces the leftmost match of the
    /// pattern in `text` by `rep`; when nothing matches, the text comes back
    /// unchanged.
    #[verifier::external_body]
    pub fn replace(&self, text: &str, rep: &str) -> (r: String)
        ensures
            r@ == re_replace(self@, text@, rep@),
            !re_match(self@, text@) ==> r@ == text@,
    {
        self.re.replace(text, rep).into_owned()
    }
}

/// The predicate a route uses to claim a request path.
pub enum GatewayMatchRule {
    PathStartsWith(String),
    PathRegex(CompiledRegex),
}

impl GatewayMatchRule {
    /// What this rule says of a path: prefix rules compare a literal prefix,
    /// regex rules look for a match anywhere in the path.
    pub open spec fn spec_matches(&self, path: Seq<char>) -> bool {
        match self {
            GatewayMatchRule::PathStartsWith(prefix) => is_prefix_of(prefix@, path),
            GatewayMatchRule::PathRegex(re) => re_match(re@, path),
        }
    }

    pub fn matches_path(&self, path: &str) -> (r: bool)
        ensures
            r == self.spec_matches(path@),
    {
        match self {
            GatewayMatchRule::PathStartsWith(prefix) => str_starts_with(path, prefix.as_str()),
            GatewayMatchRule::PathRegex(re) => re.is_match(path),
        }
    }
}

/// An optional rewrite applied to a matched request path: when `pat` matches
/// the path, the whole path is replaced by the substitution result;
/// otherwise the path is kept as it is.
pub open spec fn rewritten_path(pat: Seq<char>, rep: Seq<char>, path: Seq<char>) -> Seq<char> {
    if re_match(pat, path) {
        re_replace(pat, path, rep)
    } else {
        path
    }
}

/// Path rewriting is idempotent whenever the rewritten path no longer
/// matches the rewrite pattern: a second application changes nothing.
/// (The converse does not hold: a pattern that rewrites some matching path
/// to itself is idempotent there even though the result still matches.)
pub proof fn lemma_rewrite_idempotent_when_result_unmatched(
    pat: Seq<char>,
    rep: Seq<char>,
    path: Seq<char>,
)
    requires
        !re_match(pat, rewritten_path(pat, rep, path)),
    ensures
        rewritten_path(pat, rep, rewritten_path(pat, rep, path)) == rewritten_path(
            pat,
            rep,
            path,
        ),
{
}

} // verus!
