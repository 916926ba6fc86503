//! Which handlers stand for a MIME type, and in what order.
//!
//! The candidates come from four sources, in this order of precedence: what the user
//! set and added for the MIME type itself; failing that, what the user set and added
//! for the wildcard of its type; the regex handlers that match the path or URL at hand;
//! the system's defaults. Handlers that the user removed for the MIME type are left out
//! of all four, and a handler counts where it comes first.

use crate::associations::{Associations, AssociationsFile};
use crate::error::{Error, ErrorView};
use crate::layer::{listed, Layer};
use crate::lists::{allowed, allowed_of, distinct, distinct_of, extend, lemma_deep_push};
use crate::mime_types::{MimeKey, MimeType};
use vstd::prelude::*;

verus! {

/// Whether the `regex` crate accepts the text as a regular expression.
pub uninterp spec fn regex_valid(pattern: Seq<char>) -> bool;

/// Whether the regular expression `pattern`, compiled by the `regex` crate, matches
/// somewhere in `text`. Meaningful for a valid pattern only.
pub uninterp spec fn regex_match(pattern: Seq<char>, text: Seq<char>) -> bool;

/// Compiles `pattern` with `Regex::new` of the `regex` crate and asks `Regex::is_match`
/// whether it matches in `text`. Trusted: it yields nothing exactly on the patterns that
/// are not `regex_valid`, and else says what `regex_match` is.
#[verifier::external_body]
fn is_match(pattern: &str, text: &str) -> (r: Option<bool>)
    ensures
        r is Some <==> regex_valid(pattern@),
        r matches Some(b) ==> b == regex_match(pattern@, text@),
{
    match regex::Regex::new(pattern) {
        Ok(compiled) => Some(compiled.is_match(text)),
        Err(_) => None,
    }
}

/// A regex handler as mathematics.
pub ghost struct RegexRule {
    pub pattern: Seq<char>,
    pub handler: Seq<char>,
}

impl RegexRule {
    /// Whether the rule applies to the path or URL `path`.
    pub open spec fn hits(self, path: Seq<char>) -> bool {
        regex_valid(self.pattern) && regex_match(self.pattern, path)
    }
}

/// A handler that stands for the paths and URLs that a regular expression matches,
/// whatever their MIME type.
#[derive(Debug, Clone, PartialEq, Eq)]
pub struct RegexHandler {
    pub pattern: String,
    pub handler: String,
}

impl View for RegexHandler {
    type V = RegexRule;

    open spec fn view(&self) -> RegexRule {
        RegexRule { pattern: self.pattern@, handler: self.handler@ }
    }
}

/// The rules of regex handlers.
pub open spec fn rules_of(handlers: Seq<RegexHandler>) -> Seq<RegexRule> {
    Seq::new(handlers.len(), |i: int| handlers[i]@)
}

/// The handlers of the rules that apply to `path`, in the order of the rules.
pub open spec fn matching(rules: Seq<RegexRule>, path: Seq<char>) -> Seq<Seq<char>>
    decreases rules.len(),
{
    if rules.len() == 0 {
        Seq::empty()
    } else if rules.last().hits(path) {
        matching(rules.drop_last(), path).push(rules.last().handler)
    } else {
        matching(rules.drop_last(), path)
    }
}

/// The handlers that regex rules contribute for a target: those that match its path or
/// URL, none where only a MIME type is at hand.
pub open spec fn regex_part(rules: Seq<RegexRule>, path: Option<Seq<char>>) -> Seq<Seq<char>> {
    match path {
        Some(p) => matching(rules, p),
        None => Seq::empty(),
    }
}

/// What the user set and added for `k` itself, defaults first, without what was removed
/// for `k`.
pub open spec fn literal(a: Associations, k: MimeKey) -> Seq<Seq<char>> {
    allowed(listed(a.default_apps, k) + listed(a.added, k), listed(a.removed, k))
}

/// What the user set and added for the wildcard of the type of `k`, without what was
/// removed for `k`. A wildcard has no fallback.
pub open spec fn fallback(a: Associations, k: MimeKey) -> Seq<Seq<char>> {
    if k.is_wildcard() {
        Seq::empty()
    } else {
        allowed(
            listed(a.default_apps, k.wildcard()) + listed(a.added, k.wildcard()),
            listed(a.removed, k),
        )
    }
}

/// What the user's own associations give for `k`: the literal entries, or the fallback
/// where there are none.
pub open spec fn user_part(a: Associations, k: MimeKey) -> Seq<Seq<char>> {
    if literal(a, k).len() > 0 {
        literal(a, k)
    } else {
        fallback(a, k)
    }
}

/// What follows the literal entries of `k` in precedence: regex matches, then the
/// system's defaults, both without what was removed for `k`.
pub open spec fn shared_part(
    a: Associations,
    system: Map<MimeKey, Seq<Seq<char>>>,
    regex: Seq<Seq<char>>,
    k: MimeKey,
) -> Seq<Seq<char>> {
    allowed(regex, listed(a.removed, k)) + allowed(listed(system, k), listed(a.removed, k))
}

/// The handlers that stand for `k`, best first, each once. `regex` holds the handlers of
/// the regex rules that match the target.
pub open spec fn candidates(
    a: Associations,
    system: Map<MimeKey, Seq<Seq<char>>>,
    regex: Seq<Seq<char>>,
    k: MimeKey,
) -> Seq<Seq<char>> {
    distinct(user_part(a, k) + shared_part(a, system, regex, k))
}

/// The candidates for `k`, or `NotFound` where there are none.
pub open spec fn resolution(
    a: Associations,
    system: Map<MimeKey, Seq<Seq<char>>>,
    regex: Seq<Seq<char>>,
    k: MimeKey,
) -> Result<Seq<Seq<char>>, ErrorView> {
    if candidates(a, system, regex, k).len() > 0 {
        Ok(candidates(a, system, regex, k))
    } else {
        Err(ErrorView::NotFound(k.text()))
    }
}

/// A result with its parts as mathematics.
pub open spec fn listing(r: Result<Vec<String>, Error>) -> Result<Seq<Seq<char>>, ErrorView> {
    match r {
        Ok(list) => Ok(list.deep_view()),
        Err(e) => Err(e@),
    }
}

impl RegexHandler {
    /// A regex handler that sends what `pattern` matches to `handler`.
    ///
    /// Fails with `BadRegex` where `pattern` is not a valid regular expression.
    pub fn new(pattern: &str, handler: &str) -> (r: Result<RegexHandler, Error>)
        ensures
            match r {
                Ok(h) => regex_valid(pattern@) && h@ == (RegexRule {
                    pattern: pattern@,
                    handler: handler@,
                }),
                Err(e) => !regex_valid(pattern@) && e@ == ErrorView::BadRegex(pattern@),
            },
    {
        match is_match(pattern, "") {
            Some(_) => Ok(RegexHandler { pattern: pattern.to_owned(), handler: handler.to_owned() }),
            None => Err(Error::BadRegex(pattern.to_owned())),
        }
    }

    /// Whether the handler applies to the path or URL `path`.
    pub fn hits(&self, path: &str) -> (r: bool)
        ensures
            r == self@.hits(path@),
    {
        match is_match(self.pattern.as_str(), path) {
            Some(hit) => hit,
            None => false,
        }
    }
}

/// The handlers of the regex handlers that apply to `path`, in their order.
pub fn matching_handlers(handlers: &Vec<RegexHandler>, path: &str) -> (r: Vec<String>)
    ensures
        r.deep_view() == matching(rules_of(handlers@), path@),
{
    let mut r: Vec<String> = Vec::new();
    let mut i: usize = 0;
    proof {
        assert(rules_of(handlers@).take(0) =~= Seq::<RegexRule>::empty());
        assert(r.deep_view() =~= Seq::<Seq<char>>::empty());
    }
    while i < handlers.len()
        invariant
            i <= handlers.len(),
            r.deep_view() == matching(rules_of(handlers@).take(i as int), path@),
        decreases handlers.len() - i,
    {
        let ghost before = r;
        let ghost rules = rules_of(handlers@);
        proof {
            assert(rules.take(i + 1).drop_last() =~= rules.take(i as int));
            assert(rules.take(i + 1).last() == handlers@[i as int]@);
        }
        if handlers[i].hits(path) {
            r.push(handlers[i].handler.clone());
            proof {
                lemma_deep_push(before, r, handlers@[i as int].handler);
            }
        }
        i += 1;
    }
    proof {
        assert(rules_of(handlers@).take(handlers.len() as int) =~= rules_of(handlers@));
    }
    r
}

/// The handlers that stand for `mime`, best first, each once. `regex` holds the handlers
/// of the regex rules that match the target.
pub fn candidates_of(
    a: &AssociationsFile,
    system: &Layer,
    regex: &Vec<String>,
    mime: &MimeType,
) -> (r: Vec<String>)
    ensures
        r.deep_view() == candidates(a@, system@, regex.deep_view(), mime@),
{
    let excluded = a.removed_associations.listed(mime);
    let mut own = a.default_apps.listed(mime);
    let added = a.added_associations.listed(mime);
    extend(&mut own, &added);
    let mut chain = allowed_of(&own, &excluded);
    if chain.len() == 0 && !mime.is_wildcard() {
        let wildcard = mime.wildcard();
        let mut wide = a.default_apps.listed(&wildcard);
        let wide_added = a.added_associations.listed(&wildcard);
        extend(&mut wide, &wide_added);
        chain = allowed_of(&wide, &excluded);
    }
    assert(chain.deep_view() == user_part(a@, mime@));
    let by_regex = allowed_of(regex, &excluded);
    extend(&mut chain, &by_regex);
    let by_system = allowed_of(&system.listed(mime), &excluded);
    extend(&mut chain, &by_system);
    proof {
        assert(chain.deep_view() =~= user_part(a@, mime@) + shared_part(
            a@,
            system@,
            regex.deep_view(),
            mime@,
        ));
    }
    distinct_of(&chain)
}

/// The candidates for `mime`, given the handlers of the regex rules that match the
/// target.
///
/// Fails with `NotFound` where there is no candidate.
pub fn resolve_with(
    a: &AssociationsFile,
    system: &Layer,
    regex: &Vec<String>,
    mime: &MimeType,
) -> (r: Result<Vec<String>, Error>)
    ensures
        listing(r) == resolution(a@, system@, regex.deep_view(), mime@),
{
    let found = candidates_of(a, system, regex, mime);
    if found.len() > 0 {
        Ok(found)
    } else {
        Err(Error::NotFound(mime.to_string()))
    }
}

/// The candidates for `mime`. Where the target is a path or URL, `path` holds it, and
/// the regex handlers that match it take part.
///
/// Fails with `NotFound` where there is no candidate.
pub fn resolve(
    a: &AssociationsFile,
    system: &Layer,
    handlers: &Vec<RegexHandler>,
    mime: &MimeType,
    path: Option<&str>,
) -> (r: Result<Vec<String>, Error>)
    ensures
        listing(r) == resolution(
            a@,
            system@,
            regex_part(
                rules_of(handlers@),
                match path {
                    Some(p) => Some(p@),
                    None => None,
                },
            ),
            mime@,
        ),
{
    let regex = match path {
        Some(p) => matching_handlers(handlers, p),
        None => {
            let none: Vec<String> = Vec::new();
            proof {
                assert(none.deep_view() =~= Seq::<Seq<char>>::empty());
            }
            none
        },
    };
    resolve_with(a, system, &regex, mime)
}

} // verus!
