//! The regular-expression engine that the replacer stands on.
//!
//! Nothing in this file is proved: it states what the library takes from the
//! `regex` crate. Matching itself is not described here. Its results have
//! names, and the rest of the library is proved for whatever they are.

use crate::splice::{hits_view, texts, Hit, HitView};
use regex::Regex;
use vstd::prelude::*;

verus! {

/// A compiled regular expression of the `regex` crate, opaque to the proofs.
#[verifier::external_type_specification]
#[verifier::external_body]
pub struct ExRegex(regex::Regex);

/// The error with which the `regex` crate refuses a pattern, opaque to the
/// proofs.
#[verifier::external_type_specification]
#[verifier::external_body]
pub struct ExRegexError(regex::Error);

/// Whether `Regex::new` accepts `pattern`.
pub uninterp spec fn regex_compiles(pattern: Seq<char>) -> bool;

/// The pattern that `Regex::new` compiled into `re`, where that is how `re`
/// was made; `None` for a regex that was built with other options.
pub uninterp spec fn regex_origin(re: &Regex) -> Option<Seq<char>>;

/// The successive non-overlapping matches that the regex compiled from
/// `pattern` finds in `text`, each with the groups among `names` that took
/// part in it.
pub uninterp spec fn regex_captures(
    pattern: Seq<char>,
    names: Seq<Seq<char>>,
    text: Seq<char>,
) -> Seq<HitView>;

/// `Regex::new` compiles a pattern with the default options. Whether it
/// succeeds depends on the pattern alone; the regex it returns is the one
/// compiled from that pattern.
pub assume_specification[ Regex::new ](re: &str) -> (r: Result<Regex, regex::Error>)
    ensures
        r is Ok <==> regex_compiles(re@),
        r matches Ok(compiled) ==> regex_origin(&compiled) == Some(re@),
;

/// Runs `Regex::captures_iter` over `text` and writes down, for each match it
/// yields, the span of the whole match (`Captures::get_match`) and, for each
/// of `names`, whether a group of that name took part (`Captures::name`).
/// For a regex compiled by `Regex::new` the outcome depends only on its
/// pattern, the names and the text, so it is the named one.
#[verifier::external_body]
pub(crate) fn scan(re: &Regex, names: &Vec<String>, text: &str) -> (hits: Vec<Hit>)
    ensures
        regex_origin(re) matches Some(pattern) ==> hits_view(hits@) == regex_captures(
            pattern,
            texts(names@),
            text@,
        ),
{
    re.captures_iter(text).map(
        |caps| {
            let whole = caps.get_match();
            Hit {
                start: whole.start(),
                end: whole.end(),
                fired: names.iter().map(|name| caps.name(name).is_some()).collect(),
            }
        },
    ).collect()
}

} // verus!
