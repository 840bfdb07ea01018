//! Glob sets for matching input and output patterns, carried by an outside
//! matcher. The library treats a built set as opaque and reasons about it
//! through the patterns it was built from.
use vstd::prelude::*;

use starbase_utils::glob::GlobSet;

verus! {

#[verifier::external_type_specification]
#[verifier::external_body]
pub struct ExGlobSet<'glob>(GlobSet<'glob>);

/// The expression patterns a glob set was built from.
pub uninterp spec fn globset_expressions(g: &GlobSet<'static>) -> Seq<Seq<char>>;

/// The negation patterns a glob set was built from.
pub uninterp spec fn globset_negations(g: &GlobSet<'static>) -> Seq<Seq<char>>;

/// What matching a path against patterns yields: a function of the
/// expression patterns, the negation patterns and the path alone, with the
/// matcher's default global negation list, which this library never alters.
pub uninterp spec fn glob_match(
    expressions: Seq<Seq<char>>,
    negations: Seq<Seq<char>>,
    path: Seq<char>,
) -> bool;

/// Relies on starbase_utils::glob::GlobSet::new_split_owned: builds an owned
/// glob set from separate expression and negation patterns, failing on a
/// pattern that does not parse.
#[verifier::external_body]
pub fn globset_new_split(expressions: &Vec<String>, negations: &Vec<String>) -> (r: Result<
    GlobSet<'static>,
    String,
>)
    ensures
        r matches Ok(g) ==> globset_expressions(&g) == expressions.deep_view()
            && globset_negations(&g) == negations.deep_view(),
{
    match GlobSet::new_split_owned(expressions, negations) {
        Ok(g) => Ok(g),
        Err(e) => Err(format!("{e}")),
    }
}

/// Relies on starbase_utils::glob::GlobSet::matches: whether the path
/// matches an expression pattern and no negation pattern.
#[verifier::external_body]
pub fn globset_matches(g: &GlobSet<'static>, path: &str) -> (r: bool)
    ensures
        r == glob_match(globset_expressions(g), globset_negations(g), path@),
{
    g.matches(path)
}

} // verus!
