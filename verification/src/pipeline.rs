//! From a template to a document: substitution, then centring.

use vstd::prelude::*;
use crate::center::{center_lines, centering, default_marker};
use crate::failure::Failure;
use crate::moment::Moment;
use crate::resolver::{resolve, resolved};
use crate::substitute::{substitute, substitution};
use crate::variables::{Binding, VariableSet};

verus! {

/// What rendering gives: the template after substitution and centring, or
/// the error of the first of the two that fails.
pub open spec fn rendering(template: Seq<char>, vars: Seq<Binding>) -> Result<Seq<char>, Failure> {
    match substitution(template, vars) {
        Ok(text) => centering(text, default_marker()),
        Err(e) => Err(e),
    }
}

/// Replaces the placeholders of `vars` in `template`, and centres the lines
/// of the result that open with `->`.
pub fn render(template: &str, vars: &VariableSet) -> (out: Result<String, Failure>)
    ensures
        match out {
            Ok(s) => rendering(template@, vars@) == Ok::<Seq<char>, Failure>(s@),
            Err(e) => rendering(template@, vars@) == Err::<Seq<char>, Failure>(e),
        },
{
    match substitute(template, vars) {
        Ok(text) => center_lines(text.as_str()),
        Err(e) => Err(e),
    }
}

/// The document of a run: `template` rendered with the variables of
/// `config`, the description and the moment of the run.
pub fn generate(config: VariableSet, description: &str, now: &Moment, template: &str) -> (out:
    Result<String, Failure>)
    ensures
        match out {
            Ok(s) => rendering(
                template@,
                resolved(config@, description@, now@.0, now@.1, now@.2),
            ) == Ok::<Seq<char>, Failure>(s@),
            Err(e) => rendering(
                template@,
                resolved(config@, description@, now@.0, now@.1, now@.2),
            ) == Err::<Seq<char>, Failure>(e),
        },
{
    let vars = resolve(config, description, now);
    render(template, &vars)
}

} // verus!
