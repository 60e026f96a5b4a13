//! Expansion of a suite of named test cases, whose bodies interleave shared
//! statements with mutually exclusive sections, into flat executable units.
pub mod names;
pub mod section;
pub mod unit;
pub mod test_case;
pub mod test_suite;
pub mod token;
pub mod parse;
pub mod laws;

use vstd::prelude::*;
use crate::names::Diagnostic;
use crate::parse::malformed_diag;
use crate::test_case::CaseView;
use crate::test_suite::{TestSuite, compilation, well_indexed};
use crate::laws::law_unique_reading;
use crate::token::{Token, render_suite};
use crate::unit::Output;

verus! {

/// Parses the tokens of a suite and compiles it. Tokens that no suite is
/// written as give a single malformed-specification diagnostic and no unit;
/// otherwise the output is the compilation of the one suite, with the
/// section indices of its parse, that the tokens are the writing of.
pub fn tests(tokens: &Vec<Token>) -> (r: Output)
    ensures
        (forall|cs: Seq<CaseView>| #[trigger] render_suite(cs) != tokens@) ==> r@.units.len() == 0
            && r@.diagnostics.len() == 1 && r@.diagnostics[0] == malformed_diag(
            r@.diagnostics[0].location,
        ),
        (exists|cs: Seq<CaseView>| #[trigger] render_suite(cs) == tokens@) ==> exists|
            cs: Seq<CaseView>,
        | #[trigger] render_suite(cs) == tokens@ && well_indexed(cs),
        forall|cs: Seq<CaseView>|
            #[trigger] render_suite(cs) == tokens@ && well_indexed(cs) ==> r@ == compilation(cs),
{
    match TestSuite::parse(tokens) {
        Ok(suite) => {
            let r = suite.compile();
            assert forall|cs: Seq<CaseView>|
                #[trigger] render_suite(cs) == tokens@ && well_indexed(cs) implies r@ == compilation(
                cs,
            ) by {
                law_unique_reading(suite@, cs);
            }
            r
        },
        Err(d) => {
            let mut diagnostics: Vec<Diagnostic> = Vec::new();
            diagnostics.push(d);
            let r = Output { units: Vec::new(), diagnostics };
            assert(r@.diagnostics[0] == d@);
            r
        },
    }
}

/// The sum of two integers, the running example of the test suites.
pub fn add(a: i32, b: i32) -> (r: i32)
    requires
        i32::MIN <= a + b <= i32::MAX,
    ensures
        r == a + b,
{
    a + b
}

/// The former name of [`tests`].
pub fn test_suite(tokens: &Vec<Token>) -> (r: Output)
    ensures
        (forall|cs: Seq<CaseView>| #[trigger] render_suite(cs) != tokens@) ==> r@.units.len() == 0
            && r@.diagnostics.len() == 1 && r@.diagnostics[0] == malformed_diag(
            r@.diagnostics[0].location,
        ),
        (exists|cs: Seq<CaseView>| #[trigger] render_suite(cs) == tokens@) ==> exists|
            cs: Seq<CaseView>,
        | #[trigger] render_suite(cs) == tokens@ && well_indexed(cs),
        forall|cs: Seq<CaseView>|
            #[trigger] render_suite(cs) == tokens@ && well_indexed(cs) ==> r@ == compilation(cs),
{
    tests(tokens)
}

} // verus!
