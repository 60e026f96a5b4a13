//! A suite of test cases: duplicate-name detection and the compilation of
//! the whole suite.
use vstd::prelude::*;
use crate::names::{Diagnostic, DiagnosticView, diag_views};
use crate::test_case::{
    TestCase, CaseView, test_names_duplicated, duplicate_diag, expansion, indexed,
};
use crate::unit::{GeneratedUnit, Output, OutputView, unit_views};

verus! {

/// The test cases of a suite, in source order.
pub struct TestSuite {
    pub tests: Vec<TestCase>,
}

pub open spec fn case_views(cs: Seq<TestCase>) -> Seq<CaseView> {
    cs.map_values(|c: TestCase| c@)
}

impl View for TestSuite {
    type V = Seq<CaseView>;

    open spec fn view(&self) -> Seq<CaseView> {
        case_views(self.tests@)
    }
}

/// Every test case of a suite carries the section indices of its parse.
pub open spec fn well_indexed(cs: Seq<CaseView>) -> bool {
    forall|i: int| 0 <= i < cs.len() ==> indexed(#[trigger] cs[i].lines)
}

/// One diagnostic, anchored at case `i`, for each later case `k < j` that
/// bears the same name.
pub open spec fn pair_diags(cases: Seq<CaseView>, i: int, j: int) -> Seq<DiagnosticView>
    decreases j - i,
{
    if j <= i + 1 {
        seq![]
    } else {
        let prev = pair_diags(cases, i, j - 1);
        if cases[i].name.text@ == cases[j - 1].name.text@ {
            prev.push(duplicate_diag(cases[i].name))
        } else {
            prev
        }
    }
}

/// One diagnostic for each pair of cases with equal names whose first member
/// is among the first `i` cases, ordered by the first member, then the second.
pub open spec fn duplicate_diags(cases: Seq<CaseView>, i: int) -> Seq<DiagnosticView>
    decreases i,
{
    if i <= 0 {
        seq![]
    } else {
        duplicate_diags(cases, i - 1) + pair_diags(cases, i - 1, cases.len() as int)
    }
}

/// The expansions of all the cases, concatenated in source order.
pub open spec fn expansions(cases: Seq<CaseView>) -> OutputView
    decreases cases.len(),
{
    if cases.len() == 0 {
        OutputView { units: seq![], diagnostics: seq![] }
    } else {
        let p = expansions(cases.drop_last());
        let e = expansion(cases.last());
        OutputView { units: p.units + e.units, diagnostics: p.diagnostics + e.diagnostics }
    }
}

/// What a suite compiles to: only the duplicate diagnostics when there are
/// any, else the expansions of its cases.
pub open spec fn compilation(cases: Seq<CaseView>) -> OutputView {
    let d = duplicate_diags(cases, cases.len() as int);
    if d.len() > 0 {
        OutputView { units: seq![], diagnostics: d }
    } else {
        expansions(cases)
    }
}

proof fn lemma_diag_views_concat(a: Seq<Diagnostic>, b: Seq<Diagnostic>)
    ensures
        diag_views(a + b) == diag_views(a) + diag_views(b),
{
    assert(diag_views(a + b) =~= diag_views(a) + diag_views(b));
}

proof fn lemma_unit_views_concat(a: Seq<GeneratedUnit>, b: Seq<GeneratedUnit>)
    ensures
        unit_views(a + b) == unit_views(a) + unit_views(b),
{
    assert(unit_views(a + b) =~= unit_views(a) + unit_views(b));
}

proof fn lemma_diag_views_push(a: Seq<Diagnostic>, d: Diagnostic)
    ensures
        diag_views(a.push(d)) == diag_views(a).push(d@),
{
    assert(diag_views(a.push(d)) =~= diag_views(a).push(d@));
}

/// Reports every pair of test cases with equal names, once per pair, at the
/// earlier of the two.
pub fn check_duplicates(cases: &Vec<TestCase>) -> (r: Vec<Diagnostic>)
    ensures
        diag_views(r@) == duplicate_diags(case_views(cases@), cases.len() as int),
{
    let ghost cv = case_views(cases@);
    let n = cases.len();
    let mut r: Vec<Diagnostic> = Vec::new();
    let mut i: usize = 0;
    while i < n
        invariant
            n == cases.len(),
            cv == case_views(cases@),
            i <= n,
            diag_views(r@) == duplicate_diags(cv, i as int),
        decreases n - i,
    {
        let mut j: usize = i + 1;
        while j < n
            invariant
                n == cases.len(),
                cv == case_views(cases@),
                i < n,
                i + 1 <= j <= n,
                diag_views(r@) == duplicate_diags(cv, i as int) + pair_diags(cv, i as int, j as int),
            decreases n - j,
        {
            let ghost before = r@;
            assert(cv[i as int] == cases@[i as int]@);
            assert(cv[j as int] == cases@[j as int]@);
            if let Err(d) = test_names_duplicated(&cases[i], &cases[j]) {
                r.push(d);
                proof {
                    lemma_diag_views_push(before, d);
                }
            }
            j = j + 1;
            assert(diag_views(r@) =~= duplicate_diags(cv, i as int) + pair_diags(
                cv,
                i as int,
                j as int,
            ));
        }
        i = i + 1;
    }
    r
}

impl TestSuite {
    pub fn new(tests: Vec<TestCase>) -> (r: TestSuite)
        ensures
            r.tests == tests,
    {
        TestSuite { tests }
    }

    /// Compiles the suite: any pair of equally named cases suppresses every
    /// unit; otherwise each case is expanded in source order.
    pub fn compile(&self) -> (r: Output)
        ensures
            r@ == compilation(self@),
    {
        let ghost cv = self@;
        let dups = check_duplicates(&self.tests);
        if dups.len() > 0 {
            let r = Output { units: Vec::new(), diagnostics: dups };
            assert(r@.units =~= compilation(cv).units);
            return r;
        }
        let mut units: Vec<GeneratedUnit> = Vec::new();
        let mut diagnostics: Vec<Diagnostic> = Vec::new();
        let mut i: usize = 0;
        while i < self.tests.len()
            invariant
                i <= self.tests.len(),
                cv == self@,
                unit_views(units@) == expansions(cv.subrange(0, i as int)).units,
                diag_views(diagnostics@) == expansions(cv.subrange(0, i as int)).diagnostics,
            decreases self.tests.len() - i,
        {
            let mut out = self.tests[i].expand();
            let ghost (u0, d0, u1, d1) = (units@, diagnostics@, out.units@, out.diagnostics@);
            units.append(&mut out.units);
            diagnostics.append(&mut out.diagnostics);
            proof {
                lemma_unit_views_concat(u0, u1);
                lemma_diag_views_concat(d0, d1);
                assert(cv.subrange(0, i + 1).drop_last() =~= cv.subrange(0, i as int));
                assert(cv.subrange(0, i + 1).last() == self.tests@[i as int]@);
            }
            i = i + 1;
        }
        assert(cv.subrange(0, self.tests.len() as int) =~= cv);
        Output { units, diagnostics }
    }
}

} // verus!
