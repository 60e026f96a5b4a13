//! The generated units: the flat, independently executable output.
use vstd::prelude::*;
use crate::names::{Diagnostic, DiagnosticView, diag_views};

verus! {

/// One line of a unit's code: a statement that always runs, or a section
/// body guarded by `discriminant == index`.
pub enum Emitted {
    Plain(String),
    Guarded { index: usize, body: Vec<String> },
}

pub enum EmittedView {
    Plain(String),
    Guarded { index: usize, body: Seq<String> },
}

impl View for Emitted {
    type V = EmittedView;

    open spec fn view(&self) -> EmittedView {
        match self {
            Emitted::Plain(s) => EmittedView::Plain(*s),
            Emitted::Guarded { index, body } => EmittedView::Guarded { index: *index, body: body@ },
        }
    }
}

pub open spec fn emitted_views(es: Seq<Emitted>) -> Seq<EmittedView> {
    es.map_values(|e: Emitted| e@)
}

/// A generated unit. `namespace` is the identifier of the test case that
/// groups sectioned units; `selector` is the value of the unit-local
/// discriminant, present exactly when the code holds guarded sections.
pub struct GeneratedUnit {
    pub namespace: Option<String>,
    pub name: String,
    pub selector: Option<usize>,
    pub code: Vec<Emitted>,
}

pub struct UnitView {
    pub namespace: Option<Seq<char>>,
    pub name: Seq<char>,
    pub selector: Option<usize>,
    pub code: Seq<EmittedView>,
}

pub open spec fn option_view(o: Option<String>) -> Option<Seq<char>> {
    match o {
        Some(s) => Some(s@),
        None => None,
    }
}

impl View for GeneratedUnit {
    type V = UnitView;

    open spec fn view(&self) -> UnitView {
        UnitView {
            namespace: option_view(self.namespace),
            name: self.name@,
            selector: self.selector,
            code: emitted_views(self.code@),
        }
    }
}

/// The statements that one line of a unit runs when the discriminant is `sel`.
pub open spec fn runs_line(e: EmittedView, sel: Option<usize>) -> Seq<String> {
    match e {
        EmittedView::Plain(s) => seq![s],
        EmittedView::Guarded { index, body } => if sel == Some(index) {
            body
        } else {
            seq![]
        },
    }
}

/// The statements that a unit's code runs, in order.
pub open spec fn runs(code: Seq<EmittedView>, sel: Option<usize>) -> Seq<String>
    decreases code.len(),
{
    if code.len() == 0 {
        seq![]
    } else {
        runs(code.drop_last(), sel) + runs_line(code.last(), sel)
    }
}

/// The statements that a generated unit executes.
pub open spec fn executes(u: UnitView) -> Seq<String> {
    runs(u.code, u.selector)
}

/// The qualified name of a unit: its namespace, if any, and its name.
pub open spec fn qualified_name(u: UnitView) -> (Option<Seq<char>>, Seq<char>) {
    (u.namespace, u.name)
}

/// What the compilation of a test case or a suite hands out.
pub struct Output {
    pub units: Vec<GeneratedUnit>,
    pub diagnostics: Vec<Diagnostic>,
}

pub struct OutputView {
    pub units: Seq<UnitView>,
    pub diagnostics: Seq<DiagnosticView>,
}

pub open spec fn unit_views(us: Seq<GeneratedUnit>) -> Seq<UnitView> {
    us.map_values(|u: GeneratedUnit| u@)
}

impl View for Output {
    type V = OutputView;

    open spec fn view(&self) -> OutputView {
        OutputView { units: unit_views(self.units@), diagnostics: diag_views(self.diagnostics@) }
    }
}

} // verus!
