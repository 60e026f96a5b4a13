//! Test cases, the duplicate-name check, and the expansion of one test case
//! into its generated units.
use vstd::prelude::*;
use crate::names::{
    Name, Diagnostic, DiagnosticView, ErrorKind, name_as_ident2, blank, underscored,
    empty_name_diag, diag_views,
};
use crate::section::{IndexSection, copy_spans};
use crate::unit::{
    Emitted, EmittedView, GeneratedUnit, UnitView, Output, OutputView, emitted_views, unit_views,
};

verus! {

/// One line of a test case: a statement, or a section.
pub enum Line {
    Statement(String),
    Section(IndexSection),
}

pub enum LineView {
    Statement(String),
    Section { index: usize, name: Name, code: Seq<String> },
}

impl View for Line {
    type V = LineView;

    open spec fn view(&self) -> LineView {
        match self {
            Line::Statement(s) => LineView::Statement(*s),
            Line::Section(s) => LineView::Section {
                index: s.index,
                name: s.section.name,
                code: s.section.code@,
            },
        }
    }
}

pub open spec fn line_views(ls: Seq<Line>) -> Seq<LineView> {
    ls.map_values(|l: Line| l@)
}

/// A named test case and its lines in source order.
pub struct TestCase {
    pub name: Name,
    pub code: Vec<Line>,
}

pub struct CaseView {
    pub name: Name,
    pub lines: Seq<LineView>,
}

impl View for TestCase {
    type V = CaseView;

    open spec fn view(&self) -> CaseView {
        CaseView { name: self.name, lines: line_views(self.code@) }
    }
}

/// Whether some line is a section.
pub open spec fn has_section(lines: Seq<LineView>) -> bool {
    exists|i: int| 0 <= i < lines.len() && #[trigger] lines[i] is Section
}

/// The number of sections among `lines`.
pub open spec fn section_count(lines: Seq<LineView>) -> nat
    decreases lines.len(),
{
    if lines.len() == 0 {
        0
    } else {
        section_count(lines.drop_last()) + if lines.last() is Section {
            1nat
        } else {
            0nat
        }
    }
}

/// The sections of a test case carry the indices 0, 1, 2, ... in source
/// order, statements not counting.
pub open spec fn indexed(lines: Seq<LineView>) -> bool {
    forall|i: int|
        0 <= i < lines.len() && #[trigger] lines[i] is Section ==> lines[i]->index
            == section_count(lines.subrange(0, i))
}

/// The emitted form of a line: a section becomes a block guarded by its index.
pub open spec fn emit(l: LineView) -> EmittedView {
    match l {
        LineView::Statement(s) => EmittedView::Plain(s),
        LineView::Section { index, code, .. } => EmittedView::Guarded { index, body: code },
    }
}

/// The code of every unit of a test case: all its lines, in source order.
pub open spec fn emitted(lines: Seq<LineView>) -> Seq<EmittedView> {
    lines.map_values(|l: LineView| emit(l))
}

/// One unit per section of `lines` whose name is not blank, in source order,
/// each running `all` under its own index, in the namespace `ns`.
pub open spec fn section_units(ns: Seq<char>, lines: Seq<LineView>, all: Seq<LineView>) -> Seq<
    UnitView,
>
    decreases lines.len(),
{
    if lines.len() == 0 {
        seq![]
    } else {
        let prev = section_units(ns, lines.drop_last(), all);
        match lines.last() {
            LineView::Section { index, name, .. } => if blank(name.text@) {
                prev
            } else {
                prev.push(
                    UnitView {
                        namespace: Some(ns),
                        name: underscored(name.text@),
                        selector: Some(index),
                        code: emitted(all),
                    },
                )
            },
            LineView::Statement(_) => prev,
        }
    }
}

/// One empty-name diagnostic per section of `lines` whose name is blank.
pub open spec fn section_diags(lines: Seq<LineView>) -> Seq<DiagnosticView>
    decreases lines.len(),
{
    if lines.len() == 0 {
        seq![]
    } else {
        let prev = section_diags(lines.drop_last());
        match lines.last() {
            LineView::Section { name, .. } => if blank(name.text@) {
                prev.push(empty_name_diag("section"@, name))
            } else {
                prev
            },
            LineView::Statement(_) => prev,
        }
    }
}

/// What a test case expands to.
pub open spec fn expansion(c: CaseView) -> OutputView {
    if blank(c.name.text@) {
        OutputView { units: seq![], diagnostics: seq![empty_name_diag("test case"@, c.name)] }
    } else if !has_section(c.lines) {
        OutputView {
            units: seq![
                UnitView {
                    namespace: None,
                    name: underscored(c.name.text@),
                    selector: None,
                    code: emitted(c.lines),
                },
            ],
            diagnostics: seq![],
        }
    } else {
        OutputView {
            units: section_units(underscored(c.name.text@), c.lines, c.lines),
            diagnostics: section_diags(c.lines),
        }
    }
}

/// The message that reports a duplicated test-case name.
pub open spec fn duplicate_message(name: Seq<char>) -> Seq<char> {
    "name `"@ + name + "` is a duplicate"@
}

/// The diagnostic that reports a duplicated name, anchored at `name`.
pub open spec fn duplicate_diag(name: Name) -> DiagnosticView {
    DiagnosticView {
        kind: ErrorKind::DuplicateName,
        message: duplicate_message(name.text@),
        location: name.location,
    }
}

pub fn is_section(line: &Line) -> (r: bool)
    ensures
        r == line@ is Section,
{
    match line {
        Line::Section(_) => true,
        _ => false,
    }
}

/// Reports, at the first of the two, that two test cases have the same name.
pub fn test_names_duplicated(lhs: &TestCase, rhs: &TestCase) -> (r: Result<(), Diagnostic>)
    ensures
        r is Err <==> lhs.name.text@ == rhs.name.text@,
        r matches Err(d) ==> d@ == duplicate_diag(lhs.name),
{
    if lhs.name.text == rhs.name.text {
        let mut message = String::from_str("name `");
        message.append(lhs.name.text.as_str());
        message.append("` is a duplicate");
        return Err(
            Diagnostic {
                kind: ErrorKind::DuplicateName,
                message,
                location: lhs.name.location,
            },
        );
    }
    Ok(())
}

/// The emitted form of a line.
fn emit_line(line: &Line) -> (r: Emitted)
    ensures
        r@ == emit(line@),
{
    match line {
        Line::Statement(s) => Emitted::Plain(s.clone()),
        Line::Section(s) => Emitted::Guarded { index: s.index, body: copy_spans(&s.section.code) },
    }
}

/// The emitted form of every line, in order.
fn emit_lines(lines: &Vec<Line>) -> (r: Vec<Emitted>)
    ensures
        emitted_views(r@) == emitted(line_views(lines@)),
{
    let ghost lv = line_views(lines@);
    let mut r: Vec<Emitted> = Vec::new();
    let mut i: usize = 0;
    while i < lines.len()
        invariant
            i <= lines.len(),
            lv == line_views(lines@),
            r.len() == i,
            emitted_views(r@) == emitted(lv.subrange(0, i as int)),
        decreases lines.len() - i,
    {
        let e = emit_line(&lines[i]);
        let ghost old_r = r@;
        r.push(e);
        proof {
            assert forall|k: int| 0 <= k < i + 1 implies #[trigger] emitted_views(r@)[k]
                == emitted(lv.subrange(0, i + 1))[k] by {
                if k < i {
                    assert(emitted_views(old_r)[k] == emitted(
                        lv.subrange(0, i as int),
                    )[k]);
                    assert(old_r[k] == r@[k]);
                }
            }
        }
        i = i + 1;
        assert(emitted_views(r@) =~= emitted(lv.subrange(0, i as int)));
    }
    assert(lv.subrange(0, lines.len() as int) =~= lv);
    r
}

/// Whether some line is a section.
fn any_section(lines: &Vec<Line>) -> (r: bool)
    ensures
        r == has_section(line_views(lines@)),
{
    let ghost lv = line_views(lines@);
    let mut i: usize = 0;
    while i < lines.len()
        invariant
            i <= lines.len(),
            lv == line_views(lines@),
            forall|k: int| 0 <= k < i ==> !(#[trigger] lv[k] is Section),
        decreases lines.len() - i,
    {
        if is_section(&lines[i]) {
            assert(lv[i as int] is Section);
            return true;
        }
        i = i + 1;
    }
    false
}

impl TestCase {
    pub fn new(name: Name, code: Vec<Line>) -> (r: TestCase)
        ensures
            r.name == name,
            r.code == code,
    {
        TestCase { name, code }
    }

    /// Expands this test case: one unit running every statement when it has
    /// no section, else one unit per section, each running all the lines with
    /// the discriminant set to that section's index.
    pub fn expand(&self) -> (r: Output)
        ensures
            r@ == expansion(self@),
    {
        let ghost cv = self@;
        let mut units: Vec<GeneratedUnit> = Vec::new();
        let mut diagnostics: Vec<Diagnostic> = Vec::new();
        match name_as_ident2("test case", &self.name) {
            Err(d) => {
                diagnostics.push(d);
                let r = Output { units, diagnostics };
                assert(r@.units =~= expansion(cv).units);
                assert(r@.diagnostics =~= expansion(cv).diagnostics);
                r
            },
            Ok(name) => {
                if !any_section(&self.code) {
                    units.push(
                        GeneratedUnit {
                            namespace: None,
                            name,
                            selector: None,
                            code: emit_lines(&self.code),
                        },
                    );
                    let r = Output { units, diagnostics };
                    assert(r@.units =~= expansion(cv).units);
                    assert(r@.diagnostics =~= expansion(cv).diagnostics);
                    return r;
                }
                let mut i: usize = 0;
                while i < self.code.len()
                    invariant
                        i <= self.code.len(),
                        cv == self@,
                        name@ == underscored(cv.name.text@),
                        unit_views(units@) == section_units(
                            name@,
                            cv.lines.subrange(0, i as int),
                            cv.lines,
                        ),
                        diag_views(diagnostics@) == section_diags(
                            cv.lines.subrange(0, i as int),
                        ),
                    decreases self.code.len() - i,
                {
                    let ghost prev = cv.lines.subrange(0, i as int);
                    let ghost next = cv.lines.subrange(0, i + 1);
                    assert(next.drop_last() =~= prev);
                    assert(next.last() == cv.lines[i as int]);
                    if let Line::Section(section) = &self.code[i] {
                        match section.name() {
                            Err(d) => {
                                diagnostics.push(d);
                            },
                            Ok(section_name) => {
                                let unit = GeneratedUnit {
                                    namespace: Some(name.clone()),
                                    name: section_name,
                                    selector: Some(section.index()),
                                    code: emit_lines(&self.code),
                                };
                                units.push(unit);
                            },
                        }
                    }
                    i = i + 1;
                    assert(unit_views(units@) =~= section_units(
                        name@,
                        next,
                        cv.lines,
                    ));
                    assert(diag_views(diagnostics@) =~= section_diags(next));
                }
                assert(cv.lines.subrange(0, self.code.len() as int) =~= cv.lines);
                Output { units, diagnostics }
            },
        }
    }
}

} // verus!
