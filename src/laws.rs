//! Laws of the expansion of a test case and of the compilation of a suite.
use vstd::prelude::*;
use crate::names::{ErrorKind, blank, underscored, empty_name_diag};
use crate::test_case::{
    LineView, CaseView, has_section, section_count, indexed, emit, emitted, section_units,
    section_diags, expansion,
};
use crate::test_suite::{pair_diags, duplicate_diags, compilation, well_indexed};
use crate::unit::{EmittedView, UnitView, runs, runs_line, executes, qualified_name};
use crate::token::{
    Token, prefix, render_section, render_line, render_lines, render_case, render_suite,
    lemma_prefix_concat, lemma_section_prefix_free, lemma_line_prefix_free, lemma_line_start,
    lemma_section_tokens,
};

verus! {

/// The statements of a test case's lines in source order, sections left out.
pub open spec fn statements(lines: Seq<LineView>) -> Seq<String>
    decreases lines.len(),
{
    if lines.len() == 0 {
        seq![]
    } else {
        statements(lines.drop_last()) + match lines.last() {
            LineView::Statement(s) => seq![s],
            LineView::Section { .. } => seq![],
        }
    }
}

/// What runs when the discriminant is `i`: every statement, and the body of
/// each section whose index is `i`, in source order.
pub open spec fn selected(lines: Seq<LineView>, i: usize) -> Seq<String>
    decreases lines.len(),
{
    if lines.len() == 0 {
        seq![]
    } else {
        selected(lines.drop_last(), i) + match lines.last() {
            LineView::Statement(s) => seq![s],
            LineView::Section { index, code, .. } => if index == i {
                code
            } else {
                seq![]
            },
        }
    }
}

proof fn lemma_emitted_drop_last(lines: Seq<LineView>)
    requires
        lines.len() > 0,
    ensures
        emitted(lines).drop_last() == emitted(lines.drop_last()),
        emitted(lines).last() == emit(lines.last()),
{
    assert(emitted(lines).drop_last() =~= emitted(lines.drop_last()));
}

proof fn lemma_runs_unselected(lines: Seq<LineView>)
    ensures
        runs(emitted(lines), None) == statements(lines),
    decreases lines.len(),
{
    if lines.len() == 0 {
        assert(emitted(lines) =~= Seq::<EmittedView>::empty());
    } else {
        lemma_emitted_drop_last(lines);
        lemma_runs_unselected(lines.drop_last());
    }
}

proof fn lemma_runs_selected(lines: Seq<LineView>, i: usize)
    ensures
        runs(emitted(lines), Some(i)) == selected(lines, i),
    decreases lines.len(),
{
    if lines.len() == 0 {
        assert(emitted(lines) =~= Seq::<EmittedView>::empty());
    } else {
        lemma_emitted_drop_last(lines);
        lemma_runs_selected(lines.drop_last(), i);
    }
}

/// Each unit made for the sections of `p` runs `all` in the namespace `ns`,
/// under the index and the name of a section of `p` whose name is not blank.
proof fn lemma_section_units(ns: Seq<char>, p: Seq<LineView>, all: Seq<LineView>)
    ensures
        forall|k: int|
            #![trigger section_units(ns, p, all)[k]]
            0 <= k < section_units(ns, p, all).len() ==> exists|m: int|
                0 <= m < p.len() && #[trigger] p[m] is Section && !blank(p[m]->name.text@)
                    && section_units(ns, p, all)[k] == (UnitView {
                    namespace: Some(ns),
                    name: underscored(p[m]->name.text@),
                    selector: Some(p[m]->index),
                    code: emitted(all),
                }),
    decreases p.len(),
{
    if p.len() > 0 {
        let q = p.drop_last();
        lemma_section_units(ns, q, all);
        let us = section_units(ns, p, all);
        assert forall|k: int| #![trigger us[k]] 0 <= k < us.len() implies exists|m: int|
            0 <= m < p.len() && #[trigger] p[m] is Section && !blank(p[m]->name.text@) && us[k]
                == (UnitView {
                namespace: Some(ns),
                name: underscored(p[m]->name.text@),
                selector: Some(p[m]->index),
                code: emitted(all),
            }) by {
            if k < section_units(ns, q, all).len() {
                let m = choose|m: int|
                    0 <= m < q.len() && #[trigger] q[m] is Section && !blank(q[m]->name.text@)
                        && section_units(ns, q, all)[k] == (UnitView {
                        namespace: Some(ns),
                        name: underscored(q[m]->name.text@),
                        selector: Some(q[m]->index),
                        code: emitted(all),
                    });
                assert(p[m] == q[m]);
            } else {
                assert(p[p.len() - 1] == p.last());
            }
        }
    }
}

/// Each section of `p` with a blank name has its empty-name diagnostic.
proof fn lemma_section_diags(p: Seq<LineView>)
    ensures
        forall|m: int|
            0 <= m < p.len() && #[trigger] p[m] is Section && blank(p[m]->name.text@)
                ==> section_diags(p).contains(empty_name_diag("section"@, p[m]->name)),
    decreases p.len(),
{
    if p.len() > 0 {
        let q = p.drop_last();
        lemma_section_diags(q);
        assert forall|m: int|
            0 <= m < p.len() && #[trigger] p[m] is Section && blank(
                p[m]->name.text@,
            ) implies section_diags(p).contains(empty_name_diag("section"@, p[m]->name)) by {
            let d = empty_name_diag("section"@, p[m]->name);
            if m < q.len() {
                assert(p[m] == q[m]);
                let j = choose|j: int| 0 <= j < section_diags(q).len() && section_diags(q)[j] == d;
                if p.last() matches LineView::Section { name, .. } && blank(name.text@) {
                    assert(section_diags(p)[j] == d);
                } else {
                    assert(section_diags(p) == section_diags(q));
                }
            } else {
                assert(p[m] == p.last());
                assert(section_diags(p)[section_diags(q).len() as int] == d);
            }
        }
    }
}

proof fn lemma_section_count_grows(l: Seq<LineView>, a: int, b: int)
    requires
        0 <= a < b <= l.len(),
        l[a] is Section,
    ensures
        section_count(l.subrange(0, b)) >= section_count(l.subrange(0, a)) + 1,
    decreases b - a,
{
    let s = l.subrange(0, b);
    assert(s.drop_last() =~= l.subrange(0, b - 1));
    if b == a + 1 {
        assert(s.last() == l[a]);
    } else {
        lemma_section_count_grows(l, a, b - 1);
    }
}

/// The sections of a parsed test case carry distinct indices, increasing in
/// source order.
pub proof fn law_distinct_indices(lines: Seq<LineView>, m1: int, m2: int)
    requires
        indexed(lines),
        0 <= m1 < m2 < lines.len(),
        lines[m1] is Section,
        lines[m2] is Section,
    ensures
        lines[m1]->index < lines[m2]->index,
{
    lemma_section_count_grows(lines, m1, m2);
}

/// A test case without sections expands to one unit whose code is its
/// statements, verbatim and in source order.
pub proof fn law_no_section_identity(c: CaseView)
    requires
        !blank(c.name.text@),
        !has_section(c.lines),
    ensures
        expansion(c).units.len() == 1,
        expansion(c).diagnostics.len() == 0,
        expansion(c).units[0].selector is None,
        expansion(c).units[0].code.len() == c.lines.len(),
        forall|m: int|
            0 <= m < c.lines.len() ==> (c.lines[m] matches LineView::Statement(s)
                && #[trigger] expansion(c).units[0].code[m] == EmittedView::Plain(s)),
        executes(expansion(c).units[0]) == statements(c.lines),
{
    assert forall|m: int| 0 <= m < c.lines.len() implies (c.lines[m] matches LineView::Statement(s)
        && #[trigger] expansion(c).units[0].code[m] == EmittedView::Plain(s)) by {
        if c.lines[m] is Section {
            assert(has_section(c.lines));
        }
    }
    lemma_runs_unselected(c.lines);
}

proof fn lemma_indices(ns: Seq<char>, p: Seq<LineView>, all: Seq<LineView>)
    requires
        indexed(p),
        forall|m: int| 0 <= m < p.len() && #[trigger] p[m] is Section ==> !blank(p[m]->name.text@),
    ensures
        section_units(ns, p, all).len() == section_count(p),
        forall|k: int|
            0 <= k < section_units(ns, p, all).len() ==> #[trigger] section_units(ns, p, all)[k].selector
                == Some(k as usize),
    decreases p.len(),
{
    if p.len() > 0 {
        let q = p.drop_last();
        assert forall|i: int| 0 <= i < q.len() && #[trigger] q[i] is Section implies q[i]->index
            == section_count(q.subrange(0, i)) by {
            assert(q.subrange(0, i) =~= p.subrange(0, i));
            assert(p[i] == q[i]);
        }
        assert forall|m: int| 0 <= m < q.len() && #[trigger] q[m] is Section implies !blank(
            q[m]->name.text@,
        ) by {
            assert(p[m] == q[m]);
        }
        lemma_indices(ns, q, all);
        let n = p.len() - 1;
        assert(p[n] == p.last());
        assert(p.subrange(0, n) =~= q);
    }
}

/// In a parsed test case whose sections all have names, there is one unit
/// per section and their discriminants are 0, 1, 2, ... in source order,
/// whatever statements stand between the sections.
pub proof fn law_index_assignment(c: CaseView)
    requires
        indexed(c.lines),
        !blank(c.name.text@),
        has_section(c.lines),
        forall|m: int|
            0 <= m < c.lines.len() && #[trigger] c.lines[m] is Section ==> !blank(
                c.lines[m]->name.text@,
            ),
    ensures
        expansion(c).units.len() == section_count(c.lines),
        forall|k: int|
            0 <= k < expansion(c).units.len() ==> #[trigger] expansion(c).units[k].selector == Some(
                k as usize,
            ),
{
    lemma_indices(underscored(c.name.text@), c.lines, c.lines);
}

/// Every unit of a test case holds all its lines, each at its own place.
proof fn lemma_units_hold_lines(c: CaseView)
    ensures
        forall|k: int|
            0 <= k < expansion(c).units.len() ==> (#[trigger] expansion(c).units[k]).code == emitted(
                c.lines,
            ),
        forall|k: int|
            0 <= k < expansion(c).units.len() ==> ((#[trigger] expansion(c).units[k]).namespace
                == Some(underscored(c.name.text@)) && expansion(c).units[k].selector is Some) || (
            expansion(c).units[k].namespace is None && expansion(c).units[k].name == underscored(
                c.name.text@,
            ) && expansion(c).units[k].selector is None),
{
    lemma_section_units(underscored(c.name.text@), c.lines, c.lines);
}

/// A unit whose discriminant is `i` runs the shared statements and the body
/// of the sections with index `i` alone; the guard of every other section is
/// false in it.
pub proof fn law_isolation(c: CaseView)
    ensures
        forall|k: int, i: usize|
            #![trigger expansion(c).units[k], selected(c.lines, i)]
            0 <= k < expansion(c).units.len() && expansion(c).units[k].selector == Some(i)
                ==> executes(expansion(c).units[k]) == selected(c.lines, i),
        forall|k: int, m: int|
            0 <= k < expansion(c).units.len() && 0 <= m < c.lines.len() && c.lines[m] is Section
                && expansion(c).units[k].selector != Some(c.lines[m]->index) ==> runs_line(
                #[trigger] expansion(c).units[k].code[m],
                expansion(c).units[k].selector,
            ) == Seq::<String>::empty(),
{
    lemma_units_hold_lines(c);
    assert forall|k: int, i: usize|
        #![trigger expansion(c).units[k], selected(c.lines, i)]
        0 <= k < expansion(c).units.len() && expansion(c).units[k].selector == Some(
            i,
        ) implies executes(expansion(c).units[k]) == selected(c.lines, i) by {
        lemma_runs_selected(c.lines, i);
    }
}

/// Each statement outside the sections stands unguarded at its own place in
/// every unit of its test case, and so runs in each of them.
pub proof fn law_shared_code(c: CaseView)
    ensures
        forall|k: int, m: int|
            0 <= k < expansion(c).units.len() && 0 <= m < c.lines.len() ==> (c.lines[m] matches LineView::Statement(
                s,
            ) ==> #[trigger] expansion(c).units[k].code[m] == EmittedView::Plain(s) && runs_line(
                expansion(c).units[k].code[m],
                expansion(c).units[k].selector,
            ) == seq![s]),
{
    lemma_units_hold_lines(c);
}

/// Test cases whose names give different identifiers never yield two units
/// with the same qualified name, whatever their sections are called.
pub proof fn law_namespace_isolation(a: CaseView, b: CaseView)
    requires
        underscored(a.name.text@) != underscored(b.name.text@),
    ensures
        forall|i: int, j: int|
            0 <= i < expansion(a).units.len() && 0 <= j < expansion(b).units.len()
                ==> qualified_name(#[trigger] expansion(a).units[i]) != qualified_name(
                #[trigger] expansion(b).units[j],
            ),
{
    lemma_units_hold_lines(a);
    lemma_units_hold_lines(b);
}

/// A test case with a blank name yields its empty-name diagnostic and no unit.
pub proof fn law_empty_case_name(c: CaseView)
    requires
        blank(c.name.text@),
    ensures
        expansion(c).units.len() == 0,
        expansion(c).diagnostics == seq![empty_name_diag("test case"@, c.name)],
{
}

/// A section with a blank name, in a parsed test case, yields its empty-name
/// diagnostic and no unit runs under its index.
pub proof fn law_empty_section_name(c: CaseView, m: int)
    requires
        indexed(c.lines),
        !blank(c.name.text@),
        0 <= m < c.lines.len(),
        c.lines[m] is Section,
        blank(c.lines[m]->name.text@),
    ensures
        forall|k: int|
            0 <= k < expansion(c).units.len() ==> #[trigger] expansion(c).units[k].selector != Some(
                c.lines[m]->index,
            ),
        expansion(c).diagnostics.contains(empty_name_diag("section"@, c.lines[m]->name)),
{
    assert(has_section(c.lines));
    let ns = underscored(c.name.text@);
    lemma_section_units(ns, c.lines, c.lines);
    lemma_section_diags(c.lines);
    assert forall|k: int| 0 <= k < expansion(c).units.len() implies #[trigger] expansion(
        c,
    ).units[k].selector != Some(c.lines[m]->index) by {
        let m2 = choose|m2: int|
            0 <= m2 < c.lines.len() && #[trigger] c.lines[m2] is Section && !blank(
                c.lines[m2]->name.text@,
            ) && section_units(ns, c.lines, c.lines)[k] == (UnitView {
                namespace: Some(ns),
                name: underscored(c.lines[m2]->name.text@),
                selector: Some(c.lines[m2]->index),
                code: emitted(c.lines),
            });
        if m2 < m {
            law_distinct_indices(c.lines, m2, m);
        } else if m < m2 {
            law_distinct_indices(c.lines, m, m2);
        }
    }
}

proof fn lemma_pair_diags(cases: Seq<CaseView>, i: int, j: int, m: int)
    requires
        0 <= i < m < j <= cases.len(),
        cases[i].name.text@ == cases[m].name.text@,
    ensures
        pair_diags(cases, i, j).len() >= 1,
    decreases j - i,
{
    if j - 1 > m {
        lemma_pair_diags(cases, i, j - 1, m);
    }
}

proof fn lemma_duplicate_diags_grow(cases: Seq<CaseView>, i: int, n: int)
    requires
        0 <= i < n,
    ensures
        duplicate_diags(cases, n).len() >= pair_diags(cases, i, cases.len() as int).len(),
    decreases n,
{
    if i < n - 1 {
        lemma_duplicate_diags_grow(cases, i, n - 1);
    }
}

proof fn lemma_pair_kinds(cases: Seq<CaseView>, i: int, j: int)
    ensures
        forall|k: int|
            0 <= k < pair_diags(cases, i, j).len() ==> (#[trigger] pair_diags(cases, i, j)[k]).kind
                == ErrorKind::DuplicateName,
    decreases j - i,
{
    if j > i + 1 {
        lemma_pair_kinds(cases, i, j - 1);
    }
}

proof fn lemma_duplicate_kinds(cases: Seq<CaseView>, n: int)
    ensures
        forall|k: int|
            0 <= k < duplicate_diags(cases, n).len() ==> (#[trigger] duplicate_diags(
                cases,
                n,
            )[k]).kind == ErrorKind::DuplicateName,
    decreases n,
{
    if n > 0 {
        lemma_duplicate_kinds(cases, n - 1);
        lemma_pair_kinds(cases, n - 1, cases.len() as int);
        let a = duplicate_diags(cases, n - 1);
        let b = pair_diags(cases, n - 1, cases.len() as int);
        assert forall|k: int| 0 <= k < (a + b).len() implies (#[trigger] (a + b)[k]).kind
            == ErrorKind::DuplicateName by {
            if k >= a.len() {
                assert((a + b)[k] == b[k - a.len()]);
            } else {
                assert((a + b)[k] == a[k]);
            }
        }
    }
}

/// Two test cases of one suite with the same name suppress every unit of
/// the suite, even of well-formed cases, and the suite's diagnostics then
/// all report duplicates.
pub proof fn law_duplicate_suppression(cases: Seq<CaseView>, i: int, j: int)
    requires
        0 <= i < j < cases.len(),
        cases[i].name.text@ == cases[j].name.text@,
    ensures
        compilation(cases).units.len() == 0,
        compilation(cases).diagnostics.len() >= 1,
        forall|k: int|
            0 <= k < compilation(cases).diagnostics.len() ==> (#[trigger] compilation(
                cases,
            ).diagnostics[k]).kind == ErrorKind::DuplicateName,
{
    lemma_pair_diags(cases, i, cases.len() as int, j);
    lemma_duplicate_diags_grow(cases, i, cases.len() as int);
    lemma_duplicate_kinds(cases, cases.len() as int);
}

/// Two lines that read alike: equal but, perhaps, for a section's index.
pub open spec fn same_text(a: LineView, b: LineView) -> bool {
    match (a, b) {
        (LineView::Statement(x), LineView::Statement(y)) => x == y,
        (
            LineView::Section { name: n1, code: c1, .. },
            LineView::Section { name: n2, code: c2, .. },
        ) => n1 == n2 && c1 == c2,
        _ => false,
    }
}

proof fn lemma_line_same(a: LineView, b: LineView, t: Seq<Token>)
    requires
        prefix(render_line(a), t),
        prefix(render_line(b), t),
    ensures
        same_text(a, b),
{
    assert(render_line(a)[0] == t[0]);
    assert(render_line(b)[0] == t[0]);
    if let LineView::Section { name: n1, code: c1, .. } = a {
        if let LineView::Section { name: n2, code: c2, .. } = b {
            lemma_section_prefix_free(n1, c1, n2, c2, t);
            lemma_section_tokens(n1, c1);
            lemma_section_tokens(n2, c2);
            assert(render_section(n1, c1)[2] == t[2]);
            assert(render_section(n2, c2)[2] == t[2]);
            assert forall|k: int| 0 <= k < c1.len() implies c1[k] == c2[k] by {
                assert(render_section(n1, c1)[k + 5] == t[k + 5]);
                assert(render_section(n2, c2)[k + 5] == t[k + 5]);
            }
            assert(c1 =~= c2);
        }
    }
}

proof fn lemma_lines_same(l1: Seq<LineView>, l2: Seq<LineView>, t: Seq<Token>)
    requires
        prefix(render_lines(l1) + seq![Token::CloseBrace], t),
        prefix(render_lines(l2) + seq![Token::CloseBrace], t),
    ensures
        l1.len() == l2.len(),
        forall|k: int| 0 <= k < l1.len() ==> same_text(#[trigger] l1[k], l2[k]),
    decreases l1.len(),
{
    let cb = seq![Token::CloseBrace];
    if l1.len() == 0 {
        assert((render_lines(l1) + cb)[0] == t[0]);
        if l2.len() > 0 {
            lemma_line_start(l2[0]);
            assert((render_lines(l2) + cb)[0] == render_line(l2[0])[0]);
            assert((render_lines(l2) + cb)[0] == t[0]);
        }
    } else {
        lemma_line_start(l1[0]);
        assert((render_lines(l1) + cb)[0] == render_line(l1[0])[0]);
        assert((render_lines(l1) + cb)[0] == t[0]);
        if l2.len() == 0 {
            assert((render_lines(l2) + cb)[0] == t[0]);
        }
        let r1 = render_line(l1[0]);
        let r2 = render_line(l2[0]);
        assert(render_lines(l1) + cb =~= r1 + (render_lines(l1.drop_first()) + cb));
        assert(render_lines(l2) + cb =~= r2 + (render_lines(l2.drop_first()) + cb));
        lemma_prefix_concat(r1, render_lines(l1.drop_first()) + cb, t);
        lemma_prefix_concat(r2, render_lines(l2.drop_first()) + cb, t);
        lemma_line_prefix_free(l1[0], l2[0], t);
        lemma_line_same(l1[0], l2[0], t);
        lemma_lines_same(l1.drop_first(), l2.drop_first(), t.skip(r1.len() as int));
        assert forall|k: int| 0 <= k < l1.len() implies same_text(#[trigger] l1[k], l2[k]) by {
            if k > 0 {
                assert(l1[k] == l1.drop_first()[k - 1]);
                assert(l2[k] == l2.drop_first()[k - 1]);
            }
        }
    }
}

proof fn lemma_count_same(l1: Seq<LineView>, l2: Seq<LineView>)
    requires
        l1.len() == l2.len(),
        forall|k: int| 0 <= k < l1.len() ==> same_text(#[trigger] l1[k], l2[k]),
    ensures
        section_count(l1) == section_count(l2),
    decreases l1.len(),
{
    if l1.len() > 0 {
        let n = l1.len() - 1;
        assert(same_text(l1[n], l2[n]));
        assert forall|k: int| 0 <= k < n implies same_text(#[trigger] l1.drop_last()[k], l2.drop_last()[k]) by {
            assert(same_text(l1[k], l2[k]));
        }
        lemma_count_same(l1.drop_last(), l2.drop_last());
    }
}

proof fn lemma_lines_equal(l1: Seq<LineView>, l2: Seq<LineView>)
    requires
        l1.len() == l2.len(),
        forall|k: int| 0 <= k < l1.len() ==> same_text(#[trigger] l1[k], l2[k]),
        indexed(l1),
        indexed(l2),
    ensures
        l1 == l2,
{
    assert forall|k: int| 0 <= k < l1.len() implies l1[k] == l2[k] by {
        assert(same_text(l1[k], l2[k]));
        if l1[k] is Section {
            assert forall|j: int| 0 <= j < k implies same_text(#[trigger] l1.subrange(0, k)[j], l2.subrange(0, k)[j]) by {
                assert(same_text(l1[j], l2[j]));
            }
            lemma_count_same(l1.subrange(0, k), l2.subrange(0, k));
        }
    }
    assert(l1 =~= l2);
}

proof fn lemma_case_same(a: CaseView, b: CaseView, t: Seq<Token>)
    requires
        prefix(render_case(a), t),
        prefix(render_case(b), t),
        indexed(a.lines),
        indexed(b.lines),
    ensures
        a == b,
{
    let cb = seq![Token::CloseBrace];
    assert(render_case(a)[2] == t[2]);
    assert(render_case(b)[2] == t[2]);
    let ha = crate::token::render_header(Token::CaseKw, a.name);
    let hb = crate::token::render_header(Token::CaseKw, b.name);
    assert(render_case(a) =~= ha + (render_lines(a.lines) + cb));
    assert(render_case(b) =~= hb + (render_lines(b.lines) + cb));
    lemma_prefix_concat(ha, render_lines(a.lines) + cb, t);
    lemma_prefix_concat(hb, render_lines(b.lines) + cb, t);
    lemma_lines_same(a.lines, b.lines, t.skip(5));
    lemma_lines_equal(a.lines, b.lines);
}

/// A token stream is the writing of at most one suite whose sections carry
/// the indices of their parse: parsing recovers the suite that was written.
pub proof fn law_unique_reading(a: Seq<CaseView>, b: Seq<CaseView>)
    requires
        render_suite(a) == render_suite(b),
        well_indexed(a),
        well_indexed(b),
    ensures
        a == b,
    decreases a.len(),
{
    let t = render_suite(a);
    if a.len() == 0 {
        if b.len() > 0 {
            assert(render_suite(b).len() >= render_case(b[0]).len());
        }
        assert(b =~= a);
    } else {
        if b.len() == 0 {
            assert(render_suite(a).len() >= render_case(a[0]).len());
        }
        let ra = render_case(a[0]);
        let rb = render_case(b[0]);
        lemma_prefix_concat(ra, render_suite(a.drop_first()), t);
        lemma_prefix_concat(rb, render_suite(b.drop_first()), t);
        assert(indexed(a[0].lines));
        assert(indexed(b[0].lines));
        lemma_case_same(a[0], b[0], t);
        assert(t.skip(ra.len() as int) =~= render_suite(a.drop_first()));
        assert(t.skip(rb.len() as int) =~= render_suite(b.drop_first()));
        assert forall|i: int| 0 <= i < a.drop_first().len() implies indexed(#[trigger] a.drop_first()[i].lines) by {
            assert(a.drop_first()[i] == a[i + 1]);
        }
        assert forall|i: int| 0 <= i < b.drop_first().len() implies indexed(#[trigger] b.drop_first()[i].lines) by {
            assert(b.drop_first()[i] == b[i + 1]);
        }
        law_unique_reading(a.drop_first(), b.drop_first());
        assert(a.len() == b.len());
        assert forall|i: int| 0 <= i < a.len() implies a[i] == b[i] by {
            if i > 0 {
                assert(a[i] == a.drop_first()[i - 1]);
                assert(b[i] == b.drop_first()[i - 1]);
            }
        }
        assert(a =~= b);
    }
}

} // verus!
