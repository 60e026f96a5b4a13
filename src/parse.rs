//! The parser: from the front end's tokens to a suite of test cases.
use vstd::prelude::*;
use crate::names::{Name, Diagnostic, DiagnosticView, ErrorKind};
use crate::section::{Section, IndexSection};
use crate::test_case::{Line, LineView, TestCase, CaseView, line_views, indexed, section_count};
use crate::test_suite::{TestSuite, case_views, well_indexed};
use crate::token::{
    Token, prefix, render_header, render_stmts, render_section, render_line, render_lines,
    render_case, render_suite, lemma_prefix_concat, lemma_render_lines_push,
    lemma_render_suite_push, lemma_lines_sync, lemma_suite_sync, lemma_section_tokens,
};

verus! {

/// The diagnostic of a token stream that no suite is written as.
pub open spec fn malformed_diag(location: usize) -> DiagnosticView {
    DiagnosticView {
        kind: ErrorKind::MalformedSpec,
        message: "malformed test specification"@,
        location,
    }
}

pub open spec fn keyword(section: bool) -> Token {
    if section {
        Token::SectionKw
    } else {
        Token::CaseKw
    }
}

/// No test-case line can begin at `q`: the tokens end, or the token there is
/// neither a statement nor a closing brace, nor the start of a section.
pub open spec fn stuck_at(t: Seq<Token>, q: int) -> bool {
    q >= t.len() || (!(t[q] is CloseBrace) && !(t[q] is Stmt) && (t[q] is SectionKw ==> forall|
        nm: Name,
        c: Seq<String>,
    | !prefix(#[trigger] render_section(nm, c), t.skip(q))))
}

fn malformed(location: usize) -> (d: Diagnostic)
    ensures
        d@ == malformed_diag(location),
{
    Diagnostic {
        kind: ErrorKind::MalformedSpec,
        message: String::from_str("malformed test specification"),
        location,
    }
}

/// Reads `kw("name") {` at `pos`.
fn parse_header(tokens: &Vec<Token>, pos: usize, section: bool) -> (r: Result<Name, Diagnostic>)
    requires
        pos <= tokens.len(),
    ensures
        r matches Ok(n) ==> pos + 5 <= tokens.len() && prefix(
            render_header(keyword(section), n),
            tokens@.skip(pos as int),
        ),
        r matches Err(d) ==> d@ == malformed_diag(d.location) && d.location <= tokens.len() && forall|
            n: Name,
        | !prefix(#[trigger] render_header(keyword(section), n), tokens@.skip(pos as int)),
{
    let ghost t = tokens@.skip(pos as int);
    if tokens.len() - pos <= 0 {
        return Err(malformed(tokens.len()));
    }
    let kw_ok = if section {
        matches!(tokens[pos], Token::SectionKw)
    } else {
        matches!(tokens[pos], Token::CaseKw)
    };
    if !kw_ok {
        assert forall|n: Name| !prefix(#[trigger] render_header(keyword(section), n), t) by {
            assert(render_header(keyword(section), n)[0] == keyword(section));
            if prefix(render_header(keyword(section), n), t) {
                assert(render_header(keyword(section), n)[0] == t[0]);
                assert(t[0] == tokens@[pos + 0]);
            }
        }
        return Err(malformed(pos));
    }
    if tokens.len() - pos <= 1 {
        return Err(malformed(tokens.len()));
    }
    if !matches!(tokens[pos + 1], Token::OpenParen) {
        assert forall|n: Name| !prefix(#[trigger] render_header(keyword(section), n), t) by {
            assert(render_header(keyword(section), n)[1] == Token::OpenParen);
            if prefix(render_header(keyword(section), n), t) {
                assert(render_header(keyword(section), n)[1] == t[1]);
                assert(t[1] == tokens@[pos + 1]);
            }
        }
        return Err(malformed(pos + 1));
    }
    if tokens.len() - pos <= 2 {
        return Err(malformed(tokens.len()));
    }
    let name = match &tokens[pos + 2] {
        Token::Str(nm) => Name { text: nm.text.clone(), location: nm.location },
        _ => {
            assert forall|n: Name| !prefix(#[trigger] render_header(keyword(section), n), t) by {
                assert(render_header(keyword(section), n)[2] == Token::Str(n));
                if prefix(render_header(keyword(section), n), t) {
                    assert(render_header(keyword(section), n)[2] == t[2]);
                    assert(t[2] == tokens@[pos + 2]);
                }
            }
            return Err(malformed(pos + 2));
        },
    };
    if tokens.len() - pos <= 3 {
        return Err(malformed(tokens.len()));
    }
    if !matches!(tokens[pos + 3], Token::CloseParen) {
        assert forall|n: Name| !prefix(#[trigger] render_header(keyword(section), n), t) by {
            assert(render_header(keyword(section), n)[3] == Token::CloseParen);
            if prefix(render_header(keyword(section), n), t) {
                assert(render_header(keyword(section), n)[3] == t[3]);
                assert(t[3] == tokens@[pos + 3]);
            }
        }
        return Err(malformed(pos + 3));
    }
    if tokens.len() - pos <= 4 {
        return Err(malformed(tokens.len()));
    }
    if !matches!(tokens[pos + 4], Token::OpenBrace) {
        assert forall|n: Name| !prefix(#[trigger] render_header(keyword(section), n), t) by {
            assert(render_header(keyword(section), n)[4] == Token::OpenBrace);
            if prefix(render_header(keyword(section), n), t) {
                assert(render_header(keyword(section), n)[4] == t[4]);
                assert(t[4] == tokens@[pos + 4]);
            }
        }
        return Err(malformed(pos + 4));
    }
    assert(tokens@[pos + 2 as int] == Token::Str(name));
    assert(forall|j: int| 0 <= j < 5 ==> #[trigger] t[j] == tokens@[pos + j]);
    assert(prefix(render_header(keyword(section), name), t));
    Ok(name)
}

impl Section {
    /// Reads `section("name") { statements }` at `pos`; returns the section
    /// and the position after it.
    pub fn parse(tokens: &Vec<Token>, pos: usize) -> (r: Result<(Section, usize), Diagnostic>)
        requires
            pos <= tokens.len(),
        ensures
            r matches Ok((s, end)) ==> end <= tokens.len() && end == pos + render_section(
                s.name,
                s.code@,
            ).len() && prefix(render_section(s.name, s.code@), tokens@.skip(pos as int)),
            r matches Err(d) ==> d@ == malformed_diag(d.location) && d.location <= tokens.len()
                && forall|nm: Name, c: Seq<String>|
                !prefix(#[trigger] render_section(nm, c), tokens@.skip(pos as int)),
    {
        let ghost t = tokens@.skip(pos as int);
        let name = match parse_header(tokens, pos, true) {
            Ok(n) => n,
            Err(d) => {
                assert forall|nm: Name, c: Seq<String>|
                    !prefix(#[trigger] render_section(nm, c), t) by {
                    lemma_prefix_concat(
                        render_header(Token::SectionKw, nm),
                        render_stmts(c) + seq![Token::CloseBrace],
                        t,
                    );
                    assert(render_section(nm, c) =~= render_header(Token::SectionKw, nm) + (
                    render_stmts(c) + seq![Token::CloseBrace]));
                }
                return Err(d);
            },
        };
        let ghost head = render_header(Token::SectionKw, name);
        let mut code: Vec<String> = Vec::new();
        let mut q: usize = pos + 5;
        while q < tokens.len()
            invariant
                pos + 5 <= q <= tokens.len(),
                t == tokens@.skip(pos as int),
                prefix(head, t),
                head == render_header(Token::SectionKw, name),
                code.len() == q - pos - 5,
                forall|k: int| 0 <= k < code.len() ==> tokens@[pos + 5 + k] == Token::Stmt(#[trigger] code@[k]),
            decreases tokens.len() - q,
        {
            match &tokens[q] {
                Token::Stmt(s) => {
                    code.push(s.clone());
                    q = q + 1;
                },
                Token::CloseBrace => {
                    proof {
                        lemma_section_tokens(name, code@);
                        let rs = render_section(name, code@);
                        assert forall|i: int| 0 <= i < rs.len() implies rs[i] == #[trigger] t[i] by {
                            if i < 5 {
                                assert(rs[i] == head[i]);
                            } else if i < code.len() + 5 {
                                assert(rs[(i - 5) + 5] == Token::Stmt(code@[i - 5]));
                            }
                        }
                    }
                    return Ok((Section { name, code }, q + 1));
                },
                _ => {
                    proof {
                        assert forall|nm: Name, c: Seq<String>|
                            !prefix(#[trigger] render_section(nm, c), t) by {
                            lemma_section_tokens(nm, c);
                            let m: int = q - pos - 5;
                            if prefix(render_section(nm, c), t) {
                                if m < c.len() {
                                    assert(render_section(nm, c)[m + 5] == t[m + 5]);
                                } else if m == c.len() {
                                    assert(render_section(nm, c)[m + 5] == t[m + 5]);
                                } else {
                                    assert(render_section(nm, c)[c.len() + 5int] == t[c.len() + 5int]);
                                    assert(tokens@[pos + 5 + c.len()] == Token::Stmt(code@[c.len() as int]));
                                }
                            }
                        }
                    }
                    return Err(malformed(q));
                },
            }
        }
        proof {
            assert forall|nm: Name, c: Seq<String>|
                !prefix(#[trigger] render_section(nm, c), t) by {
                lemma_section_tokens(nm, c);
                if prefix(render_section(nm, c), t) {
                    assert(render_section(nm, c)[c.len() + 5int] == t[c.len() + 5int]);
                    assert(tokens@[pos + 5 + c.len()] == Token::Stmt(code@[c.len() as int]));
                }
            }
        }
        Err(malformed(tokens.len()))
    }
}

/// Where the lines `p` begin the body of a test case at `pos` and no line can
/// begin after them, no test case is written at `pos`.
proof fn lemma_case_stuck(t: Seq<Token>, pos: int, p: Seq<LineView>)
    requires
        0 <= pos,
        pos + 5 <= t.len(),
        prefix(render_lines(p), t.skip(pos + 5)),
        stuck_at(t, pos + 5 + render_lines(p).len()),
    ensures
        forall|cv: CaseView| !prefix(#[trigger] render_case(cv), t.skip(pos)),
{
    let q = pos + 5 + render_lines(p).len();
    assert forall|cv: CaseView| !prefix(#[trigger] render_case(cv), t.skip(pos)) by {
        if prefix(render_case(cv), t.skip(pos)) {
            let head = render_header(Token::CaseKw, cv.name);
            let body = render_lines(cv.lines) + seq![Token::CloseBrace];
            assert(render_case(cv) =~= head + body);
            lemma_prefix_concat(head, body, t.skip(pos));
            assert(t.skip(pos).skip(5) =~= t.skip(pos + 5));
            lemma_lines_sync(p, cv.lines, t.skip(pos + 5));
            let k = choose|k: int|
                0 <= k <= cv.lines.len() && render_lines(p).len() == render_lines(
                    cv.lines.take(k),
                ).len() && prefix(
                    render_lines(#[trigger] cv.lines.skip(k)) + seq![Token::CloseBrace],
                    t.skip(pos + 5).skip(render_lines(p).len() as int),
                );
            let rest = t.skip(pos + 5).skip(render_lines(p).len() as int);
            assert(rest =~= t.skip(q));
            let tail = cv.lines.skip(k);
            if k == cv.lines.len() {
                assert(tail.len() == 0);
                assert((render_lines(tail) + seq![Token::CloseBrace])[0] == rest[0]);
                assert(rest[0] == t[q]);
            } else {
                let l0 = render_line(tail[0]);
                assert(render_lines(tail) + seq![Token::CloseBrace] =~= l0 + (render_lines(
                    tail.drop_first(),
                ) + seq![Token::CloseBrace]));
                lemma_prefix_concat(
                    l0,
                    render_lines(tail.drop_first()) + seq![Token::CloseBrace],
                    rest,
                );
                assert(l0[0] == rest[0]);
                assert(rest[0] == t[q]);
                if let LineView::Section { name, code, .. } = tail[0] {
                    assert(l0 == render_section(name, code));
                }
            }
        }
    }
}

impl TestCase {
    /// Reads `test_case("name") { lines }` at `pos`, giving each section the
    /// next index; returns the test case and the position after it.
    pub fn parse(tokens: &Vec<Token>, pos: usize) -> (r: Result<(TestCase, usize), Diagnostic>)
        requires
            pos <= tokens.len(),
        ensures
            r matches Ok((c, end)) ==> end <= tokens.len() && end == pos + render_case(c@).len()
                && prefix(render_case(c@), tokens@.skip(pos as int)) && indexed(c@.lines),
            r matches Err(d) ==> d@ == malformed_diag(d.location) && d.location <= tokens.len()
                && forall|cv: CaseView| !prefix(#[trigger] render_case(cv), tokens@.skip(pos as int)),
    {
        let ghost t = tokens@.skip(pos as int);
        let name = match parse_header(tokens, pos, false) {
            Ok(n) => n,
            Err(d) => {
                assert forall|cv: CaseView| !prefix(#[trigger] render_case(cv), t) by {
                    let head = render_header(Token::CaseKw, cv.name);
                    let body = render_lines(cv.lines) + seq![Token::CloseBrace];
                    assert(render_case(cv) =~= head + body);
                    lemma_prefix_concat(head, body, t);
                }
                return Err(d);
            },
        };
        let ghost head = render_header(Token::CaseKw, name);
        let ghost t5 = tokens@.skip(pos + 5);
        proof {
            assert(t.skip(5) =~= t5);
        }
        let mut code: Vec<Line> = Vec::new();
        let mut count: usize = 0;
        let mut q: usize = pos + 5;
        proof {
            assert(render_lines(line_views(code@)) =~= Seq::<Token>::empty());
        }
        while q < tokens.len()
            invariant
                pos + 5 <= q <= tokens.len(),
                t == tokens@.skip(pos as int),
                t5 == tokens@.skip(pos + 5),
                prefix(head, t),
                head == render_header(Token::CaseKw, name),
                prefix(render_lines(line_views(code@)), t5),
                q == pos + 5 + render_lines(line_views(code@)).len(),
                indexed(line_views(code@)),
                count == section_count(line_views(code@)),
                count <= q,
            decreases tokens.len() - q,
        {
            let ghost lv = line_views(code@);
            match &tokens[q] {
                Token::CloseBrace => {
                    let c = TestCase { name, code };
                    proof {
                        let rc = render_case(c@);
                        let rl = render_lines(lv);
                        assert(c@.lines == lv);
                        assert(rc =~= head + rl + seq![Token::CloseBrace]);
                        assert forall|i: int| 0 <= i < rc.len() implies rc[i] == #[trigger] t[i] by {
                            if i < 5 {
                                assert(rc[i] == head[i]);
                            } else if i < 5 + rl.len() {
                                assert(rc[i] == rl[i - 5]);
                                assert(rl[i - 5] == t5[i - 5]);
                            } else {
                                assert(t[i] == tokens@[q as int]);
                            }
                        }
                    }
                    return Ok((c, q + 1));
                },
                Token::Stmt(s) => {
                    let line = Line::Statement(s.clone());
                    proof {
                        lemma_render_lines_push(lv, line@);
                        assert(line_views(code@.push(line)) =~= lv.push(line@));
                        assert(t5[q - pos - 5] == tokens@[q as int]);
                        assert forall|i: int| 0 <= i < lv.len() + 1 && #[trigger] lv.push(line@)[i] is Section
                            implies lv.push(line@)[i]->index == section_count(lv.push(line@).subrange(0, i)) by {
                            assert(lv.push(line@).subrange(0, i) =~= lv.subrange(0, i));
                        }
                        assert(lv.push(line@).drop_last() =~= lv);
                    }
                    code.push(line);
                    q = q + 1;
                },
                Token::SectionKw => {
                    match Section::parse(tokens, q) {
                        Ok((section, end)) => {
                            let line = Line::Section(IndexSection::new(count, section));
                            proof {
                                let rs = render_line(line@);
                                lemma_render_lines_push(lv, line@);
                                assert(line_views(code@.push(line)) =~= lv.push(line@));
                                assert(tokens@.skip(q as int) =~= t5.skip(q - pos - 5));
                                assert forall|i: int| 0 <= i < render_lines(lv.push(line@)).len()
                                    implies render_lines(lv.push(line@))[i] == #[trigger] t5[i] by {
                                    if i >= render_lines(lv).len() {
                                        assert(rs[i - render_lines(lv).len()] == tokens@.skip(q as int)[i - render_lines(lv).len()]);
                                    }
                                }
                                assert forall|i: int| 0 <= i < lv.len() + 1 && #[trigger] lv.push(line@)[i] is Section
                                    implies lv.push(line@)[i]->index == section_count(lv.push(line@).subrange(0, i)) by {
                                    assert(lv.push(line@).subrange(0, i) =~= lv.subrange(0, i));
                                    if i == lv.len() {
                                        assert(lv.push(line@).subrange(0, i) =~= lv);
                                    }
                                }
                                assert(lv.push(line@).drop_last() =~= lv);
                            }
                            code.push(line);
                            count = count + 1;
                            q = end;
                        },
                        Err(d) => {
                            proof {
                                assert(tokens@.skip(q as int) =~= tokens@.skip(pos + 5 + render_lines(lv).len()));
                                lemma_case_stuck(tokens@, pos as int, lv);
                            }
                            return Err(d);
                        },
                    }
                },
                _ => {
                    proof {
                        lemma_case_stuck(tokens@, pos as int, lv);
                    }
                    return Err(malformed(q));
                },
            }
        }
        proof {
            lemma_case_stuck(tokens@, pos as int, line_views(code@));
        }
        Err(malformed(tokens.len()))
    }
}

impl TestSuite {
    /// Reads a whole suite of test cases; fails unless the tokens are exactly
    /// the writing of some suite.
    pub fn parse(tokens: &Vec<Token>) -> (r: Result<TestSuite, Diagnostic>)
        ensures
            r matches Ok(s) ==> render_suite(s@) == tokens@ && well_indexed(s@),
            r matches Err(d) ==> d@ == malformed_diag(d.location) && d.location <= tokens.len()
                && forall|cs: Seq<CaseView>| #[trigger] render_suite(cs) != tokens@,
    {
        let mut tests: Vec<TestCase> = Vec::new();
        let mut q: usize = 0;
        proof {
            assert(render_suite(case_views(tests@)) =~= Seq::<Token>::empty());
        }
        while q < tokens.len()
            invariant
                q <= tokens.len(),
                prefix(render_suite(case_views(tests@)), tokens@),
                q == render_suite(case_views(tests@)).len(),
                forall|i: int| 0 <= i < tests@.len() ==> indexed(#[trigger] case_views(tests@)[i].lines),
            decreases tokens.len() - q,
        {
            let ghost cv = case_views(tests@);
            match TestCase::parse(tokens, q) {
                Ok((c, end)) => {
                    proof {
                        lemma_render_suite_push(cv, c@);
                        assert(case_views(tests@.push(c)) =~= cv.push(c@));
                        assert forall|i: int| 0 <= i < render_suite(cv.push(c@)).len()
                            implies render_suite(cv.push(c@))[i] == #[trigger] tokens@[i] by {
                            if i >= q {
                                assert(render_case(c@)[i - q] == tokens@.skip(q as int)[i - q]);
                            }
                        }
                    }
                    tests.push(c);
                    q = end;
                },
                Err(d) => {
                    proof {
                        assert forall|cs: Seq<CaseView>| #[trigger] render_suite(cs) != tokens@ by {
                            if render_suite(cs) == tokens@ {
                                lemma_suite_sync(cv, cs, tokens@);
                                let k = choose|k: int|
                                    0 <= k <= cs.len() && tokens@.skip(q as int) == render_suite(
                                        #[trigger] cs.skip(k),
                                    );
                                let tail = cs.skip(k);
                                assert(tokens@.skip(q as int).len() > 0);
                                assert(tail.len() > 0);
                                lemma_prefix_concat(
                                    render_case(tail[0]),
                                    render_suite(tail.drop_first()),
                                    tokens@.skip(q as int),
                                );
                            }
                        }
                    }
                    return Err(d);
                },
            }
        }
        proof {
            assert(render_suite(case_views(tests@)) =~= tokens@);
        }
        Ok(TestSuite { tests })
    }
}

} // verus!
