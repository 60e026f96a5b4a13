//! The token stream handed over by the lexical front end, and the tokens
//! that a test case or a suite is written as.
use vstd::prelude::*;
use crate::names::Name;
use crate::test_case::{LineView, CaseView};

verus! {

/// A token of the front end: a keyword (`test_case` and `test` both give
/// `CaseKw`), a delimiter, a string literal, or an opaque statement span.
pub enum Token {
    CaseKw,
    SectionKw,
    OpenParen,
    CloseParen,
    OpenBrace,
    CloseBrace,
    Str(Name),
    Stmt(String),
}

/// `a` is a prefix of `t`.
pub open spec fn prefix(a: Seq<Token>, t: Seq<Token>) -> bool {
    a.len() <= t.len() && forall|i: int| 0 <= i < a.len() ==> a[i] == #[trigger] t[i]
}

/// `kw("name") {`
pub open spec fn render_header(kw: Token, name: Name) -> Seq<Token> {
    seq![kw, Token::OpenParen, Token::Str(name), Token::CloseParen, Token::OpenBrace]
}

pub open spec fn render_stmts(code: Seq<String>) -> Seq<Token> {
    code.map_values(|s: String| Token::Stmt(s))
}

/// `section("name") { statements }`
pub open spec fn render_section(name: Name, code: Seq<String>) -> Seq<Token> {
    render_header(Token::SectionKw, name) + render_stmts(code) + seq![Token::CloseBrace]
}

pub open spec fn render_line(l: LineView) -> Seq<Token> {
    match l {
        LineView::Statement(s) => seq![Token::Stmt(s)],
        LineView::Section { name, code, .. } => render_section(name, code),
    }
}

pub open spec fn render_lines(ls: Seq<LineView>) -> Seq<Token>
    decreases ls.len(),
{
    if ls.len() == 0 {
        seq![]
    } else {
        render_line(ls[0]) + render_lines(ls.drop_first())
    }
}

/// `test_case("name") { lines }`
pub open spec fn render_case(c: CaseView) -> Seq<Token> {
    render_header(Token::CaseKw, c.name) + render_lines(c.lines) + seq![Token::CloseBrace]
}

/// The tokens that a suite of test cases is written as.
pub open spec fn render_suite(cs: Seq<CaseView>) -> Seq<Token>
    decreases cs.len(),
{
    if cs.len() == 0 {
        seq![]
    } else {
        render_case(cs[0]) + render_suite(cs.drop_first())
    }
}

pub proof fn lemma_prefix_concat(a: Seq<Token>, b: Seq<Token>, t: Seq<Token>)
    ensures
        prefix(a + b, t) <==> (prefix(a, t) && prefix(b, t.skip(a.len() as int))),
{
    if prefix(a + b, t) {
        assert forall|i: int| 0 <= i < a.len() implies a[i] == #[trigger] t[i] by {
            assert((a + b)[i] == a[i]);
        }
        assert forall|i: int| 0 <= i < b.len() implies b[i] == #[trigger] t.skip(
            a.len() as int,
        )[i] by {
            assert((a + b)[a.len() + i] == b[i]);
            assert(t[a.len() + i] == (a + b)[a.len() + i]);
        }
    }
    if prefix(a, t) && prefix(b, t.skip(a.len() as int)) {
        assert forall|i: int| 0 <= i < (a + b).len() implies (a + b)[i] == #[trigger] t[i] by {
            if i >= a.len() {
                assert(t.skip(a.len() as int)[i - a.len()] == t[i]);
            }
        }
    }
}

pub proof fn lemma_render_lines_push(ls: Seq<LineView>, l: LineView)
    ensures
        render_lines(ls.push(l)) == render_lines(ls) + render_line(l),
    decreases ls.len(),
{
    if ls.len() == 0 {
        assert(ls.push(l).drop_first() =~= Seq::<LineView>::empty());
        assert(render_lines(ls.push(l).drop_first()) == Seq::<Token>::empty());
        assert(ls.push(l)[0] == l);
        assert(render_lines(ls.push(l)) =~= render_lines(ls) + render_line(l));
    } else {
        assert(ls.push(l).drop_first() =~= ls.drop_first().push(l));
        lemma_render_lines_push(ls.drop_first(), l);
        assert(render_lines(ls.push(l)) =~= render_lines(ls) + render_line(l));
    }
}

pub proof fn lemma_render_suite_push(cs: Seq<CaseView>, c: CaseView)
    ensures
        render_suite(cs.push(c)) == render_suite(cs) + render_case(c),
    decreases cs.len(),
{
    if cs.len() == 0 {
        assert(cs.push(c).drop_first() =~= Seq::<CaseView>::empty());
        assert(render_suite(cs.push(c).drop_first()) == Seq::<Token>::empty());
        assert(cs.push(c)[0] == c);
        assert(render_suite(cs.push(c)) =~= render_suite(cs) + render_case(c));
    } else {
        assert(cs.push(c).drop_first() =~= cs.drop_first().push(c));
        lemma_render_suite_push(cs.drop_first(), c);
        assert(render_suite(cs.push(c)) =~= render_suite(cs) + render_case(c));
    }
}

/// A line starts with a statement or the section keyword.
pub proof fn lemma_line_start(l: LineView)
    ensures
        render_line(l).len() >= 1,
        render_line(l)[0] is Stmt || render_line(l)[0] is SectionKw,
{
}

/// Two sections that both begin `t` are written with the same number of tokens.
pub proof fn lemma_section_prefix_free(
    n1: Name,
    c1: Seq<String>,
    n2: Name,
    c2: Seq<String>,
    t: Seq<Token>,
)
    requires
        prefix(render_section(n1, c1), t),
        prefix(render_section(n2, c2), t),
    ensures
        c1.len() == c2.len(),
{
    let r1 = render_section(n1, c1);
    let r2 = render_section(n2, c2);
    if c1.len() < c2.len() {
        assert(r1[5 + c1.len() as int] == t[5 + c1.len() as int]);
        assert(r2[5 + c1.len() as int] == t[5 + c1.len() as int]);
    } else if c2.len() < c1.len() {
        assert(r1[5 + c2.len() as int] == t[5 + c2.len() as int]);
        assert(r2[5 + c2.len() as int] == t[5 + c2.len() as int]);
    }
}

/// Two lines that both begin `t` are written with the same number of tokens.
pub proof fn lemma_line_prefix_free(a: LineView, b: LineView, t: Seq<Token>)
    requires
        prefix(render_line(a), t),
        prefix(render_line(b), t),
    ensures
        render_line(a).len() == render_line(b).len(),
{
    assert(render_line(a)[0] == t[0]);
    assert(render_line(b)[0] == t[0]);
    if let LineView::Section { name: n1, code: c1, .. } = a {
        if let LineView::Section { name: n2, code: c2, .. } = b {
            lemma_section_prefix_free(n1, c1, n2, c2, t);
        }
    }
}

/// Where the lines `p` begin `t` and the lines `l` followed by a closing
/// brace begin `t` too, `p` ends where some first `k` of the lines `l` end.
pub proof fn lemma_lines_sync(p: Seq<LineView>, l: Seq<LineView>, t: Seq<Token>)
    requires
        prefix(render_lines(p), t),
        prefix(render_lines(l) + seq![Token::CloseBrace], t),
    ensures
        exists|k: int|
            0 <= k <= l.len() && render_lines(p).len() == render_lines(l.take(k)).len() && prefix(
                render_lines(#[trigger] l.skip(k)) + seq![Token::CloseBrace],
                t.skip(render_lines(p).len() as int),
            ),
    decreases p.len(),
{
    if p.len() == 0 {
        assert(l.skip(0) =~= l);
        assert(t.skip(0) =~= t);
        assert(l.take(0) =~= seq![]);
    } else {
        let p0 = render_line(p[0]);
        lemma_prefix_concat(p0, render_lines(p.drop_first()), t);
        lemma_line_start(p[0]);
        assert(p0[0] == t[0]);
        if l.len() == 0 {
            assert((render_lines(l) + seq![Token::CloseBrace])[0] == t[0]);
            assert(false);
        }
        let l0 = render_line(l[0]);
        assert(render_lines(l) + seq![Token::CloseBrace] =~= l0 + (render_lines(l.drop_first())
            + seq![Token::CloseBrace]));
        lemma_prefix_concat(l0, render_lines(l.drop_first()) + seq![Token::CloseBrace], t);
        lemma_line_prefix_free(p[0], l[0], t);
        let t1 = t.skip(p0.len() as int);
        lemma_lines_sync(p.drop_first(), l.drop_first(), t1);
        let k1 = choose|k: int|
            0 <= k <= l.drop_first().len() && render_lines(p.drop_first()).len() == render_lines(
                l.drop_first().take(k),
            ).len() && prefix(
                render_lines(#[trigger] l.drop_first().skip(k)) + seq![Token::CloseBrace],
                t1.skip(render_lines(p.drop_first()).len() as int),
            );
        assert(l.drop_first().skip(k1) =~= l.skip(k1 + 1));
        assert(t1.skip(render_lines(p.drop_first()).len() as int) =~= t.skip(
            render_lines(p).len() as int,
        ));
        assert(l.take(k1 + 1).drop_first() =~= l.drop_first().take(k1));
        assert(l.take(k1 + 1)[0] == l[0]);
        assert(render_lines(l.take(k1 + 1)) == l0 + render_lines(l.drop_first().take(k1)));
        assert(render_lines(p).len() == render_lines(l.take(k1 + 1)).len());
        assert(prefix(
            render_lines(l.skip(k1 + 1)) + seq![Token::CloseBrace],
            t.skip(render_lines(p).len() as int),
        ));
    }
}

/// Two test cases that both begin `t` are written with the same number of
/// tokens.
pub proof fn lemma_case_prefix_free(a: CaseView, b: CaseView, t: Seq<Token>)
    requires
        prefix(render_case(a), t),
        prefix(render_case(b), t),
    ensures
        render_case(a).len() == render_case(b).len(),
{
    let ha = render_header(Token::CaseKw, a.name);
    let hb = render_header(Token::CaseKw, b.name);
    let ra = render_lines(a.lines);
    let rb = render_lines(b.lines);
    let cb = seq![Token::CloseBrace];
    assert(render_case(a) =~= ha + (ra + cb));
    assert(render_case(b) =~= hb + (rb + cb));
    lemma_prefix_concat(ha, ra + cb, t);
    lemma_prefix_concat(hb, rb + cb, t);
    let t5 = t.skip(5);
    lemma_prefix_concat(ra, cb, t5);
    lemma_lines_sync(a.lines, b.lines, t5);
    let k = choose|k: int|
        0 <= k <= b.lines.len() && ra.len() == render_lines(b.lines.take(k)).len() && prefix(
            render_lines(#[trigger] b.lines.skip(k)) + cb,
            t5.skip(ra.len() as int),
        );
    if k < b.lines.len() {
        lemma_line_start(b.lines.skip(k)[0]);
        assert(b.lines.skip(k).len() > 0);
        assert((render_lines(b.lines.skip(k)) + cb)[0] == t5.skip(ra.len() as int)[0]);
        assert(cb[0] == t5.skip(ra.len() as int)[0]);
        assert(false);
    }
    assert(b.lines.take(k) =~= b.lines);
}

/// Where the suite `p` begins the tokens of the suite `s`, what follows it
/// is the tokens of the cases of `s` from some `k` on.
pub proof fn lemma_suite_sync(p: Seq<CaseView>, s: Seq<CaseView>, t: Seq<Token>)
    requires
        prefix(render_suite(p), t),
        t == render_suite(s),
    ensures
        exists|k: int|
            0 <= k <= s.len() && t.skip(render_suite(p).len() as int) == render_suite(
                #[trigger] s.skip(k),
            ),
    decreases p.len(),
{
    if p.len() == 0 {
        assert(s.skip(0) =~= s);
        assert(t.skip(0) =~= t);
    } else {
        let c0 = render_case(p[0]);
        lemma_prefix_concat(c0, render_suite(p.drop_first()), t);
        assert(c0[0] == t[0]);
        if s.len() == 0 {
            assert(false);
        }
        let s0 = render_case(s[0]);
        lemma_prefix_concat(s0, render_suite(s.drop_first()), t);
        assert(prefix(s0 + render_suite(s.drop_first()), t));
        lemma_case_prefix_free(p[0], s[0], t);
        let t1 = t.skip(c0.len() as int);
        assert(t1 =~= render_suite(s.drop_first()));
        lemma_suite_sync(p.drop_first(), s.drop_first(), t1);
        let k1 = choose|k: int|
            0 <= k <= s.drop_first().len() && t1.skip(render_suite(p.drop_first()).len() as int)
                == render_suite(#[trigger] s.drop_first().skip(k));
        assert(s.drop_first().skip(k1) =~= s.skip(k1 + 1));
        assert(t1.skip(render_suite(p.drop_first()).len() as int) =~= t.skip(
            render_suite(p).len() as int,
        ));
    }
}

/// Where each token of a section stands.
pub proof fn lemma_section_tokens(nm: Name, c: Seq<String>)
    ensures
        render_section(nm, c).len() == c.len() + 6,
        render_section(nm, c)[0] == Token::SectionKw,
        render_section(nm, c)[c.len() + 5int] == Token::CloseBrace,
        forall|k: int| 0 <= k < c.len() ==> #[trigger] render_section(nm, c)[k + 5] == Token::Stmt(c[k]),
{
    let r = render_section(nm, c);
    assert forall|k: int| 0 <= k < c.len() implies #[trigger] r[k + 5] == Token::Stmt(c[k]) by {
        assert(r[k + 5] == render_stmts(c)[k]);
    }
}

} // verus!
