use rust_catch::names::{name_as_ident2, ErrorKind, Name};
use rust_catch::section::{IndexSection, Section};
use rust_catch::test_case::{test_names_duplicated, Line, TestCase};
use rust_catch::test_suite::{check_duplicates, TestSuite};
use rust_catch::token::Token;
use rust_catch::unit::{Emitted, GeneratedUnit, Output};
use rust_catch::{test_suite, tests};

fn name(text: &str, location: usize) -> Name {
    Name { text: text.to_string(), location }
}

fn stmt(s: &str) -> Token {
    Token::Stmt(s.to_string())
}

fn header(kw: Token, text: &str, location: usize) -> Vec<Token> {
    vec![kw, Token::OpenParen, Token::Str(name(text, location)), Token::CloseParen, Token::OpenBrace]
}

fn case(text: &str, location: usize, body: Vec<Token>) -> Vec<Token> {
    let mut t = header(Token::CaseKw, text, location);
    t.extend(body);
    t.push(Token::CloseBrace);
    t
}

fn section(text: &str, location: usize, body: &[&str]) -> Vec<Token> {
    let mut t = header(Token::SectionKw, text, location);
    for s in body {
        t.push(stmt(s));
    }
    t.push(Token::CloseBrace);
    t
}

/// What a unit runs: its plain lines and the bodies its discriminant selects.
fn executed(u: &GeneratedUnit) -> Vec<String> {
    let mut out = Vec::new();
    for e in &u.code {
        match e {
            Emitted::Plain(s) => out.push(s.clone()),
            Emitted::Guarded { index, body } => {
                if u.selector == Some(*index) {
                    out.extend(body.iter().cloned());
                }
            }
        }
    }
    out
}

fn kinds(o: &Output) -> Vec<ErrorKind> {
    o.diagnostics.iter().map(|d| d.kind).collect()
}

fn plain_case(text: &str) -> TestCase {
    TestCase { name: name(text, 0), code: vec![] }
}

#[test]
fn get_error_with_duplicate_named_test_cases() {
    let tc1 = TestCase { name: name("Duplicated", 0), code: vec![] };
    let tc2 = TestCase { name: name("Duplicated", 0), code: vec![] };
    assert!(test_names_duplicated(&tc1, &tc2).is_err());
}

#[test]
fn get_no_error_with_distinctly_named_test_cases() {
    let tc1 = TestCase { name: name("test1", 0), code: vec![] };
    let tc2 = TestCase { name: name("test2", 0), code: vec![] };
    assert!(test_names_duplicated(&tc1, &tc2).is_ok());
}

#[test]
fn duplicate_message_names_the_value() {
    let d = test_names_duplicated(&plain_case("dup"), &plain_case("dup")).unwrap_err();
    assert_eq!(d.kind, ErrorKind::DuplicateName);
    assert_eq!(d.message, "name `dup` is a duplicate");
}

#[test]
fn sectioned_case_expands_one_unit_per_section() {
    let mut body = vec![stmt("stmt1;")];
    body.extend(section("s1", 9, &["stmt2;"]));
    body.extend(section("s2", 15, &["stmt3;"]));
    let out = tests(&case("A", 2, body));
    assert!(out.diagnostics.is_empty());
    assert_eq!(out.units.len(), 2);
    let u0 = &out.units[0];
    let u1 = &out.units[1];
    assert_eq!(u0.namespace.as_deref(), Some("A"));
    assert_eq!(u0.name, "s1");
    assert_eq!(u0.selector, Some(0));
    assert_eq!(executed(u0), vec!["stmt1;", "stmt2;"]);
    assert_eq!(u1.namespace.as_deref(), Some("A"));
    assert_eq!(u1.name, "s2");
    assert_eq!(u1.selector, Some(1));
    assert_eq!(executed(u1), vec!["stmt1;", "stmt3;"]);
    // both units hold all three lines; the sibling section is guarded out
    assert_eq!(u0.code.len(), 3);
    assert!(matches!(&u0.code[2], Emitted::Guarded { index: 1, .. }));
}

#[test]
fn duplicate_cases_give_one_diagnostic_and_no_unit() {
    let mut t = case("dup", 2, vec![]);
    t.extend(case("dup", 8, vec![]));
    let out = tests(&t);
    assert!(out.units.is_empty());
    assert_eq!(kinds(&out), vec![ErrorKind::DuplicateName]);
    assert_eq!(out.diagnostics[0].location, 2);
}

#[test]
fn empty_case_name_gives_one_diagnostic_and_no_unit() {
    let out = tests(&case("", 2, vec![stmt("stmt;")]));
    assert!(out.units.is_empty());
    assert_eq!(kinds(&out), vec![ErrorKind::EmptyName]);
    assert_eq!(out.diagnostics[0].location, 2);
    assert!(out.diagnostics[0].message.starts_with("test case names cannot be empty."));
}

#[test]
fn no_section_unit_runs_statements_in_order() {
    let out = tests(&case("add works", 2, vec![stmt("a;"), stmt("b;"), stmt("c;")]));
    assert_eq!(out.units.len(), 1);
    let u = &out.units[0];
    assert_eq!(u.namespace, None);
    assert_eq!(u.selector, None);
    assert_eq!(u.name, "add_works");
    assert_eq!(executed(u), vec!["a;", "b;", "c;"]);
}

#[test]
fn section_indices_ignore_statements() {
    let mut body = vec![stmt("x;")];
    body.extend(section("one", 0, &[]));
    body.push(stmt("y;"));
    body.push(stmt("z;"));
    body.extend(section("two", 0, &["b;"]));
    body.extend(section("three", 0, &["c;"]));
    let out = tests(&case("c", 0, body));
    let selectors: Vec<Option<usize>> = out.units.iter().map(|u| u.selector).collect();
    assert_eq!(selectors, vec![Some(0), Some(1), Some(2)]);
}

#[test]
fn parse_assigns_contiguous_indices() {
    let mut body = vec![stmt("x;")];
    body.extend(section("one", 0, &[]));
    body.push(stmt("y;"));
    body.extend(section("two", 0, &[]));
    let suite = TestSuite::parse(&case("c", 0, body)).ok().unwrap();
    let indices: Vec<usize> = suite.tests[0]
        .code
        .iter()
        .filter_map(|l| match l {
            Line::Section(s) => Some(s.index()),
            Line::Statement(_) => None,
        })
        .collect();
    assert_eq!(indices, vec![0, 1]);
}

#[test]
fn shared_statements_run_in_every_unit() {
    let mut body = vec![stmt("let mut a = 4;")];
    body.extend(section("modifies a", 0, &["a += 2;"]));
    body.extend(section("keeps a", 0, &["check(a);"]));
    body.push(stmt("done();"));
    let out = tests(&case("shared", 0, body));
    assert_eq!(out.units.len(), 2);
    assert_eq!(executed(&out.units[0]), vec!["let mut a = 4;", "a += 2;", "done();"]);
    assert_eq!(executed(&out.units[1]), vec!["let mut a = 4;", "check(a);", "done();"]);
    for u in &out.units {
        assert!(matches!(&u.code[0], Emitted::Plain(s) if s == "let mut a = 4;"));
        assert!(matches!(&u.code[3], Emitted::Plain(s) if s == "done();"));
    }
}

#[test]
fn same_section_name_in_two_cases_does_not_collide() {
    let mut t = case("first", 0, section("X", 0, &[]));
    t.extend(case("second", 0, section("X", 0, &[])));
    let out = tests(&t);
    assert_eq!(out.units.len(), 2);
    assert_eq!(out.units[0].name, out.units[1].name);
    assert_ne!(out.units[0].namespace, out.units[1].namespace);
}

#[test]
fn empty_section_name_drops_only_that_unit() {
    let mut body = section("", 7, &["a;"]);
    body.extend(section("kept", 13, &["b;"]));
    let out = tests(&case("c", 2, body));
    assert_eq!(out.units.len(), 1);
    assert_eq!(out.units[0].name, "kept");
    assert_eq!(out.units[0].selector, Some(1));
    assert_eq!(kinds(&out), vec![ErrorKind::EmptyName]);
    assert_eq!(out.diagnostics[0].location, 7);
    assert!(out.diagnostics[0].message.starts_with("section names cannot be empty."));
}

#[test]
fn duplicates_suppress_well_formed_cases() {
    let mut t = case("foo", 0, vec![stmt("a;")]);
    t.extend(case("bar", 0, vec![stmt("b;")]));
    t.extend(case("foo", 0, vec![stmt("c;")]));
    let out = tests(&t);
    assert!(out.units.is_empty());
    assert_eq!(kinds(&out), vec![ErrorKind::DuplicateName]);
}

#[test]
fn three_equal_names_give_three_diagnostics() {
    let cases = vec![plain_case("k"), plain_case("k"), plain_case("k")];
    assert_eq!(check_duplicates(&cases).len(), 3);
    let distinct = vec![plain_case("k"), plain_case("K"), plain_case("k ")];
    assert!(check_duplicates(&distinct).is_empty());
}

#[test]
fn malformed_input_gives_one_diagnostic() {
    let t = vec![Token::CaseKw, Token::OpenParen, stmt("x;")];
    let out = tests(&t);
    assert!(out.units.is_empty());
    assert_eq!(kinds(&out), vec![ErrorKind::MalformedSpec]);
    assert_eq!(out.diagnostics[0].location, 2);
    // an unclosed case body
    let mut t = header(Token::CaseKw, "open", 2);
    t.push(stmt("a;"));
    assert_eq!(kinds(&tests(&t)), vec![ErrorKind::MalformedSpec]);
    // a section inside a section is not part of the grammar
    let mut body = header(Token::SectionKw, "outer", 0);
    body.extend(section("inner", 0, &[]));
    body.push(Token::CloseBrace);
    assert_eq!(kinds(&tests(&case("c", 0, body))), vec![ErrorKind::MalformedSpec]);
}

#[test]
fn empty_suite_gives_nothing() {
    let out = tests(&vec![]);
    assert!(out.units.is_empty());
    assert!(out.diagnostics.is_empty());
}

#[test]
fn deprecated_entry_point_agrees() {
    let out = test_suite(&case("a b", 0, vec![stmt("s;")]));
    assert_eq!(out.units.len(), 1);
    assert_eq!(out.units[0].name, "a_b");
}

#[test]
fn sanitizer_replaces_spaces_and_rejects_blank_names() {
    assert_eq!(name_as_ident2("test case", &name("Vec can be resized", 0)).ok().unwrap(), "Vec_can_be_resized");
    assert_eq!(name_as_ident2("test case", &name(" x  y ", 0)).ok().unwrap(), "_x__y_");
    let d = name_as_ident2("test case", &name(" \t\n", 4)).unwrap_err();
    assert_eq!(d.kind, ErrorKind::EmptyName);
    assert_eq!(d.location, 4);
    assert_eq!(
        d.message,
        "test case names cannot be empty. \n\n Hint: Try to use a descriptive name such as \"Vec can be resized\".\n"
    );
    assert!(name_as_ident2("section", &name("", 0)).is_err());
}

#[test]
fn expand_single_case_directly() {
    let sec = IndexSection::new(0, Section { name: name("only", 0), code: vec!["b;".to_string()] });
    let c = TestCase::new(name("direct case", 0), vec![Line::Statement("a;".to_string()), Line::Section(sec)]);
    let out = c.expand();
    assert_eq!(out.units.len(), 1);
    assert_eq!(out.units[0].namespace.as_deref(), Some("direct_case"));
    assert_eq!(executed(&out.units[0]), vec!["a;", "b;"]);
}

#[test]
fn add_works_with_positive_and_negative_numbers() {
    assert_eq!(rust_catch::add(1, 2), 3);
    assert_eq!(rust_catch::add(5, -1), 4);
}

#[test]
fn unicode_white_space_counts_as_blank() {
    assert!(name_as_ident2("section", &name("\u{3000}\u{a0}\u{2009}", 0)).is_err());
    assert_eq!(name_as_ident2("section", &name("a\u{a0}b", 0)).ok().unwrap(), "a\u{a0}b");
}

#[test]
fn parse_then_render_reads_back_every_line() {
    let mut body = vec![stmt("a;")];
    body.extend(section("s", 7, &["b;", "c;"]));
    let tokens = case("t", 2, body);
    let suite = TestSuite::parse(&tokens).ok().unwrap();
    assert_eq!(suite.tests.len(), 1);
    let c = &suite.tests[0];
    assert_eq!(c.name.text, "t");
    assert_eq!(c.name.location, 2);
    assert_eq!(c.code.len(), 2);
    assert!(matches!(&c.code[0], Line::Statement(s) if s == "a;"));
    match &c.code[1] {
        Line::Section(s) => {
            assert_eq!(s.index(), 0);
            assert_eq!(s.section.name.text, "s");
            assert_eq!(s.section.code, vec!["b;".to_string(), "c;".to_string()]);
        }
        Line::Statement(_) => panic!("expected a section"),
    }
}
