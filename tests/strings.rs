use nickel_parser_utils::position::TermPos;
use nickel_parser_utils::strings::{min_indent, strip_indent, StringEndDelimiter, StringStartDelimiter};
use nickel_parser_utils::term::{LocIdent, RichTerm, StrChunk, Term};

fn lit(s: &str) -> StrChunk {
    StrChunk::Literal(s.to_string())
}

fn expr(name: &str) -> StrChunk {
    StrChunk::Expr(RichTerm::new(Term::Var(LocIdent::new_with_pos(name.to_string(), TermPos::NoPos)), TermPos::NoPos), 0)
}

fn describe(chunks: &[StrChunk]) -> Vec<String> {
    chunks
        .iter()
        .map(|c| match c {
            StrChunk::Literal(s) => format!("lit:{}", s),
            StrChunk::Expr(t, n) => match &*t.term {
                Term::Var(id) => format!("expr:{}:{}", id.label, n),
                _ => format!("expr:?:{}", n),
            },
        })
        .collect()
}

#[test]
fn min_indent_ignores_blank_lines() {
    let chunks = vec![lit("\n  a\n    b\n   \nc\n")];
    assert_eq!(min_indent(&chunks), 0);
    let stripped = strip_indent(chunks);
    assert_eq!(describe(&stripped), vec!["lit:  a\n    b\n   \nc"]);
}

#[test]
fn min_indent_counts_expressions_and_tabs() {
    assert_eq!(min_indent(&[lit("\n    a\n  "), expr("x"), lit("\n")]), 2);
    assert_eq!(min_indent(&[lit("\t\tb")]), 2);
    assert_eq!(min_indent(&[lit("   \n  ")]), usize::MAX);
    assert_eq!(min_indent(&[]), usize::MAX);
}

#[test]
fn strip_indent_removes_common_prefix() {
    let stripped = strip_indent(vec![lit("\n    foo\n      bar\n    baz\n  ")]);
    assert_eq!(describe(&stripped), vec!["lit:foo\n  bar\nbaz"]);
}

#[test]
fn expression_sharing_its_line_loses_indentation() {
    let chunks = vec![lit("\n    "), expr("x"), lit(" rest\n    "), expr("y"), lit("\n  z\n")];
    assert_eq!(min_indent(&chunks), 2);
    let stripped = strip_indent(chunks);
    assert_eq!(describe(&stripped), vec!["lit:  ", "expr:x:0", "lit: rest\n  ", "expr:y:2", "lit:\nz"]);
}

#[test]
fn second_expression_on_line_resets_the_first() {
    let chunks = vec![lit("\n  a\n    "), expr("x"), lit(" "), expr("y"), lit("\n    "), expr("z"), lit("\n")];
    let stripped = strip_indent(chunks);
    assert_eq!(
        describe(&stripped),
        vec!["lit:a\n  ", "expr:x:0", "lit: ", "expr:y:0", "lit:\n  ", "expr:z:2", "lit:"]
    );
}

#[test]
fn strip_empty_and_single_line() {
    assert!(strip_indent(Vec::new()).is_empty());
    assert_eq!(describe(&strip_indent(vec![lit("abc def")])), vec!["lit:abc def"]);
    assert_eq!(describe(&strip_indent(vec![expr("x"), lit(" abc")])), vec!["expr:x:0", "lit: abc"]);
    assert_eq!(describe(&strip_indent(vec![lit("a "), expr("x")])), vec!["lit:a ", "expr:x:0"]);
}

#[test]
fn delimiters() {
    assert!(StringStartDelimiter::Standard.is_closed_by(&StringEndDelimiter::Standard));
    assert!(!StringStartDelimiter::Standard.is_closed_by(&StringEndDelimiter::Special));
    assert!(StringStartDelimiter::Multiline.is_closed_by(&StringEndDelimiter::Special));
    assert!(!StringStartDelimiter::Multiline.is_closed_by(&StringEndDelimiter::Standard));
    assert!(StringStartDelimiter::Symbolic("cpp").is_closed_by(&StringEndDelimiter::Special));
    assert!(!StringStartDelimiter::Standard.needs_strip_indent());
    assert!(StringStartDelimiter::Multiline.needs_strip_indent());
    assert!(StringStartDelimiter::Symbolic("cpp").needs_strip_indent());
}
