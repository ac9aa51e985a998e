use codespan::Files;
use malachite::Rational;
use nickel_parser_utils::position::{mk_pos, mk_span, RawSpan, TermPos};
use nickel_parser_utils::term::{
    BinaryOp, FieldPattern, LocIdent, MergeKind, RecordPattern, RichTerm, Term, Type, UnaryOp,
};
use nickel_parser_utils::utils::{
    mk_fun, mk_label, mk_let, mk_merge_label, parse_number, InfixOp, ParseError, ParseNumberError,
};

fn var(name: &str) -> RichTerm {
    RichTerm::new(Term::Var(LocIdent::new_with_pos(name.to_string(), TermPos::NoPos)), TermPos::NoPos)
}

fn is_var(t: &RichTerm, name: &str) -> bool {
    matches!(&*t.term, Term::Var(id) if id.label == name)
}

#[test]
fn numbers_parse_exactly() {
    assert_eq!(parse_number("1.5e3").ok(), Some(Rational::from(1500u32)));
    assert_eq!(parse_number("0.25").ok(), Some(Rational::from_signeds(1i32, 4i32)));
    assert_eq!(parse_number("42").ok(), Some(Rational::from(42u32)));
    assert_eq!(parse_number("abc").err(), Some(ParseNumberError));
}

#[test]
fn recursive_pattern_let_is_refused() {
    let mut files: Files<String> = Files::new();
    let f = files.add("t", "let rec {a} = 1 in a".to_string());
    let s = RawSpan { src_id: f, start: 0, end: 20 };
    let pat = || FieldPattern::RecordPattern(RecordPattern { matches: Vec::new(), open: false });
    match mk_let(true, pat(), var("a"), var("b"), s) {
        Err(ParseError::RecursiveLetPattern(sp)) => assert_eq!(sp, s),
        other => panic!("unexpected {:?}", other),
    }
    let ok = mk_let(false, pat(), var("a"), var("b"), s).unwrap();
    assert!(matches!(*ok.term, Term::LetPattern(None, _, _, _)));
    let id = FieldPattern::Ident(LocIdent::new_with_pos("x".to_string(), TermPos::NoPos));
    let rec = mk_let(true, id, var("a"), var("b"), s).unwrap();
    assert!(matches!(*rec.term, Term::Let(_, _, _, true)));
    let aliased = FieldPattern::AliasedRecordPattern {
        alias: LocIdent::new_with_pos("al".to_string(), TermPos::NoPos),
        pattern: RecordPattern { matches: Vec::new(), open: true },
    };
    let t = mk_let(false, aliased, var("a"), var("b"), s).unwrap();
    assert!(matches!(*t.term, Term::LetPattern(Some(ref al), _, _, _) if al.label == "al"));
}

#[test]
fn functions_from_patterns() {
    let id = FieldPattern::Ident(LocIdent::new_with_pos("x".to_string(), TermPos::NoPos));
    assert!(matches!(mk_fun(id, var("x")), Term::Fun(ref i, _) if i.label == "x"));
    let pat = FieldPattern::RecordPattern(RecordPattern { matches: Vec::new(), open: false });
    assert!(matches!(mk_fun(pat, var("x")), Term::FunPattern(None, _, _)));
}

#[test]
fn spans_and_labels_from_offsets() {
    let mut files: Files<String> = Files::new();
    let f = files.add("t", "0123456789".to_string());
    assert_eq!(mk_span(f, 2, 5), RawSpan { src_id: f, start: 2, end: 5 });
    assert_eq!(mk_pos(f, 2, 5), TermPos::Original(RawSpan { src_id: f, start: 2, end: 5 }));
    let label = mk_label(Type::Number, f, 1, 3);
    assert_eq!(label.span, Some(RawSpan { src_id: f, start: 1, end: 3 }));
    assert_eq!(label.typ, Type::Number);
    let ml = mk_merge_label(f, 4, 6);
    assert_eq!(ml.kind, MergeKind::Standard);
    assert_eq!(ml.span, TermPos::Original(RawSpan { src_id: f, start: 4, end: 6 }));
}

#[test]
fn binary_operator_expands_to_two_argument_function() {
    let mut files: Files<String> = Files::new();
    let f = files.add("t", "(+)".to_string());
    let s = RawSpan { src_id: f, start: 0, end: 3 };
    let t = InfixOp::from(BinaryOp::Plus).eta_expand(TermPos::Original(s));
    let Term::Fun(ref x1, ref b1) = *t.term else { panic!("not a function") };
    assert_eq!(x1.label, "x1");
    let Term::Fun(ref x2, ref b2) = *b1.term else { panic!("not a function") };
    assert_eq!(x2.label, "x2");
    assert_eq!(b2.pos, TermPos::Inherited(s));
    match *b2.term {
        Term::Op2(BinaryOp::Plus, ref a, ref b) => assert!(is_var(a, "x1") && is_var(b, "x2")),
        ref other => panic!("unexpected {:?}", other),
    }
}

#[test]
fn unary_operators_expand() {
    let t = InfixOp::from(UnaryOp::BoolNot).eta_expand(TermPos::NoPos);
    let Term::Fun(ref x, ref b) = *t.term else { panic!("not a function") };
    assert_eq!(x.label, "x");
    assert!(matches!(*b.term, Term::Op1(UnaryOp::BoolNot, ref a) if is_var(a, "x")));

    let t = InfixOp::from(UnaryOp::BoolAnd).eta_expand(TermPos::NoPos);
    let Term::Fun(_, ref b1) = *t.term else { panic!("not a function") };
    let Term::Fun(_, ref b2) = *b1.term else { panic!("not a function") };
    match *b2.term {
        Term::App(ref f, ref a) => {
            assert!(is_var(a, "x2"));
            assert!(matches!(*f.term, Term::Op1(UnaryOp::BoolAnd, ref x) if is_var(x, "x1")));
        }
        ref other => panic!("unexpected {:?}", other),
    }
}
