use codespan::{FileId, Files};
use malachite::Rational;
use nickel_parser_utils::position::{RawSpan, TermPos};
use nickel_parser_utils::records::{build_record, merge_fields, mk_access, FieldDef, FieldPathElem};
use nickel_parser_utils::term::{
    BinaryOp, Field, FieldMetadata, LocIdent, MergeKind, RecordAttrs, RichTerm, StrChunk, Term,
    UnaryOp,
};

fn file() -> FileId {
    let mut files: Files<String> = Files::new();
    files.add("test.ncl", "x".repeat(100))
}

fn span(f: FileId, start: u32, end: u32) -> RawSpan {
    RawSpan { src_id: f, start, end }
}

fn ident(name: &str, pos: TermPos) -> FieldPathElem {
    FieldPathElem::Ident(LocIdent::new_with_pos(name.to_string(), pos))
}

fn quoted(chunks: Vec<StrChunk>, pos: TermPos) -> FieldPathElem {
    FieldPathElem::Expr(RichTerm::new(Term::StrChunks(chunks), pos))
}

fn num(n: u32) -> RichTerm {
    RichTerm::new(Term::Num(Rational::from(n)), TermPos::NoPos)
}

fn static_child<'a>(t: &'a Term, name: &str) -> &'a Field {
    match t {
        Term::Record(d) => {
            assert_eq!(d.fields.len(), 1);
            let (k, f) = d.fields.entry_at(0).unwrap();
            assert_eq!(k, name);
            f
        }
        other => panic!("not a record: {:?}", other),
    }
}

#[test]
fn elaborate_nests_one_record_per_element() {
    let f = file();
    let def = FieldDef {
        path: vec![
            ident("a", TermPos::Original(span(f, 0, 1))),
            ident("b", TermPos::Original(span(f, 2, 3))),
            ident("c", TermPos::Original(span(f, 4, 5))),
        ],
        field: Field::from_value(RichTerm::new(Term::Bool(true), TermPos::Original(span(f, 8, 12)))),
        pos: TermPos::Original(span(f, 0, 12)),
    };
    let (fst, field) = def.elaborate();
    assert!(matches!(fst, FieldPathElem::Ident(ref id) if id.label == "a"));
    let outer = field.value.unwrap();
    assert_eq!(outer.pos, TermPos::Original(span(f, 2, 12)));
    let b = static_child(&outer.term, "b");
    let inner = b.value.as_ref().unwrap();
    assert_eq!(inner.pos, TermPos::Original(span(f, 4, 12)));
    let c = static_child(&inner.term, "c");
    assert!(matches!(*c.value.as_ref().unwrap().term, Term::Bool(true)));
}

#[test]
fn elaborate_single_element_keeps_field() {
    let def = FieldDef {
        path: vec![ident("a", TermPos::NoPos)],
        field: Field::from_value(num(3)),
        pos: TermPos::NoPos,
    };
    let (fst, field) = def.elaborate();
    assert!(matches!(fst, FieldPathElem::Ident(ref id) if id.label == "a"));
    match *field.value.unwrap().term {
        Term::Num(ref q) => assert_eq!(q, &Rational::from(3u32)),
        ref other => panic!("unexpected {:?}", other),
    }
}

#[test]
fn elaborate_dynamic_and_quoted_static_segments() {
    let f = file();
    let x = RichTerm::new(Term::Var(LocIdent::new_with_pos("x".to_string(), TermPos::NoPos)), TermPos::NoPos);
    let def = FieldDef {
        path: vec![
            ident("a", TermPos::Original(span(f, 0, 1))),
            quoted(vec![StrChunk::Expr(x, 0)], TermPos::Original(span(f, 2, 8))),
            quoted(vec![StrChunk::Literal("fo".to_string()), StrChunk::Literal("o".to_string())], TermPos::Original(span(f, 9, 14))),
        ],
        field: Field::from_value(RichTerm::new(Term::Null, TermPos::Original(span(f, 17, 21)))),
        pos: TermPos::NoPos,
    };
    let (_, field) = def.elaborate();
    let outer = field.value.unwrap();
    match *outer.term {
        Term::RecRecord(ref d, ref dyns) => {
            assert_eq!(d.fields.len(), 0);
            assert_eq!(dyns.len(), 1);
            let inner = dyns[0].1.value.as_ref().unwrap();
            let foo = static_child(&inner.term, "foo");
            assert!(matches!(*foo.value.as_ref().unwrap().term, Term::Null));
        }
        ref other => panic!("unexpected {:?}", other),
    }
}

#[test]
fn path_as_ident_only_for_one_static_element() {
    let single = FieldDef { path: vec![ident("a", TermPos::NoPos)], field: Field::empty(), pos: TermPos::NoPos };
    assert_eq!(single.path_as_ident().unwrap().label, "a");
    let longer = FieldDef {
        path: vec![ident("a", TermPos::NoPos), ident("b", TermPos::NoPos)],
        field: Field::empty(),
        pos: TermPos::NoPos,
    };
    assert!(longer.path_as_ident().is_none());
    let dynamic = FieldDef {
        path: vec![quoted(vec![StrChunk::Literal("a".to_string())], TermPos::NoPos)],
        field: Field::empty(),
        pos: TermPos::NoPos,
    };
    assert!(dynamic.path_as_ident().is_none());
}

fn doc_field(doc: &str) -> Field {
    let mut f = Field::empty();
    f.metadata.doc = Some(doc.to_string());
    f
}

#[test]
fn repeated_field_keeps_first_doc() {
    let rec = build_record(
        vec![(ident("x", TermPos::NoPos), doc_field("A")), (ident("x", TermPos::NoPos), doc_field("B"))],
        RecordAttrs { open: false },
    );
    match rec {
        Term::RecRecord(d, dyns) => {
            assert_eq!(d.fields.len(), 1);
            assert!(dyns.is_empty());
            let f = d.fields.get(&"x".to_string()).unwrap();
            assert_eq!(f.metadata.doc, Some("A".to_string()));
        }
        other => panic!("unexpected {:?}", other),
    }
}

#[test]
fn piecewise_values_merge_lazily() {
    let f = file();
    let pos2 = TermPos::Original(span(f, 10, 11));
    let rec = build_record(
        vec![
            (ident("x", TermPos::Original(span(f, 0, 1))), Field::from_value(num(1))),
            (ident("x", pos2), Field::from_value(num(2))),
        ],
        RecordAttrs { open: false },
    );
    let Term::RecRecord(d, _) = rec else { panic!("not a record") };
    assert_eq!(d.fields.len(), 1);
    let x = d.fields.get(&"x".to_string()).unwrap();
    match *x.value.as_ref().unwrap().term {
        Term::Op2(BinaryOp::Merge(label), ref t1, ref t2) => {
            assert_eq!(label.kind, MergeKind::PiecewiseDef);
            assert_eq!(label.span, pos2);
            assert!(matches!(*t1.term, Term::Num(ref q) if *q == Rational::from(1u32)));
            assert!(matches!(*t2.term, Term::Num(ref q) if *q == Rational::from(2u32)));
        }
        ref other => panic!("unexpected {:?}", other),
    }
}

#[test]
fn metadata_only_and_value_only_merge_without_operator() {
    let merged = merge_fields(TermPos::NoPos, doc_field("doc"), Field::from_value(num(7)));
    assert_eq!(merged.metadata.doc, Some("doc".to_string()));
    assert!(matches!(*merged.value.unwrap().term, Term::Num(ref q) if *q == Rational::from(7u32)));
    let neither = merge_fields(TermPos::NoPos, Field::empty(), Field::empty());
    assert!(neither.value.is_none());
}

#[test]
fn record_orders_static_and_keeps_dynamic_duplicates() {
    let x = || RichTerm::new(Term::Var(LocIdent::new_with_pos("x".to_string(), TermPos::NoPos)), TermPos::NoPos);
    let rec = build_record(
        vec![
            (ident("b", TermPos::NoPos), Field::from_value(num(1))),
            (quoted(vec![StrChunk::Expr(x(), 0)], TermPos::NoPos), Field::from_value(num(2))),
            (quoted(vec![StrChunk::Literal("a".to_string())], TermPos::NoPos), Field::from_value(num(3))),
            (quoted(vec![StrChunk::Expr(x(), 0)], TermPos::NoPos), Field::from_value(num(4))),
            (ident("b", TermPos::NoPos), Field::empty()),
        ],
        RecordAttrs { open: true },
    );
    let Term::RecRecord(d, dyns) = rec else { panic!("not a record") };
    assert!(d.attrs.open);
    assert_eq!(d.fields.len(), 2);
    assert_eq!(d.fields.entry_at(0).unwrap().0, "b");
    assert_eq!(d.fields.entry_at(1).unwrap().0, "a");
    assert!(d.fields.entry_at(2).is_none());
    let b = d.fields.get(&"b".to_string()).unwrap();
    assert!(matches!(*b.value.as_ref().unwrap().term, Term::Num(ref q) if *q == Rational::from(1u32)));
    assert_eq!(dyns.len(), 2);
    assert!(matches!(*dyns[1].1.value.as_ref().unwrap().term, Term::Num(ref q) if *q == Rational::from(4u32)));
    assert!(d.fields.get(&"c".to_string()).is_none());
}

#[test]
fn access_by_literal_name_is_static() {
    let root = || RichTerm::new(Term::Var(LocIdent::new_with_pos("r".to_string(), TermPos::NoPos)), TermPos::NoPos);
    let access = RichTerm::new(Term::StrChunks(vec![StrChunk::Literal("foo".to_string())]), TermPos::NoPos);
    let t = mk_access(access, root());
    match *t.term {
        Term::Op1(UnaryOp::StaticAccess(ref id), _) => assert_eq!(id.label, "foo"),
        ref other => panic!("unexpected {:?}", other),
    }
    let x = RichTerm::new(Term::Null, TermPos::NoPos);
    let access = RichTerm::new(Term::StrChunks(vec![StrChunk::Expr(x, 0)]), TermPos::NoPos);
    let t = mk_access(access, root());
    assert!(matches!(*t.term, Term::Op2(BinaryOp::DynAccess, _, _)));
}

#[test]
fn spans_fuse_within_one_file_only() {
    let mut files: Files<String> = Files::new();
    let f1 = files.add("a", "aaaa".to_string());
    let f2 = files.add("b", "bbbb".to_string());
    assert_eq!(RawSpan::fuse(span(f1, 3, 4), span(f1, 1, 2)), Some(span(f1, 1, 4)));
    assert_eq!(RawSpan::fuse(span(f1, 0, 1), span(f2, 0, 1)), None);
    let _ = FieldMetadata::new();
}
