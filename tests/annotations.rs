use nickel_parser_utils::combine::{combine_priority, AttachTerm, Combine, FieldExtAnnot};
use nickel_parser_utils::combine::metadata_with_default;
use nickel_parser_utils::position::TermPos;
use nickel_parser_utils::term::{
    FieldMetadata, Label, LabeledType, MergePriority, RichTerm, Term, Type, TypeAnnotation,
    UnaryOp,
};

fn labeled(typ: Type) -> LabeledType {
    LabeledType { typ, label: Label::dummy() }
}

#[test]
fn contract_annotation_order() {
    let ty1 = LabeledType { typ: Type::Number, label: Label::dummy() };
    let annot1 = TypeAnnotation { typ: None, contracts: vec![ty1.clone()] };

    let ty2 = LabeledType { typ: Type::Bool, label: Label::dummy() };
    let annot2 = TypeAnnotation { typ: None, contracts: vec![ty2.clone()] };

    assert_eq!(Combine::combine(annot1, annot2).contracts, vec![ty1, ty2])
}

#[test]
fn type_annotation_combine() {
    let inner = TypeAnnotation { typ: Some(LabeledType { typ: Type::Number, label: Label::dummy() }), contracts: Vec::new() };
    let outer = TypeAnnotation::new();
    let res = TypeAnnotation::combine(outer, inner);
    assert_ne!(res.typ, None);
}

#[test]
fn both_types_demote_the_right_one() {
    let left = TypeAnnotation { typ: Some(labeled(Type::Number)), contracts: vec![labeled(Type::Named("A".to_string()))] };
    let right = TypeAnnotation { typ: Some(labeled(Type::Bool)), contracts: vec![labeled(Type::Named("B".to_string()))] };
    let res = TypeAnnotation::combine(left, right);
    assert_eq!(res.typ, Some(labeled(Type::Number)));
    assert_eq!(
        res.contracts,
        vec![labeled(Type::Named("A".to_string())), labeled(Type::Bool), labeled(Type::Named("B".to_string()))]
    );
}

#[test]
fn priorities_combine() {
    assert_eq!(combine_priority(MergePriority::Neutral, MergePriority::Bottom), MergePriority::Bottom);
    assert_eq!(combine_priority(MergePriority::Top, MergePriority::Neutral), MergePriority::Top);
    assert_eq!(combine_priority(MergePriority::Neutral, MergePriority::Neutral), MergePriority::Neutral);
    assert_eq!(combine_priority(MergePriority::Numeral(1), MergePriority::Numeral(3)), MergePriority::Numeral(3));
    assert_eq!(combine_priority(MergePriority::Numeral(5), MergePriority::Bottom), MergePriority::Numeral(5));
    assert_eq!(combine_priority(MergePriority::Numeral(5), MergePriority::Top), MergePriority::Top);
}

#[test]
fn metadata_first_doc_wins_and_flags_or() {
    let mut left = FieldMetadata::new();
    left.doc = Some("A".to_string());
    let mut right = FieldMetadata::new();
    right.doc = Some("B".to_string());
    right.opt = true;
    right.not_exported = true;
    let res = FieldMetadata::combine(left, right);
    assert_eq!(res.doc, Some("A".to_string()));
    assert!(res.opt);
    assert!(res.not_exported);
}

#[test]
fn optional_metadata_keeps_the_present_side() {
    let mut m = FieldMetadata::new();
    m.doc = Some("only".to_string());
    let res = Option::<FieldMetadata>::combine(None, Some(m)).unwrap();
    assert_eq!(res.doc, Some("only".to_string()));
    assert!(Option::<FieldMetadata>::combine(None, None).is_none());
}

#[test]
fn default_value_gets_bottom_priority() {
    let mut m = FieldMetadata::new();
    m.doc = Some("d".to_string());
    let f = metadata_with_default(Some(m), Some(RichTerm::new(Term::Bool(true), TermPos::NoPos)));
    assert_eq!(f.metadata.priority, MergePriority::Bottom);
    assert_eq!(f.metadata.doc, Some("d".to_string()));
    assert!(matches!(*f.value.unwrap().term, Term::Bool(true)));

    let g = metadata_with_default(None, None);
    assert_eq!(g.metadata.priority, MergePriority::Neutral);
    assert!(g.value.is_none());

    let h = metadata_with_default(None, Some(RichTerm::new(Term::Null, TermPos::NoPos)));
    assert_eq!(h.metadata.priority, MergePriority::Bottom);
}

#[test]
fn rec_force_wins_over_rec_default() {
    let mut annot = FieldExtAnnot::new();
    annot.rec_force = true;
    annot.rec_default = true;
    let f = annot.attach_term(RichTerm::new(Term::Bool(false), TermPos::NoPos));
    match *f.value.unwrap().term {
        Term::Op1(UnaryOp::RecForce, ref t) => assert!(matches!(*t.term, Term::Bool(false))),
        ref other => panic!("unexpected {:?}", other),
    }

    let mut annot = FieldExtAnnot::new();
    annot.rec_default = true;
    let f = annot.attach_term(RichTerm::new(Term::Null, TermPos::NoPos));
    assert!(matches!(*f.value.unwrap().term, Term::Op1(UnaryOp::RecDefault, _)));

    let f = FieldExtAnnot::from(FieldMetadata::new()).attach_term(RichTerm::new(Term::Null, TermPos::NoPos));
    assert!(matches!(*f.value.unwrap().term, Term::Null));
}

#[test]
fn ext_annotations_combine() {
    let mut a = FieldExtAnnot::new();
    a.rec_force = true;
    let mut b = FieldExtAnnot::new();
    b.rec_default = true;
    b.metadata.priority = MergePriority::Top;
    let c = FieldExtAnnot::combine(a, b);
    assert!(c.rec_force && c.rec_default);
    assert_eq!(c.metadata.priority, MergePriority::Top);
}

#[test]
fn type_annotation_attaches() {
    let t = TypeAnnotation::new().attach_term(RichTerm::new(Term::Null, TermPos::NoPos));
    assert!(matches!(*t.term, Term::Null));
    let annot = TypeAnnotation { typ: Some(labeled(Type::Number)), contracts: Vec::new() };
    let t = annot.attach_term(RichTerm::new(Term::Null, TermPos::NoPos));
    assert!(matches!(*t.term, Term::Annotated(_, _)));
    let f = FieldMetadata::new().attach_term(RichTerm::new(Term::Null, TermPos::NoPos));
    assert!(f.value.is_some());
}
