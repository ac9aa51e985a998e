//! The term representation produced by normalisation and consumed by the
//! typechecker and the evaluator.
use vstd::prelude::*;

use indexmap::IndexMap;
use vstd::string::StringExecFns;

use crate::position::{RawSpan, TermPos};

use malachite::Rational;

verus! {

#[verifier::external_type_specification]
#[verifier::external_body]
pub struct ExRational(malachite::Rational);

/// An identifier together with the position where it was written.
#[derive(Clone, Debug, PartialEq, Eq)]
pub struct LocIdent {
    pub label: String,
    pub pos: TermPos,
}

impl LocIdent {
    pub fn new_with_pos(label: String, pos: TermPos) -> (r: LocIdent)
        ensures
            r == (LocIdent { label, pos }),
    {
        LocIdent { label, pos }
    }

    /// A copy of this identifier, equal to it.
    pub fn duplicate(&self) -> (r: LocIdent)
        ensures
            r == *self,
    {
        LocIdent { label: self.label.clone(), pos: self.pos }
    }
}

/// A copy of an optional identifier, equal to it.
pub fn duplicate_name(name: &Option<LocIdent>) -> (r: Option<LocIdent>)
    ensures
        r == *name,
{
    match name {
        Some(id) => Some(id.duplicate()),
        None => None,
    }
}

/// Types of the language, as far as annotations need them.
#[derive(Clone, Debug, PartialEq, Eq)]
pub enum Type {
    Dyn,
    Number,
    Bool,
    Str,
    /// A contract given by the name it is bound to.
    Named(String),
}

/// Blame information attached to a contract.
#[derive(Clone, Debug, PartialEq, Eq)]
pub struct Label {
    /// The type or contract this label checks.
    pub typ: Type,
    /// Where the annotation was written, if known.
    pub span: Option<RawSpan>,
    /// The name of the field the annotation is attached to, if any.
    pub field_name: Option<LocIdent>,
}

impl Label {
    /// A label carrying no information, for generated annotations.
    pub fn dummy() -> (r: Label)
        ensures
            r == (Label { typ: Type::Dyn, span: None, field_name: None }),
    {
        Label { typ: Type::Dyn, span: None, field_name: None }
    }
}

/// A type together with the label used to report its violation.
#[derive(Clone, Debug, PartialEq, Eq)]
pub struct LabeledType {
    pub typ: Type,
    pub label: Label,
}

/// A type annotation: at most one principal type (`: T`) and a list of
/// contracts (`| C`).
#[derive(Clone, Debug, PartialEq, Eq)]
pub struct TypeAnnotation {
    pub typ: Option<LabeledType>,
    pub contracts: Vec<LabeledType>,
}

/// A labeled type whose label now names the given field.
pub open spec fn named_labeled_type(lt: LabeledType, name: Option<LocIdent>) -> LabeledType {
    LabeledType {
        typ: lt.typ,
        label: Label { typ: lt.label.typ, span: lt.label.span, field_name: name },
    }
}

impl LabeledType {
    pub fn with_field_name(self, name: Option<LocIdent>) -> (r: LabeledType)
        ensures
            r == named_labeled_type(self, name),
    {
        LabeledType {
            typ: self.typ,
            label: Label { typ: self.label.typ, span: self.label.span, field_name: name },
        }
    }
}

impl TypeAnnotation {
    /// The annotation that declares nothing.
    pub fn new() -> (r: TypeAnnotation)
        ensures
            r.typ.is_none(),
            r.contracts@.len() == 0,
    {
        TypeAnnotation { typ: None, contracts: Vec::new() }
    }

    pub open spec fn is_empty_spec(&self) -> bool {
        self.typ.is_none() && self.contracts@.len() == 0
    }

    /// Whether the annotation declares neither a type nor a contract.
    pub fn is_empty(&self) -> (r: bool)
        ensures
            r == self.is_empty_spec(),
    {
        self.typ.is_none() && self.contracts.len() == 0
    }

    /// Record in every label that the annotation belongs to the given field.
    pub fn with_field_name(self, name: Option<LocIdent>) -> (r: TypeAnnotation)
        ensures
            r.typ == (match self.typ {
                Some(lt) => Some(named_labeled_type(lt, name)),
                Option::None => Option::<LabeledType>::None,
            }),
            r.contracts@ == self.contracts@.map_values(|lt: LabeledType| named_labeled_type(lt, name)),
    {
        let typ = match self.typ {
            Some(lt) => Some(lt.with_field_name(duplicate_name(&name))),
            None => None,
        };
        let mut rest = self.contracts;
        let mut contracts: Vec<LabeledType> = Vec::new();
        let ghost orig = rest@;
        while rest.len() > 0
            invariant
                rest@.len() <= orig.len(),
                rest@ == orig.subrange(0, rest@.len() as int),
                contracts@ == orig.subrange(rest@.len() as int, orig.len() as int).map_values(
                    |lt: LabeledType| named_labeled_type(lt, name),
                ),
            decreases rest.len(),
        {
            let lt = rest.pop().unwrap();
            contracts.insert(0, lt.with_field_name(duplicate_name(&name)));
            assert(contracts@ =~= orig.subrange(rest@.len() as int, orig.len() as int).map_values(
                |lt: LabeledType| named_labeled_type(lt, name),
            ));
        }
        assert(contracts@ =~= orig.map_values(|lt: LabeledType| named_labeled_type(lt, name)));
        TypeAnnotation { typ, contracts }
    }
}

/// The priority of a field in a merge. `Neutral` is the priority of a field
/// without an explicit one; explicit priorities are `Bottom` (a default
/// value), numeric levels and `Top` (a forced value).
#[derive(Clone, Copy, Debug, PartialEq, Eq)]
pub enum MergePriority {
    Bottom,
    Neutral,
    Numeral(i64),
    Top,
}


/// Metadata attached to a record field.
#[derive(Debug)]
pub struct FieldMetadata {
    pub doc: Option<String>,
    pub annotation: TypeAnnotation,
    /// The field is optional.
    pub opt: bool,
    /// The field is left out of exports.
    pub not_exported: bool,
    pub priority: MergePriority,
}

impl FieldMetadata {
    /// Metadata that declares nothing.
    pub fn new() -> (r: FieldMetadata)
        ensures
            r.doc.is_none(),
            r.annotation.is_empty_spec(),
            !r.opt,
            !r.not_exported,
            r.priority == MergePriority::Neutral,
    {
        FieldMetadata {
            doc: None,
            annotation: TypeAnnotation::new(),
            opt: false,
            not_exported: false,
            priority: MergePriority::Neutral,
        }
    }
}

/// Metadata attached to a let binding.
#[derive(Debug)]
pub struct LetMetadata {
    pub doc: Option<String>,
    pub annotation: TypeAnnotation,
}

/// A contract waiting to be applied to a field value.
#[derive(Debug)]
pub struct RuntimeContract {
    pub contract: RichTerm,
    pub label: Label,
}

/// A record field: an optional value, its metadata, and the contracts that
/// later stages attach to it.
#[derive(Debug)]
pub struct Field {
    pub value: Option<RichTerm>,
    pub metadata: FieldMetadata,
    pub pending_contracts: Vec<RuntimeContract>,
}

impl Field {
    /// A field with neither value nor metadata.
    pub fn empty() -> (r: Field)
        ensures
            r.value.is_none(),
            r.metadata.doc.is_none(),
            r.metadata.annotation.is_empty_spec(),
            !r.metadata.opt,
            !r.metadata.not_exported,
            r.metadata.priority == MergePriority::Neutral,
            r.pending_contracts@.len() == 0,
    {
        Field { value: None, metadata: FieldMetadata::new(), pending_contracts: Vec::new() }
    }

    /// A field holding the given value, without metadata.
    pub fn from_value(rt: RichTerm) -> (r: Field)
        ensures
            r.value == Some(rt),
            r.metadata.doc.is_none(),
            r.metadata.annotation.is_empty_spec(),
            !r.metadata.opt,
            !r.metadata.not_exported,
            r.metadata.priority == MergePriority::Neutral,
            r.pending_contracts@.len() == 0,
    {
        Field { value: Some(rt), metadata: FieldMetadata::new(), pending_contracts: Vec::new() }
    }

    /// Record in the field's annotation the name of the field it belongs to.
    pub fn with_name(self, name: Option<LocIdent>) -> (r: Field)
        ensures
            renamed(self, name, r),
    {
        let FieldMetadata { doc, annotation, opt, not_exported, priority } = self.metadata;
        Field {
            value: self.value,
            metadata: FieldMetadata {
                doc,
                annotation: annotation.with_field_name(name),
                opt,
                not_exported,
                priority,
            },
            pending_contracts: self.pending_contracts,
        }
    }
}

/// `g` is `f` with `name` recorded in the labels of its annotation.
pub open spec fn renamed(f: Field, name: Option<LocIdent>, g: Field) -> bool {
    &&& g.value == f.value
    &&& g.pending_contracts == f.pending_contracts
    &&& g.metadata.doc == f.metadata.doc
    &&& g.metadata.opt == f.metadata.opt
    &&& g.metadata.not_exported == f.metadata.not_exported
    &&& g.metadata.priority == f.metadata.priority
    &&& g.metadata.annotation.typ == match f.metadata.annotation.typ {
        Some(lt) => Some(named_labeled_type(lt, name)),
        Option::None => Option::<LabeledType>::None,
    }
    &&& g.metadata.annotation.contracts@ == f.metadata.annotation.contracts@.map_values(
        |lt: LabeledType| named_labeled_type(lt, name),
    )
}

/// Which construct gave rise to a merge.
#[derive(Clone, Copy, Debug, PartialEq, Eq)]
pub enum MergeKind {
    /// A merge written by the user with `&`.
    Standard,
    /// A merge of two piecewise definitions of one field.
    PiecewiseDef,
}

/// Diagnostic information carried by a merge.
#[derive(Clone, Copy, Debug, PartialEq, Eq)]
pub struct MergeLabel {
    pub span: TermPos,
    pub kind: MergeKind,
}

/// Primitive operators of arity one.
#[derive(Debug)]
pub enum UnaryOp {
    BoolAnd,
    BoolOr,
    BoolNot,
    Typeof,
    StaticAccess(LocIdent),
    /// Make the recursive fields of a record default values.
    RecDefault,
    /// Make the recursive fields of a record forced values.
    RecForce,
}

/// Primitive operators of arity two.
#[derive(Debug)]
pub enum BinaryOp {
    Plus,
    Sub,
    Eq,
    LessThan,
    DynAccess,
    Merge(MergeLabel),
}

/// Attributes of a record literal.
#[derive(Clone, Copy, Debug, PartialEq, Eq)]
pub struct RecordAttrs {
    /// The record accepts fields beyond the ones it lists (`..`).
    pub open: bool,
}

/// A destructuring pattern for records: the fields it binds, and whether
/// it accepts other fields.
#[derive(Debug)]
pub struct RecordPattern {
    pub matches: Vec<LocIdent>,
    pub open: bool,
}

/// The left-hand side of a binding: an identifier, or a record pattern,
/// possibly under an alias (`x @ { a, b }`).
#[derive(Debug)]
pub enum FieldPattern {
    Ident(LocIdent),
    RecordPattern(RecordPattern),
    AliasedRecordPattern { alias: LocIdent, pattern: RecordPattern },
}

/// One chunk of a string literal: text, or an interpolated expression with
/// the indentation it is rendered with.
#[derive(Debug)]
pub enum StrChunk {
    Literal(String),
    Expr(RichTerm, usize),
}

/// The terms of the language, as built by the parser.
#[derive(Debug)]
pub enum Term {
    Null,
    Bool(bool),
    Num(Rational),
    Str(String),
    StrChunks(Vec<StrChunk>),
    Var(LocIdent),
    Fun(LocIdent, RichTerm),
    /// A function whose argument is destructured, possibly under an alias.
    FunPattern(Option<LocIdent>, RecordPattern, RichTerm),
    /// `let x = t1 in t2`, recursive when the flag is set.
    Let(LocIdent, RichTerm, RichTerm, bool),
    /// `let pat = t1 in t2`, possibly under an alias.
    LetPattern(Option<LocIdent>, RecordPattern, RichTerm, RichTerm),
    App(RichTerm, RichTerm),
    Op1(UnaryOp, RichTerm),
    Op2(BinaryOp, RichTerm, RichTerm),
    Record(RecordData),
    /// A recursive record, with its statically and its dynamically named
    /// fields.
    RecRecord(RecordData, Vec<(RichTerm, Field)>),
    Annotated(TypeAnnotation, RichTerm),
}

/// The statically named fields of a record and its attributes.
#[derive(Debug)]
pub struct RecordData {
    pub fields: StaticFields,
    pub attrs: RecordAttrs,
}

/// A term with its position.
#[derive(Debug)]
pub struct RichTerm {
    pub term: Box<Term>,
    pub pos: TermPos,
}

impl RichTerm {
    pub fn new(term: Term, pos: TermPos) -> (r: RichTerm)
        ensures
            *r.term == term,
            r.pos == pos,
    {
        RichTerm { term: Box::new(term), pos }
    }

    /// The same term at another position.
    pub fn with_pos(self, pos: TermPos) -> (r: RichTerm)
        ensures
            r.term == self.term,
            r.pos == pos,
    {
        RichTerm { term: self.term, pos }
    }
}

/// The statically named fields of a record, in insertion order, held in an
/// `IndexMap`. The map is kept behind this opaque struct because its values
/// are fields, which hold terms, which hold records again: a map type
/// declared to the verifier cannot take such a recursive value type.
#[verifier::external_body]
#[derive(Debug)]
pub struct StaticFields {
    map: IndexMap<String, Field>,
}

/// The entries of a static field map: names with their fields, in order.
pub uninterp spec fn static_entries(m: StaticFields) -> Seq<(Seq<char>, Field)>;

/// The first position at which `name` is a key of `entries`.
pub open spec fn key_index(entries: Seq<(Seq<char>, Field)>, name: Seq<char>) -> Option<int>
    decreases entries.len(),
{
    if entries.len() == 0 {
        None
    } else {
        match key_index(entries.drop_last(), name) {
            Some(i) => Some(i),
            Option::None => if entries.last().0 == name {
                Some(entries.len() - 1)
            } else {
                None
            },
        }
    }
}

/// A key found in a prefix is found at the same place in the whole sequence.
pub proof fn lemma_key_index_prefix(entries: Seq<(Seq<char>, Field)>, k: int, name: Seq<char>)
    requires
        0 <= k <= entries.len(),
        key_index(entries.subrange(0, k), name).is_some(),
    ensures
        key_index(entries, name) == key_index(entries.subrange(0, k), name),
    decreases entries.len(),
{
    if k < entries.len() {
        assert(entries.drop_last().subrange(0, k) =~= entries.subrange(0, k));
        lemma_key_index_prefix(entries.drop_last(), k, name);
    } else {
        assert(entries.subrange(0, k) =~= entries);
    }
}

impl View for StaticFields {
    type V = Seq<(Seq<char>, Field)>;

    open spec fn view(&self) -> Seq<(Seq<char>, Field)> {
        static_entries(*self)
    }
}

/// Relies on `IndexMap::new`: the new map is empty.
#[verifier::external_body]
pub(crate) fn static_fields_new() -> (r: StaticFields)
    ensures
        static_entries(r) == Seq::<(Seq<char>, Field)>::empty(),
{
    StaticFields { map: IndexMap::new() }
}

/// Relies on `IndexMap::insert_full`: an existing key keeps its place and
/// gets the new value, the old one being returned with its index; a new key
/// is appended last.
#[verifier::external_body]
pub(crate) fn static_fields_insert_full(m: &mut StaticFields, key: String, value: Field) -> (r: (
    usize,
    Option<Field>,
))
    ensures
        match key_index(static_entries(*old(m)), key@) {
            Some(i) => {
                &&& static_entries(*final(m)) == static_entries(*old(m)).update(i, (static_entries(*old(m))[i].0, value))
                &&& r.0 == i
                &&& r.1 == Some(static_entries(*old(m))[i].1)
            },
            Option::None => {
                &&& static_entries(*final(m)) == static_entries(*old(m)).push((key@, value))
                &&& r.0 == static_entries(*old(m)).len()
                &&& r.1.is_none()
            },
        },
{
    m.map.insert_full(key, value)
}

/// Relies on `IndexMap::len`: the number of entries.
#[verifier::external_body]
pub(crate) fn static_fields_len(m: &StaticFields) -> (r: usize)
    ensures
        r == static_entries(*m).len(),
{
    m.map.len()
}

/// Relies on `IndexMap::get_index`: the entry at a valid index.
#[verifier::external_body]
pub(crate) fn static_fields_get_index(m: &StaticFields, i: usize) -> (r: (&String, &Field))
    requires
        i < static_entries(*m).len(),
    ensures
        r.0@ == static_entries(*m)[i as int].0,
        *r.1 == static_entries(*m)[i as int].1,
{
    m.map.get_index(i).unwrap()
}

impl StaticFields {
    /// The number of fields.
    pub fn len(&self) -> (r: usize)
        ensures
            r == self@.len(),
    {
        static_fields_len(self)
    }

    /// The name and the field at position `i` of the insertion order.
    pub fn entry_at(&self, i: usize) -> (r: Option<(&String, &Field)>)
        ensures
            i < self@.len() ==> r.is_some() && r.unwrap().0@ == self@[i as int].0 && *r.unwrap().1
                == self@[i as int].1,
            i >= self@.len() ==> r.is_none(),
    {
        if i < static_fields_len(self) {
            Some(static_fields_get_index(self, i))
        } else {
            None
        }
    }

    /// The field named `name`, if any.
    pub fn get(&self, name: &String) -> (r: Option<&Field>)
        ensures
            match key_index(self@, name@) {
                Some(i) => r == Some(&self@[i].1),
                Option::None => r.is_none(),
            },
    {
        let n = static_fields_len(self);
        let mut i: usize = 0;
        while i < n
            invariant
                n == self@.len(),
                i <= n,
                key_index(self@.subrange(0, i as int), name@).is_none(),
            decreases n - i,
        {
            let (k, f) = static_fields_get_index(self, i);
            proof {
                let s = self@.subrange(0, i as int + 1);
                assert(s.drop_last() =~= self@.subrange(0, i as int));
            }
            if k.eq(name) {
                proof {
                    lemma_key_index_prefix(self@, i as int + 1, name@);
                }
                return Some(f);
            }
            i = i + 1;
        }
        proof {
            assert(self@.subrange(0, n as int) =~= self@);
        }
        None
    }
}


/// The text of a string made of literal chunks only; `None` when a chunk is
/// an expression.
pub open spec fn static_text(cs: Seq<StrChunk>) -> Option<Seq<char>>
    decreases cs.len(),
{
    if cs.len() == 0 {
        Some(Seq::empty())
    } else {
        match (static_text(cs.drop_last()), cs.last()) {
            (Some(t), StrChunk::Literal(s)) => Some(t + s@),
            _ => None,
        }
    }
}

/// The name a quoted field name stands for when it interpolates nothing.
pub open spec fn static_str(t: Term) -> Option<Seq<char>> {
    match t {
        Term::StrChunks(cs) => static_text(cs@),
        _ => None,
    }
}

impl Term {
    /// The text of a string that holds no interpolated expression; `None`
    /// for any other term.
    pub fn try_str_chunk_as_static_str(&self) -> (r: Option<String>)
        ensures
            match static_str(*self) {
                Some(s) => r.is_some() && r.unwrap()@ == s,
                Option::None => r.is_none(),
            },
    {
        match self {
            Term::StrChunks(chunks) => {
                let mut acc = String::new();
                let mut i: usize = 0;
                assert(chunks@.subrange(0, 0) =~= Seq::<StrChunk>::empty());
                while i < chunks.len()
                    invariant
                        i <= chunks@.len(),
                        static_str(*self) == static_text(chunks@),
                        static_text(chunks@.subrange(0, i as int)) == Some(acc@),
                    decreases chunks@.len() - i,
                {
                    proof {
                        assert(chunks@.subrange(0, i as int + 1).drop_last() =~= chunks@.subrange(
                            0,
                            i as int,
                        ));
                    }
                    match &chunks[i] {
                        StrChunk::Literal(s) => {
                            acc.append(s.as_str());
                        },
                        StrChunk::Expr(_, _) => {
                            proof {
                                assert(chunks@.subrange(0, i as int + 1).last() == chunks@[i as int]);
                                assert(static_text(chunks@.subrange(0, i as int + 1)).is_none());
                                lemma_static_text_prefix(chunks@, i as int + 1);

                            }
                            return None;
                        },
                    }
                    i = i + 1;
                }
                proof {
                    assert(chunks@.subrange(0, i as int) =~= chunks@);
                }
                Some(acc)
            },
            _ => None,
        }
    }
}

/// A string with an expression among its first `k` chunks is not static.
pub proof fn lemma_static_text_prefix(cs: Seq<StrChunk>, k: int)
    requires
        0 <= k <= cs.len(),
        static_text(cs.subrange(0, k)).is_none(),
    ensures
        static_text(cs).is_none(),
    decreases cs.len(),
{
    if k < cs.len() {
        assert(cs.drop_last().subrange(0, k) =~= cs.subrange(0, k));
        lemma_static_text_prefix(cs.drop_last(), k);
    } else {
        assert(cs.subrange(0, k) =~= cs);
    }
}

}
