//! Field paths and record literals: the elaboration of `a.b.c = v` into
//! nested records, and the assembly of a record from its field definitions,
//! where the definitions of one name are merged.
use vstd::prelude::*;

use crate::combine::{combine_priority_spec, first_some, Combine};
use crate::position::{spec_fuse, RawSpan, TermPos};
use crate::term::{
    key_index, renamed, static_entries, StaticFields, static_fields_insert_full, static_fields_new,
    static_str, BinaryOp, Field, FieldMetadata, LabeledType, LocIdent, MergeKind, MergeLabel,
    MergePriority, RecordAttrs, RecordData, RichTerm, Term, UnaryOp,
};

verus! {

/// An element of a field path: a static identifier (`{ foo = .. }`) or a
/// quoted, possibly interpolated, name (`{ "%{protocol}" = .. }`), given as
/// string chunks.
#[derive(Debug)]
pub enum FieldPathElem {
    Ident(LocIdent),
    Expr(RichTerm),
}

/// A field path, never empty.
pub type FieldPath = Vec<FieldPathElem>;

/// A field definition: a path, the field at its end, and its position.
#[derive(Debug)]
pub struct FieldDef {
    pub path: FieldPath,
    pub field: Field,
    pub pos: TermPos,
}

/// The last field of a record literal: a field, or an ellipsis `..`.
#[derive(Debug)]
pub enum RecordLastField {
    Field(FieldDef),
    Ellipsis,
}

/// The position of a path element.
pub open spec fn elem_pos(e: FieldPathElem) -> TermPos {
    match e {
        FieldPathElem::Ident(id) => id.pos,
        FieldPathElem::Expr(t) => t.pos,
    }
}

pub open spec fn elem_span(e: FieldPathElem) -> Option<RawSpan> {
    elem_pos(e).span()
}

/// The name of a path element that is static: an identifier, or a quoted
/// name that interpolates nothing.
pub open spec fn elem_static_name(e: FieldPathElem) -> Option<Seq<char>> {
    match e {
        FieldPathElem::Ident(id) => Some(id.label@),
        FieldPathElem::Expr(t) => static_str(*t.term),
    }
}

/// The name given to the field at the end of a path: the last element when
/// it is an identifier.
pub open spec fn last_ident(path: Seq<FieldPathElem>) -> Option<LocIdent> {
    match path.last() {
        FieldPathElem::Ident(id) => Some(id),
        FieldPathElem::Expr(_) => None,
    }
}

/// Metadata that declares nothing.
pub open spec fn plain_metadata(m: FieldMetadata) -> bool {
    &&& m.doc.is_none()
    &&& m.annotation.typ.is_none()
    &&& m.annotation.contracts@.len() == 0
    &&& !m.opt
    &&& !m.not_exported
    &&& m.priority == MergePriority::Neutral
}

/// The field that the record term `t`, generated for path element `e`,
/// holds: a one-field record named by `e` when `e` is static, else a
/// one-field recursive record whose only field is dynamic.
pub open spec fn single_child(e: FieldPathElem, t: Term) -> Option<Field> {
    match elem_static_name(e) {
        Some(name) => match t {
            Term::Record(d) => if static_entries(d.fields).len() == 1 && static_entries(
                d.fields,
            )[0].0 == name && !d.attrs.open {
                Some(static_entries(d.fields)[0].1)
            } else {
                None
            },
            _ => None,
        },
        Option::None => match (e, t) {
            (FieldPathElem::Expr(x), Term::RecRecord(d, dyns)) => if static_entries(d.fields).len()
                == 0 && !d.attrs.open && dyns@.len() == 1 && dyns@[0].0 == x {
                Some(dyns@[0].1)
            } else {
                None
            },
            _ => None,
        },
    }
}

/// The field reached from `f` by following the path `elems` through the
/// records generated for it.
pub open spec fn descend(elems: Seq<FieldPathElem>, f: Field) -> Option<Field>
    decreases elems.len(),
{
    if elems.len() == 0 {
        Some(f)
    } else {
        match f.value {
            Some(v) => match single_child(elems[0], *v.term) {
                Some(c) => descend(elems.drop_first(), c),
                Option::None => None,
            },
            Option::None => None,
        }
    }
}

/// The span of a field's value, `d` when it has none.
pub open spec fn value_span_or(f: Field, d: RawSpan) -> RawSpan {
    match f.value {
        Some(v) => match v.pos.span() {
            Some(s) => s,
            Option::None => d,
        },
        Option::None => d,
    }
}

/// Every record generated along `elems` is a plain field whose position
/// runs from its path element to the end of the value it holds.
pub open spec fn generated_levels(elems: Seq<FieldPathElem>, f: Field) -> bool
    decreases elems.len(),
{
    if elems.len() == 0 {
        true
    } else {
        match f.value {
            Some(v) => match single_child(elems[0], *v.term) {
                Some(c) => {
                    let es = elem_span(elems[0]).unwrap();
                    &&& plain_metadata(f.metadata)
                    &&& f.pending_contracts@.len() == 0
                    &&& spec_fuse(es, value_span_or(c, es)).is_some()
                    &&& v.pos == TermPos::Original(spec_fuse(es, value_span_or(c, es)).unwrap())
                    &&& generated_levels(elems.drop_first(), c)
                },
                Option::None => false,
            },
            Option::None => false,
        }
    }
}

/// The span of `e` is known and lies in file `file`.
pub open spec fn elem_in_file(e: FieldPathElem, file: codespan::FileId) -> bool {
    elem_span(e).is_some() && elem_span(e).unwrap().src_id == file
}

/// A field's value, if any, has a known span in file `file`.
pub open spec fn value_in_file(f: Field, file: codespan::FileId) -> bool {
    f.value.is_some() ==> (f.value.unwrap().pos.span().is_some()
        && f.value.unwrap().pos.span().unwrap().src_id == file)
}

/// What the parser guarantees of a path definition: the elements after the
/// first and the value have known positions, all in one file.
pub open spec fn positioned(path: Seq<FieldPathElem>, field: Field) -> bool {
    path.len() > 1 ==> {
        let file = elem_span(path.last()).unwrap().src_id;
        &&& forall|i: int| 1 <= i < path.len() ==> elem_in_file(#[trigger] path[i], file)
        &&& value_in_file(field, file)
    }
}

/// The field for a one-field record term at a position.
fn record_field(fields_term: Term, pos: TermPos) -> (r: Field)
    ensures
        r.value.is_some(),
        *r.value.unwrap().term == fields_term,
        r.value.unwrap().pos == pos,
        plain_metadata(r.metadata),
        r.pending_contracts@.len() == 0,
{
    Field::from_value(RichTerm::new(fields_term, pos))
}

/// Wrap `acc` in the record that path element `elem` stands for.
fn wrap_field(elem: FieldPathElem, acc: Field) -> (r: Field)
    requires
        elem_span(elem).is_some(),
        value_in_file(acc, elem_span(elem).unwrap().src_id),
    ensures
        r.value.is_some(),
        single_child(elem, *r.value.unwrap().term) == Some(acc),
        plain_metadata(r.metadata),
        r.pending_contracts@.len() == 0,
        spec_fuse(elem_span(elem).unwrap(), value_span_or(acc, elem_span(elem).unwrap())).is_some(),
        r.value.unwrap().pos == TermPos::Original(
            spec_fuse(elem_span(elem).unwrap(), value_span_or(acc, elem_span(elem).unwrap())).unwrap(),
        ),
        value_in_file(r, elem_span(elem).unwrap().src_id),
{
    let id_span = match &elem {
        FieldPathElem::Ident(id) => id.pos.as_opt_span(),
        FieldPathElem::Expr(e) => e.pos.as_opt_span(),
    }.unwrap();
    let acc_span = match &acc.value {
        Some(v) => v.pos.as_opt_span().unwrap(),
        None => id_span,
    };
    // Both spans lie in the file of the definition, so they fuse.
    let pos = TermPos::Original(RawSpan::fuse(id_span, acc_span).unwrap());
    let attrs = RecordAttrs { open: false };
    match elem {
        FieldPathElem::Ident(id) => {
            let mut fields = static_fields_new();
            static_fields_insert_full(&mut fields, id.label, acc);
            record_field(Term::Record(RecordData { fields, attrs }), pos)
        },
        FieldPathElem::Expr(exp) => {
            match exp.term.try_str_chunk_as_static_str() {
                Some(name) => {
                    let mut fields = static_fields_new();
                    static_fields_insert_full(&mut fields, name, acc);
                    record_field(Term::Record(RecordData { fields, attrs }), pos)
                },
                None => {
                    // A record of one dynamic field: its name is only known
                    // once evaluated.
                    let fields = static_fields_new();
                    let mut dynamic: Vec<(RichTerm, Field)> = Vec::new();
                    dynamic.push((exp, acc));
                    record_field(Term::RecRecord(RecordData { fields, attrs }, dynamic), pos)
                },
            }
        },
    }
}

impl FieldDef {
    /// Elaborate a definition given by a path, like `a.b.c = foo`, into the
    /// flat definition `a = { b = { c = foo } }`: the first element of the
    /// path, and a field that nests one generated record for each other
    /// element. The field at the end gets the last element as its name when
    /// that element is an identifier.
    pub fn elaborate(self) -> (r: (FieldPathElem, Field))
        requires
            self.path@.len() > 0,
            positioned(self.path@, self.field),
        ensures
            r.0 == self.path@[0],
            generated_levels(self.path@.drop_first(), r.1),
            descend(self.path@.drop_first(), r.1).is_some(),
            descend(self.path@.drop_first(), r.1).unwrap().value == self.field.value,
            renamed(
                self.field,
                last_ident(self.path@),
                descend(self.path@.drop_first(), r.1).unwrap(),
            ),
    {
        let ghost orig = self.path@;
        let ghost n = orig.len() as int;
        let FieldDef { path, field, pos: _ } = self;
        let last = match &path[path.len() - 1] {
            FieldPathElem::Ident(id) => Some(id.duplicate()),
            FieldPathElem::Expr(_) => None,
        };
        let mut acc = field.with_name(last);
        let ghost inner = acc;
        let mut path = path;
        proof {
            assert(orig.subrange(n, n) =~= Seq::<FieldPathElem>::empty());
            assert(orig.subrange(0, n) =~= orig);
        }
        while path.len() > 1
            invariant
                1 <= path@.len() <= n,
                n == orig.len(),
                positioned(orig, field),
                path@ == orig.subrange(0, path@.len() as int),
                generated_levels(orig.subrange(path@.len() as int, n), acc),
                descend(orig.subrange(path@.len() as int, n), acc) == Some(inner),
                n > 1 ==> value_in_file(acc, elem_span(orig.last()).unwrap().src_id),
            decreases path@.len(),
        {
            let ghost len = path@.len() as int;
            let elem = path.pop().unwrap();
            proof {
                assert(elem == orig[len - 1]);
                assert(elem_in_file(orig[len - 1], elem_span(orig.last()).unwrap().src_id));
                assert(orig.subrange(len - 1, n).drop_first() =~= orig.subrange(len, n));
                assert(orig.subrange(len - 1, n)[0] == elem);
                assert(path@ =~= orig.subrange(0, len - 1));
            }
            acc = wrap_field(elem, acc);
        }
        let fst = path.pop().unwrap();
        proof {
            assert(orig.subrange(1, n) =~= orig.drop_first());
        }
        (fst, acc)
    }

    /// The identifier of a definition whose path is exactly one static
    /// identifier; `None` otherwise.
    pub fn path_as_ident(&self) -> (r: Option<LocIdent>)
        ensures
            r == (if self.path@.len() == 1 && self.path@[0] is Ident {
                Some(self.path@[0]->Ident_0)
            } else {
                None
            }),
    {
        if self.path.len() != 1 {
            return None;
        }
        match &self.path[0] {
            FieldPathElem::Expr(_) => None,
            FieldPathElem::Ident(ident) => Some(ident.duplicate()),
        }
    }
}


/// The merge label of a piecewise definition at a position.
pub open spec fn piecewise_label(pos: TermPos) -> MergeLabel {
    MergeLabel { span: pos, kind: MergeKind::PiecewiseDef }
}

/// `r` merges `f1` and `f2`: their values under a deferred merge operator
/// labelled with `pos`, or the one value there is; their metadata combined.
pub open spec fn merged_pair(pos: TermPos, f1: Field, f2: Field, r: Field) -> bool {
    &&& match (f1.value, f2.value) {
        (Some(t1), Some(t2)) => {
            &&& r.value.is_some()
            &&& *r.value.unwrap().term == Term::Op2(BinaryOp::Merge(piecewise_label(pos)), t1, t2)
            &&& r.value.unwrap().pos == TermPos::NoPos
        },
        (Some(t1), Option::None) => r.value == Some(t1),
        (Option::None, v2) => r.value == v2,
    }
    &&& FieldMetadata::combined(f1.metadata, f2.metadata, r.metadata)
    &&& r.pending_contracts@.len() == 0
}

/// Merge two definitions of one field: their values under a deferred merge
/// operator (or the one value there is), their metadata combined.
pub fn merge_fields(id_pos: TermPos, field1: Field, field2: Field) -> (r: Field)
    requires
        field1.pending_contracts@.len() == 0,
        field2.pending_contracts@.len() == 0,
    ensures
        merged_pair(id_pos, field1, field2, r),
{
    let Field { value: value1, metadata: metadata1, pending_contracts } = field1;
    let Field { value: value2, metadata: metadata2, pending_contracts: _ } = field2;
    let value = match (value1, value2) {
        (Some(t1), Some(t2)) => Some(
            RichTerm::new(
                Term::Op2(
                    BinaryOp::Merge(MergeLabel { span: id_pos, kind: MergeKind::PiecewiseDef }),
                    t1,
                    t2,
                ),
                TermPos::NoPos,
            ),
        ),
        (Some(t), None) => Some(t),
        (None, t) => t,
    };
    Field { value, metadata: FieldMetadata::combine(metadata1, metadata2), pending_contracts }
}

/// The definitions of static name `name` in `fs`, in order, each with the
/// position of its name.
pub open spec fn static_occurrences(fs: Seq<(FieldPathElem, Field)>, name: Seq<char>) -> Seq<
    (Field, TermPos),
>
    decreases fs.len(),
{
    if fs.len() == 0 {
        Seq::empty()
    } else {
        let prev = static_occurrences(fs.drop_last(), name);
        if elem_static_name(fs.last().0) == Some(name) {
            prev.push((fs.last().1, elem_pos(fs.last().0)))
        } else {
            prev
        }
    }
}

/// The distinct static names of `fs`, in the order of their first
/// definition.
pub open spec fn static_names(fs: Seq<(FieldPathElem, Field)>) -> Seq<Seq<char>>
    decreases fs.len(),
{
    if fs.len() == 0 {
        Seq::empty()
    } else {
        let prev = static_names(fs.drop_last());
        match elem_static_name(fs.last().0) {
            Some(name) => if prev.contains(name) {
                prev
            } else {
                prev.push(name)
            },
            Option::None => prev,
        }
    }
}

/// The definitions of `fs` whose name is dynamic, in order.
pub open spec fn dynamic_fields(fs: Seq<(FieldPathElem, Field)>) -> Seq<(RichTerm, Field)>
    decreases fs.len(),
{
    if fs.len() == 0 {
        Seq::empty()
    } else {
        let prev = dynamic_fields(fs.drop_last());
        match (fs.last().0, elem_static_name(fs.last().0)) {
            (FieldPathElem::Expr(t), Option::None) => prev.push((t, fs.last().1)),
            _ => prev,
        }
    }
}

/// The values of the definitions that have one, with their positions.
pub open spec fn valued(occs: Seq<(Field, TermPos)>) -> Seq<(RichTerm, TermPos)>
    decreases occs.len(),
{
    if occs.len() == 0 {
        Seq::empty()
    } else {
        let prev = valued(occs.drop_last());
        match occs.last().0.value {
            Some(v) => prev.push((v, occs.last().1)),
            Option::None => prev,
        }
    }
}

/// `v` merges the values `vs` from left to right, each merge labelled with
/// the position of the definition that brings its right operand.
pub open spec fn merge_chain(vs: Seq<(RichTerm, TermPos)>, v: RichTerm) -> bool
    decreases vs.len(),
{
    if vs.len() == 0 {
        false
    } else if vs.len() == 1 {
        v == vs[0].0
    } else {
        match *v.term {
            Term::Op2(BinaryOp::Merge(l), a, b) => {
                &&& l == piecewise_label(vs.last().1)
                &&& b == vs.last().0
                &&& v.pos == TermPos::NoPos
                &&& merge_chain(vs.drop_last(), a)
            },
            _ => false,
        }
    }
}

/// The documentation of merged definitions: the first one given.
pub open spec fn merged_doc(occs: Seq<(Field, TermPos)>) -> Option<String>
    decreases occs.len(),
{
    if occs.len() == 0 {
        None
    } else {
        first_some(merged_doc(occs.drop_last()), occs.last().0.metadata.doc)
    }
}

/// The type of merged definitions: the first one given.
pub open spec fn merged_typ(occs: Seq<(Field, TermPos)>) -> Option<LabeledType>
    decreases occs.len(),
{
    if occs.len() == 0 {
        None
    } else {
        first_some(merged_typ(occs.drop_last()), occs.last().0.metadata.annotation.typ)
    }
}

/// The contracts of merged definitions: those of each definition in order,
/// each type after the first one becoming a contract of its own.
pub open spec fn merged_contracts(occs: Seq<(Field, TermPos)>) -> Seq<LabeledType>
    decreases occs.len(),
{
    if occs.len() == 0 {
        Seq::empty()
    } else {
        let last = occs.last().0.metadata.annotation;
        let demoted = if merged_typ(occs.drop_last()).is_some() && last.typ.is_some() {
            seq![last.typ.unwrap()]
        } else {
            Seq::empty()
        };
        merged_contracts(occs.drop_last()) + demoted + last.contracts@
    }
}

pub open spec fn merged_opt(occs: Seq<(Field, TermPos)>) -> bool
    decreases occs.len(),
{
    occs.len() > 0 && (merged_opt(occs.drop_last()) || occs.last().0.metadata.opt)
}

pub open spec fn merged_not_exported(occs: Seq<(Field, TermPos)>) -> bool
    decreases occs.len(),
{
    occs.len() > 0 && (merged_not_exported(occs.drop_last())
        || occs.last().0.metadata.not_exported)
}

pub open spec fn merged_priority(occs: Seq<(Field, TermPos)>) -> MergePriority
    decreases occs.len(),
{
    if occs.len() == 0 {
        MergePriority::Neutral
    } else {
        combine_priority_spec(merged_priority(occs.drop_last()), occs.last().0.metadata.priority)
    }
}

/// `r` is the field that the definitions `occs` of one name merge into.
pub open spec fn merges_of(occs: Seq<(Field, TermPos)>, r: Field) -> bool {
    &&& if valued(occs).len() == 0 {
        r.value.is_none()
    } else {
        r.value.is_some() && merge_chain(valued(occs), r.value.unwrap())
    }
    &&& r.metadata.doc == merged_doc(occs)
    &&& r.metadata.annotation.typ == merged_typ(occs)
    &&& r.metadata.annotation.contracts@ == merged_contracts(occs)
    &&& r.metadata.opt == merged_opt(occs)
    &&& r.metadata.not_exported == merged_not_exported(occs)
    &&& r.metadata.priority == merged_priority(occs)
    &&& r.pending_contracts@.len() == 0
}

/// Merging one more definition into the merge of the previous ones gives
/// the merge of all.
proof fn lemma_merges_step(occs: Seq<(Field, TermPos)>, prev: Field, o: (Field, TermPos), r: Field)
    requires
        merges_of(occs, prev),
        o.0.pending_contracts@.len() == 0,
        merged_pair(o.1, prev, o.0, r),
    ensures
        merges_of(occs.push(o), r),
{
    let all = occs.push(o);
    assert(all.drop_last() =~= occs);
    assert(all.last() == o);
    let vs = valued(occs);
    match (prev.value, o.0.value) {
        (Some(t1), Some(t2)) => {
            assert(valued(all) == vs.push((t2, o.1)));
            assert(valued(all).drop_last() =~= vs);
        },
        _ => {},
    }
    assert(merged_contracts(all) =~= merged_contracts(occs) + (if merged_typ(occs).is_some()
        && o.0.metadata.annotation.typ.is_some() {
        seq![o.0.metadata.annotation.typ.unwrap()]
    } else {
        Seq::empty()
    }) + o.0.metadata.annotation.contracts@);
}

/// Turn an access with a quoted name that interpolates nothing into a
/// static access; any other name gives a dynamic access.
pub fn mk_access(access: RichTerm, root: RichTerm) -> (r: RichTerm)
    ensures
        r.pos == TermPos::NoPos,
        match static_str(*access.term) {
            Some(name) => match *r.term {
                Term::Op1(UnaryOp::StaticAccess(id), t) => id.label@ == name && id.pos == access.pos
                    && t == root,
                _ => false,
            },
            Option::None => *r.term == Term::Op2(BinaryOp::DynAccess, access, root),
        },
{
    match access.term.try_str_chunk_as_static_str() {
        Some(label) => RichTerm::new(
            Term::Op1(UnaryOp::StaticAccess(LocIdent::new_with_pos(label, access.pos)), root),
            TermPos::NoPos,
        ),
        None => RichTerm::new(Term::Op2(BinaryOp::DynAccess, access, root), TermPos::NoPos),
    }
}


/// The index that `key_index` gives holds the key.
pub proof fn lemma_key_index_found(entries: Seq<(Seq<char>, Field)>, k: Seq<char>)
    ensures
        key_index(entries, k) matches Some(i) ==> 0 <= i < entries.len() && entries[i].0 == k,
    decreases entries.len(),
{
    if entries.len() > 0 {
        lemma_key_index_found(entries.drop_last(), k);
    }
}

/// A single definition is its own merge.
proof fn lemma_merges_single(f: Field, p: TermPos)
    requires
        f.pending_contracts@.len() == 0,
    ensures
        merges_of(seq![(f, p)], f),
{
    let occs = seq![(f, p)];
    assert(occs.drop_last() =~= Seq::<(Field, TermPos)>::empty());
    assert(occs.last() == (f, p));
    let e = Seq::<(Field, TermPos)>::empty();
    assert(merged_contracts(e) == Seq::<LabeledType>::empty());
    assert(merged_typ(e).is_none());
    assert(valued(e) == Seq::<(RichTerm, TermPos)>::empty());
    assert(merged_contracts(occs) =~= Seq::<LabeledType>::empty() + Seq::<LabeledType>::empty()
        + f.metadata.annotation.contracts@);
    assert(merged_contracts(occs) =~= f.metadata.annotation.contracts@);
    if f.value.is_some() {
        assert(valued(occs) =~= seq![(f.value.unwrap(), p)]);
        assert(merge_chain(valued(occs), f.value.unwrap()));
    } else {
        assert(valued(occs).len() == 0);
    }
    assert(merged_doc(e).is_none());
    assert(merged_doc(occs) == f.metadata.doc);
    assert(merged_typ(occs) == f.metadata.annotation.typ);
    assert(!merged_opt(e));
    assert(merged_opt(occs) == f.metadata.opt);
    assert(!merged_not_exported(e));
    assert(merged_not_exported(occs) == f.metadata.not_exported);
    assert(merged_priority(e) == MergePriority::Neutral);
    assert(merged_priority(occs) == f.metadata.priority);
}

proof fn lemma_key_index_at(entries: Seq<(Seq<char>, Field)>, k: Seq<char>, i: int)
    requires
        0 <= i < entries.len(),
        entries[i].0 == k,
        forall|j: int| 0 <= j < i ==> entries[j].0 != k,
    ensures
        key_index(entries, k) == Some(i),
    decreases entries.len(),
{
    if i < entries.len() - 1 {
        lemma_key_index_at(entries.drop_last(), k, i);
    } else {
        lemma_key_index_absent(entries.drop_last(), k);
    }
}

proof fn lemma_key_index_absent(entries: Seq<(Seq<char>, Field)>, k: Seq<char>)
    requires
        forall|j: int| 0 <= j < entries.len() ==> entries[j].0 != k,
    ensures
        key_index(entries, k).is_none(),
    decreases entries.len(),
{
    if entries.len() > 0 {
        lemma_key_index_absent(entries.drop_last(), k);
    }
}

proof fn lemma_key_index_same_keys(a: Seq<(Seq<char>, Field)>, b: Seq<(Seq<char>, Field)>, k: Seq<char>)
    requires
        a.len() == b.len(),
        forall|j: int| 0 <= j < a.len() ==> a[j].0 == b[j].0,
    ensures
        key_index(a, k) == key_index(b, k),
    decreases a.len(),
{
    if a.len() > 0 {
        lemma_key_index_same_keys(a.drop_last(), b.drop_last(), k);
    }
}

/// A name that `fs` never defines statically has no definition there.
proof fn lemma_absent_name(fs: Seq<(FieldPathElem, Field)>, k: Seq<char>)
    requires
        !static_names(fs).contains(k),
    ensures
        static_occurrences(fs, k).len() == 0,
    decreases fs.len(),
{
    if fs.len() > 0 {
        let prev = static_names(fs.drop_last());
        let names = static_names(fs);
        if prev.contains(k) {
            let w = choose|w: int| 0 <= w < prev.len() && prev[w] == k;
            assert(names[w] == k);
        }
        if elem_static_name(fs.last().0) == Some(k) {
            assert(names[names.len() - 1] == k);
        }
        lemma_absent_name(fs.drop_last(), k);
    }
}

/// Add a definition of static name `name`: merged into the entry of that
/// name when there is one, appended otherwise.
fn insert_static(m: &mut StaticFields, name: String, pos: TermPos, field: Field)
    requires
        field.pending_contracts@.len() == 0,
        forall|j: int| 0 <= j < old(m)@.len() ==> (#[trigger] old(m)@[j]).1.pending_contracts@.len() == 0,
    ensures
        match key_index(old(m)@, name@) {
            Some(i) => {
                &&& final(m)@.len() == old(m)@.len()
                &&& forall|j: int| 0 <= j < old(m)@.len() && j != i ==> final(m)@[j] == old(m)@[j]
                &&& final(m)@[i].0 == old(m)@[i].0
                &&& merged_pair(pos, old(m)@[i].1, field, final(m)@[i].1)
            },
            Option::None => final(m)@ == old(m)@.push((name@, field)),
        },
{
    let ghost before = m@;
    let key = name.clone();
    let (_, prev) = static_fields_insert_full(m, name, Field::empty());
    let ghost middle = m@;
    proof {
        lemma_key_index_found(before, key@);
        match key_index(before, key@) {
            Some(i) => {
                lemma_key_index_same_keys(middle, before, key@);
                assert(before[i].1.pending_contracts@.len() == 0);
            },
            Option::None => {
                assert(middle.drop_last() =~= before);
            },
        }
    }
    match prev {
        Some(p) => {
            let merged = merge_fields(pos, p, field);
            static_fields_insert_full(m, key, merged);
        },
        None => {
            static_fields_insert_full(m, key, field);
            proof {
                assert(m@ =~= before.push((key@, field)));
            }
        },
    }
}

/// The name of a field definition, static or dynamic.
enum FieldName {
    Static(String, TermPos),
    Dynamic(RichTerm),
}

/// Tell static names from dynamic ones: an identifier, or a quoted name
/// that interpolates nothing, is static.
fn classify(elem: FieldPathElem) -> (r: FieldName)
    ensures
        match elem_static_name(elem) {
            Some(name) => r matches FieldName::Static(s, p) && s@ == name && p == elem_pos(elem),
            Option::None => elem matches FieldPathElem::Expr(e) && r == FieldName::Dynamic(e),
        },
{
    match elem {
        FieldPathElem::Ident(id) => FieldName::Static(id.label, id.pos),
        FieldPathElem::Expr(e) => match e.term.try_str_chunk_as_static_str() {
            Some(name) => FieldName::Static(name, e.pos),
            None => FieldName::Dynamic(e),
        },
    }
}

/// `r` is the record built from the definitions `fs`: one static field per
/// distinct static name, in the order of first definition, merging all the
/// definitions of that name; the dynamic definitions in order.
pub open spec fn record_of(fs: Seq<(FieldPathElem, Field)>, attrs: RecordAttrs, r: Term) -> bool {
    match r {
        Term::RecRecord(d, dyns) => {
            let names = static_names(fs);
            let entries = static_entries(d.fields);
            &&& d.attrs == attrs
            &&& entries.len() == names.len()
            &&& forall|i: int|
                0 <= i < names.len() ==> #[trigger] entries[i].0 == names[i] && merges_of(
                    static_occurrences(fs, names[i]),
                    entries[i].1,
                )
            &&& dyns@ == dynamic_fields(fs)
        },
        _ => false,
    }
}

/// Build a record from its field definitions. The definitions of one static
/// name are merged; a quoted name that interpolates nothing counts as
/// static; the other ones stay dynamic, each its own field.
pub fn build_record(fields: Vec<(FieldPathElem, Field)>, attrs: RecordAttrs) -> (r: Term)
    requires
        forall|i: int| 0 <= i < fields@.len() ==> (#[trigger] fields@[i]).1.pending_contracts@.len() == 0,
    ensures
        record_of(fields@, attrs, r),
{
    let ghost all = fields@;
    let n = fields.len();
    let mut static_fields = static_fields_new();
    let mut dynamic: Vec<(RichTerm, Field)> = Vec::new();
    let mut rest = fields;
    let mut k: usize = 0;
    proof {
        assert(all.subrange(0, 0) =~= Seq::<(FieldPathElem, Field)>::empty());
        assert(all.subrange(0, n as int) =~= all);
    }
    while k < n
        invariant
            n == all.len(),
            k <= n,
            rest@ == all.subrange(k as int, n as int),
            forall|i: int| 0 <= i < all.len() ==> (#[trigger] all[i]).1.pending_contracts@.len() == 0,
            static_entries(static_fields).len() == static_names(all.subrange(0, k as int)).len(),
            forall|i: int|
                0 <= i < static_entries(static_fields).len() ==> #[trigger] static_entries(
                    static_fields,
                )[i].0 == static_names(all.subrange(0, k as int))[i] && merges_of(
                    static_occurrences(
                        all.subrange(0, k as int),
                        static_names(all.subrange(0, k as int))[i],
                    ),
                    static_entries(static_fields)[i].1,
                ),
            forall|i: int, j: int|
                0 <= i < j < static_names(all.subrange(0, k as int)).len() ==> static_names(
                    all.subrange(0, k as int),
                )[i] != static_names(all.subrange(0, k as int))[j],
            dynamic@ == dynamic_fields(all.subrange(0, k as int)),
        decreases n - k,
    {
        let ghost prefix = all.subrange(0, k as int);
        let ghost next = all.subrange(0, k as int + 1);
        let ghost entries = static_entries(static_fields);
        let ghost names = static_names(prefix);
        proof {
            assert(next.drop_last() =~= prefix);
            assert(next.last() == all[k as int]);
            assert(rest@[0] == all[k as int]);
            assert(rest@.drop_first() =~= all.subrange(k as int + 1, n as int));
            assert forall|j: int| 0 <= j < entries.len() implies (#[trigger] entries[j]).1.pending_contracts@.len()
                == 0 by {
                assert(entries[j].0 == names[j]);
            }
        }
        let (elem, field) = rest.remove(0);
        assert(field.pending_contracts@.len() == 0);
        let ghost elem_g = elem;
        match classify(elem) {
            FieldName::Dynamic(e) => {
                dynamic.push((e, field));
                proof {
                    assert(elem_static_name(elem_g).is_none());
                    assert(static_names(next) == names);
                    assert forall|k2: Seq<char>| static_occurrences(next, k2) == static_occurrences(prefix, k2) by {}
                    assert(dynamic@ =~= dynamic_fields(next));
                }
            },
            FieldName::Static(name, pos) => {
            let ghost key = name@;
            let ghost f = all[k as int].1;
            proof {
                assert(elem_static_name(elem_g) == Some(key));
                assert(elem_pos(elem_g) == pos);
                assert(static_occurrences(next, key) == static_occurrences(prefix, key).push((f, pos)));
                assert forall|k2: Seq<char>| k2 != key implies static_occurrences(next, k2)
                    == static_occurrences(prefix, k2) by {}
                assert(dynamic_fields(next) == dynamic_fields(prefix));
            }
            proof {
                if names.contains(key) {
                    let i = choose|i: int| 0 <= i < names.len() && names[i] == key;
                    assert forall|j: int| 0 <= j < i implies entries[j].0 != key by {
                        assert(entries[j].0 == names[j]);
                    }
                    lemma_key_index_at(entries, key, i);
                } else {
                    assert forall|j: int| 0 <= j < entries.len() implies entries[j].0 != key by {
                        assert(entries[j].0 == names[j]);
                    }
                    lemma_key_index_absent(entries, key);
                }
            }
            insert_static(&mut static_fields, name, pos, field);
            proof {
                let e2 = static_entries(static_fields);
                let names2 = static_names(next);
                if names.contains(key) {
                    let i = key_index(entries, key).unwrap();
                    assert(names2 == names);
                    lemma_merges_step(static_occurrences(prefix, key), entries[i].1, (f, pos), e2[i].1);
                    assert forall|j: int| 0 <= j < e2.len() implies #[trigger] e2[j].0 == names2[j]
                        && merges_of(static_occurrences(next, names2[j]), e2[j].1) by {
                        if j != i {
                            assert(entries[j].0 == names[j]);
                            assert(names[j] != key);
                        }
                    }
                } else {
                    assert(names2 == names.push(key));
                    lemma_absent_name(prefix, key);
                    assert(static_occurrences(next, key) =~= seq![(f, pos)]);
                    lemma_merges_single(f, pos);
                    assert forall|j: int| 0 <= j < e2.len() implies #[trigger] e2[j].0 == names2[j]
                        && merges_of(static_occurrences(next, names2[j]), e2[j].1) by {
                        if j < entries.len() {
                            assert(entries[j].0 == names[j]);
                            assert(names[j] != key);
                        }
                    }
                    assert forall|a: int, b: int| 0 <= a < b < names2.len() implies names2[a] != names2[b] by {
                        if b == names.len() {
                            assert(names[a] == names2[a]);
                        }
                    }
                }
            }
            },
        }
        k = k + 1;
    }
    Term::RecRecord(RecordData { fields: static_fields, attrs }, dynamic)
}


proof fn lemma_no_doc(occs: Seq<(Field, TermPos)>)
    requires
        forall|j: int| 0 <= j < occs.len() ==> (#[trigger] occs[j]).0.metadata.doc.is_none(),
    ensures
        merged_doc(occs).is_none(),
    decreases occs.len(),
{
    if occs.len() > 0 {
        lemma_no_doc(occs.drop_last());
    }
}

/// The documentation of a field defined piecewise is the first one given:
/// of two definitions documented "A" then "B", the field keeps "A".
pub proof fn lemma_first_doc_wins(occs: Seq<(Field, TermPos)>, r: Field, i: int)
    requires
        merges_of(occs, r),
        0 <= i < occs.len(),
        occs[i].0.metadata.doc.is_some(),
        forall|j: int| 0 <= j < i ==> (#[trigger] occs[j]).0.metadata.doc.is_none(),
    ensures
        r.metadata.doc == occs[i].0.metadata.doc,
    decreases occs.len(),
{
    lemma_merged_doc_first(occs, i);
}

proof fn lemma_merged_doc_first(occs: Seq<(Field, TermPos)>, i: int)
    requires
        0 <= i < occs.len(),
        occs[i].0.metadata.doc.is_some(),
        forall|j: int| 0 <= j < i ==> (#[trigger] occs[j]).0.metadata.doc.is_none(),
    ensures
        merged_doc(occs) == occs[i].0.metadata.doc,
    decreases occs.len(),
{
    let prefix = occs.drop_last();
    if i < occs.len() - 1 {
        assert forall|j: int| 0 <= j < i implies (#[trigger] prefix[j]).0.metadata.doc.is_none() by {
            assert(prefix[j] == occs[j]);
        }
        lemma_merged_doc_first(prefix, i);
    } else {
        assert forall|j: int| 0 <= j < prefix.len() implies (#[trigger] prefix[j]).0.metadata.doc.is_none() by {
            assert(prefix[j] == occs[j]);
        }
        lemma_no_doc(prefix);
    }
}

} // verus!
