//! Combination of the annotations that two occurrences of one binder carry.
//! The combination is ordered: the left annotation comes from the earlier or
//! outer occurrence and wins where the two cannot be merged.
use vstd::prelude::*;

use crate::term::{
    Field, FieldMetadata, LetMetadata, MergePriority, RichTerm, Term,
    TypeAnnotation, UnaryOp,
};

verus! {

/// Annotations that two occurrences of a binder may each carry, and that
/// combine into one.
pub trait Combine: Sized {
    /// `r` is the combination of `left` and `right`.
    spec fn combined(left: Self, right: Self, r: Self) -> bool;

    fn combine(left: Self, right: Self) -> (r: Self)
        ensures
            Self::combined(left, right, r),
    ;
}

/// Whether `a` ranks at most `b` among explicit priorities: `Bottom` first,
/// then the numeric levels in their order, then `Top`.
pub open spec fn priority_le(a: MergePriority, b: MergePriority) -> bool {
    match (a, b) {
        (MergePriority::Numeral(x), MergePriority::Numeral(y)) => x <= y,
        _ => priority_rank(a) <= priority_rank(b),
    }
}

pub open spec fn priority_rank(p: MergePriority) -> int {
    match p {
        MergePriority::Bottom => 0,
        MergePriority::Neutral => 1,
        MergePriority::Numeral(_) => 2,
        MergePriority::Top => 3,
    }
}

/// The priority of a combined field: an explicit priority wins over
/// `Neutral`; of two explicit ones the greater wins.
pub open spec fn combine_priority_spec(l: MergePriority, r: MergePriority) -> MergePriority {
    match (l, r) {
        (MergePriority::Neutral, p) => p,
        (p, MergePriority::Neutral) => p,
        (left_p, right_p) => if priority_le(left_p, right_p) {
            right_p
        } else {
            left_p
        },
    }
}

pub fn combine_priority(l: MergePriority, r: MergePriority) -> (p: MergePriority)
    ensures
        p == combine_priority_spec(l, r),
{
    match (l, r) {
        (MergePriority::Neutral, p) => p,
        (p, MergePriority::Neutral) => p,
        (left_p, right_p) => {
            let le = match (left_p, right_p) {
                (MergePriority::Numeral(x), MergePriority::Numeral(y)) => x <= y,
                _ => rank(left_p) <= rank(right_p),
            };
            if le {
                right_p
            } else {
                left_p
            }
        },
    }
}

fn rank(p: MergePriority) -> (r: u8)
    ensures
        r as int == priority_rank(p),
{
    match p {
        MergePriority::Bottom => 0,
        MergePriority::Neutral => 1,
        MergePriority::Numeral(_) => 2,
        MergePriority::Top => 3,
    }
}

/// The first of two optional values that is present.
pub open spec fn first_some<T>(l: Option<T>, r: Option<T>) -> Option<T> {
    if l.is_some() {
        l
    } else {
        r
    }
}

fn or_else<T>(l: Option<T>, r: Option<T>) -> (res: Option<T>)
    ensures
        res == first_some(l, r),
{
    match l {
        Some(x) => Some(x),
        None => r,
    }
}

impl<T: Combine> Combine for Option<T> {
    /// If at most one side is present it is kept; two present values are
    /// combined.
    open spec fn combined(left: Self, right: Self, r: Self) -> bool {
        match (left, right) {
            (Some(a), Some(b)) => r.is_some() && T::combined(a, b, r.unwrap()),
            (Some(a), Option::None) => r == Some(a),
            (Option::None, b) => r == b,
        }
    }

    fn combine(left: Self, right: Self) -> (r: Self) {
        match (left, right) {
            (Some(a), Some(b)) => Some(T::combine(a, b)),
            (Some(a), None) => Some(a),
            (None, b) => b,
        }
    }
}

impl Combine for TypeAnnotation {
    /// When both declare a type, the left one stays the type and the right
    /// one becomes a contract. Contracts come in this order: the left ones,
    /// the demoted right type, the right ones.
    open spec fn combined(left: Self, right: Self, r: Self) -> bool {
        match (left.typ, right.typ) {
            (Some(lt), Some(rt)) => {
                &&& r.typ == Some(lt)
                &&& r.contracts@ == left.contracts@ + seq![rt] + right.contracts@
            },
            _ => {
                &&& r.typ == first_some(left.typ, right.typ)
                &&& r.contracts@ == left.contracts@ + right.contracts@
            },
        }
    }

    fn combine(left: Self, right: Self) -> (r: Self) {
        let TypeAnnotation { typ: ltyp, contracts: lcontracts } = left;
        let TypeAnnotation { typ: rtyp, contracts: rcontracts } = right;
        let mut contracts = lcontracts;
        let mut rest = rcontracts;
        let ghost l0 = contracts@;
        let ghost r0 = rest@;
        let typ = match (ltyp, rtyp) {
            (Some(lt), Some(rt)) => {
                contracts.push(rt);
                contracts.append(&mut rest);
                assert(contracts@ =~= l0 + seq![rt] + r0);
                Some(lt)
            },
            (lt, rt) => {
                contracts.append(&mut rest);
                assert(contracts@ =~= l0 + r0);
                or_else(lt, rt)
            },
        };
        TypeAnnotation { typ, contracts }
    }
}

impl Combine for FieldMetadata {
    /// The left documentation wins; annotations combine; the flags are
    /// or-ed; priorities combine by [`combine_priority_spec`].
    open spec fn combined(left: Self, right: Self, r: Self) -> bool {
        &&& r.doc == first_some(left.doc, right.doc)
        &&& TypeAnnotation::combined(left.annotation, right.annotation, r.annotation)
        &&& r.opt == (left.opt || right.opt)
        &&& r.not_exported == (left.not_exported || right.not_exported)
        &&& r.priority == combine_priority_spec(left.priority, right.priority)
    }

    fn combine(left: Self, right: Self) -> (r: Self) {
        let priority = combine_priority(left.priority, right.priority);
        FieldMetadata {
            doc: or_else(left.doc, right.doc),
            annotation: TypeAnnotation::combine(left.annotation, right.annotation),
            opt: left.opt || right.opt,
            not_exported: left.not_exported || right.not_exported,
            priority,
        }
    }
}

impl Combine for LetMetadata {
    /// The left documentation wins; annotations combine.
    open spec fn combined(left: Self, right: Self, r: Self) -> bool {
        &&& r.doc == first_some(left.doc, right.doc)
        &&& TypeAnnotation::combined(left.annotation, right.annotation, r.annotation)
    }

    fn combine(left: Self, right: Self) -> (r: Self) {
        LetMetadata {
            doc: or_else(left.doc, right.doc),
            annotation: TypeAnnotation::combine(left.annotation, right.annotation),
        }
    }
}


/// Annotations that, given a term, build a term or a field around it.
pub trait AttachTerm<T>: Sized {
    /// `r` is what attaching `self` to `rt` builds.
    spec fn attached(self, rt: RichTerm, r: T) -> bool;

    fn attach_term(self, rt: RichTerm) -> (r: T)
        ensures
            self.attached(rt, r),
    ;
}

impl AttachTerm<Field> for FieldMetadata {
    /// A field with the term as value and these metadata.
    open spec fn attached(self, rt: RichTerm, r: Field) -> bool {
        r.value == Some(rt) && r.metadata == self && r.pending_contracts@.len() == 0
    }

    fn attach_term(self, rt: RichTerm) -> (r: Field) {
        Field { value: Some(rt), metadata: self, pending_contracts: Vec::new() }
    }
}

impl AttachTerm<RichTerm> for TypeAnnotation {
    /// The term itself when the annotation is empty, else the term under
    /// the annotation, at the term's position.
    open spec fn attached(self, rt: RichTerm, r: RichTerm) -> bool {
        if self.is_empty_spec() {
            r == rt
        } else {
            r.pos == rt.pos && *r.term == Term::Annotated(self, rt)
        }
    }

    fn attach_term(self, rt: RichTerm) -> (r: RichTerm) {
        if self.is_empty() {
            return rt;
        }
        let pos = rt.pos;
        RichTerm::new(Term::Annotated(self, rt), pos)
    }
}

/// The metadata of a field: the given ones, combined with a `Bottom`
/// priority when there is a default value.
pub fn metadata_with_default(anns: Option<FieldMetadata>, default: Option<RichTerm>) -> (r: Field)
    ensures
        r.value == default,
        r.pending_contracts@.len() == 0,
        match anns {
            Some(m) => {
                &&& r.metadata.doc == m.doc
                &&& r.metadata.annotation.typ == m.annotation.typ
                &&& r.metadata.annotation.contracts@ == m.annotation.contracts@
                &&& r.metadata.opt == m.opt
                &&& r.metadata.not_exported == m.not_exported
                &&& r.metadata.priority == if default.is_some() {
                    combine_priority_spec(m.priority, MergePriority::Bottom)
                } else {
                    m.priority
                }
            },
            Option::None => {
                &&& r.metadata.doc.is_none()
                &&& r.metadata.annotation.is_empty_spec()
                &&& !r.metadata.opt
                &&& !r.metadata.not_exported
                &&& r.metadata.priority == if default.is_some() {
                    MergePriority::Bottom
                } else {
                    MergePriority::Neutral
                }
            },
        },
{
    let with_default = if default.is_some() {
        let mut m = FieldMetadata::new();
        m.priority = MergePriority::Bottom;
        Some(m)
    } else {
        None
    };
    let metadata = match Option::<FieldMetadata>::combine(anns, with_default) {
        Some(m) => m,
        None => FieldMetadata::new(),
    };
    proof {
        if anns.is_some() && default.is_some() {
            assert(metadata.annotation.contracts@ =~= anns.unwrap().annotation.contracts@);
        }
    }
    Field { value: default, metadata, pending_contracts: Vec::new() }
}

/// Field annotations extended with the constructs that the metadata pipe
/// `|` introduces without being metadata: `rec force` and `rec default`.
#[derive(Debug)]
pub struct FieldExtAnnot {
    /// Standard metadata.
    pub metadata: FieldMetadata,
    /// Presence of an annotation `rec force`.
    pub rec_force: bool,
    /// Presence of an annotation `rec default`.
    pub rec_default: bool,
}

impl FieldExtAnnot {
    /// Annotations that declare nothing.
    pub fn new() -> (r: FieldExtAnnot)
        ensures
            r.metadata.doc.is_none(),
            r.metadata.annotation.is_empty_spec(),
            !r.metadata.opt,
            !r.metadata.not_exported,
            r.metadata.priority == MergePriority::Neutral,
            !r.rec_force,
            !r.rec_default,
    {
        FieldExtAnnot { metadata: FieldMetadata::new(), rec_force: false, rec_default: false }
    }
}

impl Combine for FieldExtAnnot {
    /// The metadata combine; the flags are or-ed.
    open spec fn combined(left: Self, right: Self, r: Self) -> bool {
        &&& FieldMetadata::combined(left.metadata, right.metadata, r.metadata)
        &&& r.rec_force == (left.rec_force || right.rec_force)
        &&& r.rec_default == (left.rec_default || right.rec_default)
    }

    fn combine(left: Self, right: Self) -> (r: Self) {
        let metadata = FieldMetadata::combine(left.metadata, right.metadata);
        FieldExtAnnot {
            metadata,
            rec_force: left.rec_force || right.rec_force,
            rec_default: left.rec_default || right.rec_default,
        }
    }
}

impl AttachTerm<Field> for FieldExtAnnot {
    /// A field with these metadata whose value is the term, under the
    /// operator that forces (`rec force`, which wins) or defaults
    /// (`rec default`) the recursive fields, at the term's position.
    open spec fn attached(self, value: RichTerm, r: Field) -> bool {
        &&& r.metadata == self.metadata
        &&& r.pending_contracts@.len() == 0
        &&& if self.rec_force || self.rec_default {
            let op = if self.rec_force {
                UnaryOp::RecForce
            } else {
                UnaryOp::RecDefault
            };
            r.value.is_some() && r.value.unwrap().pos == value.pos && *r.value.unwrap().term
                == Term::Op1(op, value)
        } else {
            r.value == Some(value)
        }
    }

    fn attach_term(self, value: RichTerm) -> (r: Field) {
        let value = if self.rec_force || self.rec_default {
            let op = if self.rec_force {
                UnaryOp::RecForce
            } else {
                UnaryOp::RecDefault
            };
            let pos = value.pos;
            Some(RichTerm::new(Term::Op1(op, value), pos))
        } else {
            Some(value)
        };
        Field { value, metadata: self.metadata, pending_contracts: Vec::new() }
    }
}

impl From<FieldMetadata> for FieldExtAnnot {
    fn from(metadata: FieldMetadata) -> (r: FieldExtAnnot) {
        FieldExtAnnot { metadata, rec_force: false, rec_default: false }
    }
}

impl vstd::std_specs::convert::FromSpecImpl<FieldMetadata> for FieldExtAnnot {
    open spec fn obeys_from_spec() -> bool {
        true
    }

    open spec fn from_spec(metadata: FieldMetadata) -> FieldExtAnnot {
        FieldExtAnnot { metadata, rec_force: false, rec_default: false }
    }
}

} // verus!
