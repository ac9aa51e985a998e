//! Source positions: spans inside a source file and the optional positions
//! carried by terms.
use vstd::prelude::*;

use codespan::FileId;

verus! {

#[verifier::external_type_specification]
#[verifier::external_body]
pub struct ExFileId(codespan::FileId);

/// Relies on the `PartialEq` that codespan derives for `FileId`: two handles
/// are equal exactly when they designate the same file.
#[verifier::external_body]
fn same_file(a: &FileId, b: &FileId) -> (r: bool)
    ensures
        r == (*a == *b),
{
    a == b
}

/// A span of bytes `[start, end)` in a given source file.
#[derive(Clone, Copy, Debug, PartialEq, Eq)]
pub struct RawSpan {
    pub src_id: FileId,
    pub start: u32,
    pub end: u32,
}

/// The position of a term: taken from the source, inherited from an
/// enclosing term, or absent for generated terms.
#[derive(Clone, Copy, Debug, PartialEq, Eq)]
pub enum TermPos {
    Original(RawSpan),
    Inherited(RawSpan),
    NoPos,
}

/// The smallest span covering both arguments, when they lie in one file.
pub open spec fn spec_fuse(a: RawSpan, b: RawSpan) -> Option<RawSpan> {
    if a.src_id == b.src_id {
        Some(
            RawSpan {
                src_id: a.src_id,
                start: if a.start <= b.start { a.start } else { b.start },
                end: if a.end >= b.end { a.end } else { b.end },
            },
        )
    } else {
        None
    }
}

impl RawSpan {
    /// Fuse two spans into the smallest span covering both; `None` when they
    /// belong to different files.
    pub fn fuse(a: RawSpan, b: RawSpan) -> (r: Option<RawSpan>)
        ensures
            r == spec_fuse(a, b),
    {
        if same_file(&a.src_id, &b.src_id) {
            let start = if a.start <= b.start { a.start } else { b.start };
            let end = if a.end >= b.end { a.end } else { b.end };
            Some(RawSpan { src_id: a.src_id, start, end })
        } else {
            None
        }
    }
}

impl TermPos {
    /// The span of a defined position.
    pub open spec fn span(self) -> Option<RawSpan> {
        match self {
            TermPos::Original(s) => Some(s),
            TermPos::Inherited(s) => Some(s),
            TermPos::NoPos => None,
        }
    }

    /// The span of a defined position, `None` otherwise.
    pub fn as_opt_span(&self) -> (r: Option<RawSpan>)
        ensures
            r == self.span(),
    {
        match self {
            TermPos::Original(s) => Some(*s),
            TermPos::Inherited(s) => Some(*s),
            TermPos::NoPos => None,
        }
    }

    pub open spec fn into_inherited_spec(self) -> TermPos {
        match self {
            TermPos::Original(s) => TermPos::Inherited(s),
            p => p,
        }
    }

    /// Turn an original position into an inherited one; other positions are
    /// kept.
    pub fn into_inherited(self) -> (r: TermPos)
        ensures
            r == self.into_inherited_spec(),
    {
        match self {
            TermPos::Original(s) => TermPos::Inherited(s),
            p => p,
        }
    }
}

/// Make a span from parser byte offsets. Offsets are stored on 32 bits, as
/// the source database does.
pub fn mk_span(src_id: FileId, l: usize, r: usize) -> (res: RawSpan)
    ensures
        res.src_id == src_id,
        res.start == l as u32,
        res.end == r as u32,
{
    RawSpan { src_id, start: l as u32, end: r as u32 }
}

/// Make an original position from parser byte offsets.
pub fn mk_pos(src_id: FileId, l: usize, r: usize) -> (res: TermPos)
    ensures
        res == TermPos::Original(RawSpan { src_id, start: l as u32, end: r as u32 }),
{
    TermPos::Original(mk_span(src_id, l, r))
}

} // verus!
