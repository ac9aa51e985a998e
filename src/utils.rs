//! Small constructors the grammar calls: numbers, bindings, functions,
//! labels and curried operators.
use vstd::prelude::*;

use malachite::num::conversion::traits::FromSciString;
use vstd::string::StringExecFns;

use codespan::FileId;
use malachite::Rational;

use crate::position::{RawSpan, TermPos};
use crate::term::{
    BinaryOp, FieldPattern, Label, LocIdent, MergeKind, MergeLabel, RichTerm, Term,
    Type, UnaryOp,
};

verus! {

/// A numeric literal that does not denote a number.
#[derive(Clone, Copy, Debug, PartialEq, Eq)]
pub struct ParseNumberError;

/// The number that a literal, possibly in scientific notation, denotes;
/// `None` when it denotes none.
pub uninterp spec fn sci_number(s: Seq<char>) -> Option<Rational>;

/// Relies on malachite's `Rational::from_sci_string`: the exact number that
/// the string denotes (`"0.333"` is 333/1000), `None` when the string does
/// not parse. The result depends on the string alone.
#[verifier::external_body]
fn rational_from_sci_string(slice: &str) -> (r: Option<Rational>)
    ensures
        r == sci_number(slice@),
{
    Rational::from_sci_string(slice)
}

/// Parse a numeric literal as an arbitrary-precision rational.
pub fn parse_number(slice: &str) -> (r: Result<Rational, ParseNumberError>)
    ensures
        match sci_number(slice@) {
            Some(q) => r == Ok::<Rational, ParseNumberError>(q),
            Option::None => r == Err::<Rational, ParseNumberError>(ParseNumberError),
        },
{
    match rational_from_sci_string(slice) {
        Some(q) => Ok(q),
        None => Err(ParseNumberError),
    }
}

/// An error of the parser that this layer reports.
#[derive(Debug)]
pub enum ParseError {
    /// A recursive binding whose left-hand side is a pattern.
    RecursiveLetPattern(RawSpan),
}

/// A case of a match: `id => exp`, or the default case `_ => exp`.
#[derive(Debug)]
pub enum MatchCase {
    Normal(LocIdent, RichTerm),
    Default(RichTerm),
}

/// A piece of a string literal as the lexer hands it over: a string or a
/// single character.
#[derive(Clone, Debug, PartialEq, Eq)]
pub enum ChunkLiteralPart {
    Str(String),
    Char(char),
}

/// Generate a `let` binding, or a `let` with a pattern when the left-hand
/// side is one. A recursive binding with a pattern is refused.
pub fn mk_let(rec: bool, assgn: FieldPattern, t1: RichTerm, t2: RichTerm, span: RawSpan) -> (r:
    Result<RichTerm, ParseError>)
    ensures
        match assgn {
            FieldPattern::Ident(id) => r matches Ok(t) && t.pos == TermPos::NoPos && *t.term
                == Term::Let(id, t1, t2, rec),
            FieldPattern::RecordPattern(pat) => if rec {
                r matches Err(ParseError::RecursiveLetPattern(s)) && s == span
            } else {
                r matches Ok(t) && t.pos == TermPos::NoPos && *t.term == Term::LetPattern(
                    None,
                    pat,
                    t1,
                    t2,
                )
            },
            FieldPattern::AliasedRecordPattern { alias, pattern } => if rec {
                r matches Err(ParseError::RecursiveLetPattern(s)) && s == span
            } else {
                r matches Ok(t) && t.pos == TermPos::NoPos && *t.term == Term::LetPattern(
                    Some(alias),
                    pattern,
                    t1,
                    t2,
                )
            },
        },
{
    match assgn {
        FieldPattern::Ident(id) => Ok(RichTerm::new(Term::Let(id, t1, t2, rec), TermPos::NoPos)),
        FieldPattern::RecordPattern(pat) => {
            if rec {
                Err(ParseError::RecursiveLetPattern(span))
            } else {
                Ok(RichTerm::new(Term::LetPattern(None, pat, t1, t2), TermPos::NoPos))
            }
        },
        FieldPattern::AliasedRecordPattern { alias, pattern } => {
            if rec {
                Err(ParseError::RecursiveLetPattern(span))
            } else {
                Ok(RichTerm::new(Term::LetPattern(Some(alias), pattern, t1, t2), TermPos::NoPos))
            }
        },
    }
}

/// Generate a function, or a function with a pattern when the left-hand
/// side is one.
pub fn mk_fun(assgn: FieldPattern, body: RichTerm) -> (r: Term)
    ensures
        r == match assgn {
            FieldPattern::Ident(id) => Term::Fun(id, body),
            FieldPattern::RecordPattern(pat) => Term::FunPattern(None, pat, body),
            FieldPattern::AliasedRecordPattern { alias, pattern } => Term::FunPattern(
                Some(alias),
                pattern,
                body,
            ),
        },
{
    match assgn {
        FieldPattern::Ident(id) => Term::Fun(id, body),
        FieldPattern::RecordPattern(pat) => Term::FunPattern(None, pat, body),
        FieldPattern::AliasedRecordPattern { alias, pattern } => Term::FunPattern(
            Some(alias),
            pattern,
            body,
        ),
    }
}

/// A label for a type annotation written between two parser offsets.
pub fn mk_label(typ: Type, src_id: FileId, l: usize, r: usize) -> (res: Label)
    ensures
        res == (Label {
            typ,
            span: Some(RawSpan { src_id, start: l as u32, end: r as u32 }),
            field_name: None,
        }),
{
    Label { typ, span: Some(crate::position::mk_span(src_id, l, r)), field_name: None }
}

/// A label for a merge written between two parser offsets.
pub fn mk_merge_label(src_id: FileId, l: usize, r: usize) -> (res: MergeLabel)
    ensures
        res == (MergeLabel {
            span: TermPos::Original(RawSpan { src_id, start: l as u32, end: r as u32 }),
            kind: MergeKind::Standard,
        }),
{
    MergeLabel { span: crate::position::mk_pos(src_id, l, r), kind: MergeKind::Standard }
}

/// An operator that is not applied, as in the curried syntax `(==)`.
#[derive(Debug)]
pub enum InfixOp {
    Unary(UnaryOp),
    Binary(BinaryOp),
}

impl From<UnaryOp> for InfixOp {
    fn from(op: UnaryOp) -> (r: InfixOp) {
        InfixOp::Unary(op)
    }
}

impl vstd::std_specs::convert::FromSpecImpl<UnaryOp> for InfixOp {
    open spec fn obeys_from_spec() -> bool {
        true
    }

    open spec fn from_spec(op: UnaryOp) -> InfixOp {
        InfixOp::Unary(op)
    }
}

impl From<BinaryOp> for InfixOp {
    fn from(op: BinaryOp) -> (r: InfixOp) {
        InfixOp::Binary(op)
    }
}

impl vstd::std_specs::convert::FromSpecImpl<BinaryOp> for InfixOp {
    open spec fn obeys_from_spec() -> bool {
        true
    }

    open spec fn from_spec(op: BinaryOp) -> InfixOp {
        InfixOp::Binary(op)
    }
}

/// `t` is the generated variable `name`.
pub open spec fn is_var(t: RichTerm, name: Seq<char>) -> bool {
    &&& t.pos == TermPos::NoPos
    &&& *t.term matches Term::Var(id) && id.label@ == name && id.pos == TermPos::NoPos
}

/// The body of `t` when `t` is the generated function of parameter `name`.
pub open spec fn fun_body(t: RichTerm, name: Seq<char>) -> Option<RichTerm> {
    match *t.term {
        Term::Fun(id, body) => if t.pos == TermPos::NoPos && id.label@ == name && id.pos
            == TermPos::NoPos {
            Some(body)
        } else {
            None
        },
        _ => None,
    }
}

/// `and` and `or` take their second operand lazily: they are unary
/// operators applied twice.
pub open spec fn is_lazy_bool_op(op: UnaryOp) -> bool {
    op is BoolAnd || op is BoolOr
}

/// `r` is `fun x1 x2 => (op x1) x2`, its body at `pos`.
pub open spec fn lazy_expansion(r: RichTerm, op: UnaryOp, pos: TermPos) -> bool {
    match fun_body(r, "x1"@) {
        Some(b1) => match fun_body(b1, "x2"@) {
            Some(b2) => b2.pos == pos && match *b2.term {
                Term::App(f, a) => f.pos == TermPos::NoPos && is_var(a, "x2"@) && match *f.term {
                    Term::Op1(o, x) => o == op && is_var(x, "x1"@),
                    _ => false,
                },
                _ => false,
            },
            Option::None => false,
        },
        Option::None => false,
    }
}

/// `r` is `fun x => op x`, its body at `pos`.
pub open spec fn unary_expansion(r: RichTerm, op: UnaryOp, pos: TermPos) -> bool {
    match fun_body(r, "x"@) {
        Some(b) => b.pos == pos && match *b.term {
            Term::Op1(o, x) => o == op && is_var(x, "x"@),
            _ => false,
        },
        Option::None => false,
    }
}

/// `r` is `fun x1 x2 => op x1 x2`, its body at `pos`.
pub open spec fn binary_expansion(r: RichTerm, op: BinaryOp, pos: TermPos) -> bool {
    match fun_body(r, "x1"@) {
        Some(b1) => match fun_body(b1, "x2"@) {
            Some(b2) => b2.pos == pos && match *b2.term {
                Term::Op2(o, x, y) => o == op && is_var(x, "x1"@) && is_var(y, "x2"@),
                _ => false,
            },
            Option::None => false,
        },
        Option::None => false,
    }
}

fn ident(name: &str) -> (r: LocIdent)
    ensures
        r.label@ == name@,
        r.pos == TermPos::NoPos,
{
    LocIdent { label: <String as StringExecFns>::from_str(name), pos: TermPos::NoPos }
}

fn var(name: &str) -> (r: RichTerm)
    ensures
        is_var(r, name@),
{
    RichTerm::new(Term::Var(ident(name)), TermPos::NoPos)
}

fn fun(name: &str, body: RichTerm) -> (r: RichTerm)
    ensures
        fun_body(r, name@) == Some(body),
{
    RichTerm::new(Term::Fun(ident(name), body), TermPos::NoPos)
}

impl InfixOp {
    /// Eta-expand an operator: `==` becomes `fun x1 x2 => x1 == x2`. The
    /// body gets the given position, as an inherited one.
    pub fn eta_expand(self, pos: TermPos) -> (r: RichTerm)
        ensures
            match self {
                InfixOp::Unary(op) => if is_lazy_bool_op(op) {
                    lazy_expansion(r, op, pos.into_inherited_spec())
                } else {
                    unary_expansion(r, op, pos.into_inherited_spec())
                },
                InfixOp::Binary(op) => binary_expansion(r, op, pos.into_inherited_spec()),
            },
    {
        let pos = pos.into_inherited();
        match self {
            InfixOp::Unary(op) => {
                if matches!(op, UnaryOp::BoolAnd) || matches!(op, UnaryOp::BoolOr) {
                    let applied = RichTerm::new(Term::Op1(op, var("x1")), TermPos::NoPos);
                    let body = RichTerm::new(Term::App(applied, var("x2")), pos);
                    fun("x1", fun("x2", body))
                } else {
                    fun("x", RichTerm::new(Term::Op1(op, var("x")), pos))
                }
            },
            InfixOp::Binary(op) => {
                let body = RichTerm::new(Term::Op2(op, var("x1"), var("x2")), pos);
                fun("x1", fun("x2", body))
            },
        }
    }
}

} // verus!
