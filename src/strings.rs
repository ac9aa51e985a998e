//! String literals: delimiters, and the removal of the common indentation of
//! multi-line strings.
use vstd::prelude::*;
use vstd::string::StrSliceExecFns;

use crate::term::{RichTerm, StrChunk};

verus! {

/// The opening delimiter of a string: `"`, `m%"`, or a symbolic `tag-s%"`.
#[derive(Clone, Copy, Debug, PartialEq, Eq)]
pub enum StringStartDelimiter<'input> {
    Standard,
    Multiline,
    Symbolic(&'input str),
}

/// The closing delimiter of a string: `"` or `"%`.
#[derive(Clone, Copy, Debug, PartialEq, Eq)]
pub enum StringEndDelimiter {
    Standard,
    Special,
}

impl StringStartDelimiter<'_> {
    /// Whether `close` ends a string opened by this delimiter: a standard
    /// string ends with `"`, the other ones with `"%`.
    pub fn is_closed_by(&self, close: &StringEndDelimiter) -> (r: bool)
        ensures
            r == (match (*self, *close) {
                (StringStartDelimiter::Standard, StringEndDelimiter::Standard) => true,
                (StringStartDelimiter::Multiline, StringEndDelimiter::Special) => true,
                (StringStartDelimiter::Symbolic(_), StringEndDelimiter::Special) => true,
                _ => false,
            }),
    {
        match (self, close) {
            (StringStartDelimiter::Standard, StringEndDelimiter::Standard) => true,
            (StringStartDelimiter::Multiline, StringEndDelimiter::Special) => true,
            (StringStartDelimiter::Symbolic(_), StringEndDelimiter::Special) => true,
            _ => false,
        }
    }

    /// Whether the string's common indentation is stripped: it is for every
    /// string but the standard one.
    pub fn needs_strip_indent(&self) -> (r: bool)
        ensures
            r == !(*self is Standard),
    {
        match self {
            StringStartDelimiter::Standard => false,
            StringStartDelimiter::Multiline | StringStartDelimiter::Symbolic(_) => true,
        }
    }
}

/// What a chunk holds: its text, or its expression and indentation.
pub enum ChunkView {
    Text(Seq<char>),
    Interp(RichTerm, int),
}

pub open spec fn chunk_view(c: StrChunk) -> ChunkView {
    match c {
        StrChunk::Literal(s) => ChunkView::Text(s@),
        StrChunk::Expr(t, n) => ChunkView::Interp(t, n as int),
    }
}

pub open spec fn chunk_views(cs: Seq<StrChunk>) -> Seq<ChunkView> {
    cs.map_values(|c: StrChunk| chunk_view(c))
}

pub open spec fn is_blank(c: char) -> bool {
    c == ' ' || c == '\t'
}

/// One more column. A column counts characters held in memory, so it never
/// reaches `usize::MAX`; the count stops there all the same.
pub open spec fn next_col(n: int) -> int {
    if n < usize::MAX {
        n + 1
    } else {
        n
    }
}

fn next_col_exec(n: usize) -> (r: usize)
    ensures
        r == next_col(n as int),
{
    if n < usize::MAX {
        n + 1
    } else {
        n
    }
}

/// The state of the scan that measures indentation: the column on the
/// current line, whether only whitespace was met on it so far, and the least
/// indentation of a meaningful line so far.
pub struct IndentScan {
    pub col: int,
    pub at_start: bool,
    pub min: int,
}

/// The first character or expression of a line fixes its indentation.
pub open spec fn indent_mark(st: IndentScan) -> IndentScan {
    IndentScan {
        col: st.col,
        at_start: false,
        min: if st.col < st.min {
            st.col
        } else {
            st.min
        },
    }
}

pub open spec fn indent_step_char(st: IndentScan, c: char) -> IndentScan {
    if st.at_start && is_blank(c) {
        IndentScan { col: next_col(st.col), at_start: true, min: st.min }
    } else if c == '\n' {
        IndentScan { col: 0, at_start: true, min: st.min }
    } else if st.at_start {
        indent_mark(st)
    } else {
        st
    }
}

pub open spec fn indent_scan_text(st: IndentScan, s: Seq<char>) -> IndentScan
    decreases s.len(),
{
    if s.len() == 0 {
        st
    } else {
        indent_step_char(indent_scan_text(st, s.drop_last()), s.last())
    }
}

pub open spec fn indent_step_chunk(st: IndentScan, c: ChunkView) -> IndentScan {
    match c {
        ChunkView::Text(s) => indent_scan_text(st, s),
        ChunkView::Interp(_, _) => if st.at_start {
            indent_mark(st)
        } else {
            st
        },
    }
}

pub open spec fn indent_scan(cs: Seq<ChunkView>) -> IndentScan
    decreases cs.len(),
{
    if cs.len() == 0 {
        IndentScan { col: 0, at_start: true, min: usize::MAX as int }
    } else {
        indent_step_chunk(indent_scan(cs.drop_last()), cs.last())
    }
}

/// The least indentation of the meaningful lines of a string, that is of
/// the lines that hold a non-blank character or an expression; `usize::MAX`
/// when there is none.
pub open spec fn spec_min_indent(cs: Seq<ChunkView>) -> int {
    indent_scan(cs).min
}

/// Determine the minimal level of indentation of a multi-line string. The
/// indentation of a line is the number of spaces and tabs that start it;
/// blank lines are ignored.
pub fn min_indent(chunks: &[StrChunk]) -> (r: usize)
    ensures
        r == spec_min_indent(chunk_views(chunks@)),
{
    let ghost views = chunk_views(chunks@);
    let mut min: usize = usize::MAX;
    let mut current: usize = 0;
    let mut start_line = true;
    let mut k: usize = 0;
    while k < chunks.len()
        invariant
            k <= chunks@.len(),
            views == chunk_views(chunks@),
            (IndentScan { col: current as int, at_start: start_line, min: min as int })
                == indent_scan(views.subrange(0, k as int)),
        decreases chunks@.len() - k,
    {
        proof {
            assert(views.subrange(0, k as int + 1).drop_last() =~= views.subrange(0, k as int));
        }
        match &chunks[k] {
            StrChunk::Expr(_, _) => {
                if start_line {
                    if current < min {
                        min = current;
                    }
                    start_line = false;
                }
            },
            StrChunk::Literal(s) => {
                let len = s.as_str().unicode_len();
                let ghost st0 = IndentScan { col: current as int, at_start: start_line, min: min as int };
                let mut j: usize = 0;
                while j < len
                    invariant
                        j <= len,
                        len == s@.len(),
                        (IndentScan { col: current as int, at_start: start_line, min: min as int })
                            == indent_scan_text(st0, s@.subrange(0, j as int)),
                    decreases len - j,
                {
                    proof {
                        assert(s@.subrange(0, j as int + 1).drop_last() =~= s@.subrange(0, j as int));
                    }
                    let c = s.as_str().get_char(j);
                    if start_line && (c == ' ' || c == '\t') {
                        current = next_col_exec(current);
                    } else if c == '\n' {
                        current = 0;
                        start_line = true;
                    } else if start_line {
                        if current < min {
                            min = current;
                        }
                        start_line = false;
                    }
                    j = j + 1;
                }
                proof {
                    assert(s@.subrange(0, len as int) =~= s@);
                }
            },
        }
        k = k + 1;
    }
    proof {
        assert(views.subrange(0, k as int) =~= views);
    }
    min
}


/// The state of the stripping scan: the column on the current line, whether
/// only whitespace was met on it so far, the index of an expression that is
/// so far the sole occupant of the line, and the indices of the expressions
/// whose indentation is reset at the end.
pub struct StripScan {
    pub col: int,
    pub at_start: bool,
    pub pending: Option<int>,
    pub zeroed: Seq<int>,
}

/// A second occupant of the line: the pending expression loses its
/// indentation.
pub open spec fn strip_flush(st: StripScan) -> StripScan {
    match st.pending {
        Some(e) => StripScan { col: st.col, at_start: st.at_start, pending: None, zeroed: st.zeroed.push(e) },
        Option::None => st,
    }
}

/// One character: what it contributes to the output, and the next state.
pub open spec fn strip_step_char(st: StripScan, c: char, min: int) -> (Seq<char>, StripScan) {
    if st.at_start && is_blank(c) && st.col < min {
        (Seq::empty(), StripScan { col: next_col(st.col), ..st })
    } else if st.at_start && is_blank(c) {
        (seq![c], StripScan { col: next_col(st.col), ..st })
    } else if c == '\n' {
        (seq![c], StripScan { col: 0, at_start: true, pending: None, zeroed: st.zeroed })
    } else if st.at_start {
        (seq![c], StripScan { at_start: false, ..st })
    } else if is_blank(c) {
        (seq![c], st)
    } else {
        (seq![c], strip_flush(st))
    }
}

pub open spec fn strip_scan_text(st: StripScan, s: Seq<char>, min: int) -> (Seq<char>, StripScan)
    decreases s.len(),
{
    if s.len() == 0 {
        (Seq::empty(), st)
    } else {
        let (out, st1) = strip_scan_text(st, s.drop_last(), min);
        let (o, st2) = strip_step_char(st1, s.last(), min);
        (out + o, st2)
    }
}

/// The text with its first line removed, when that line is blank.
pub open spec fn trim_first_line(b: Seq<char>) -> Seq<char> {
    if exists|k: int| is_first_newline(b, k) {
        let k = choose|k: int| is_first_newline(b, k);
        if forall|j: int| 0 <= j < k ==> is_blank(b[j]) {
            b.subrange(k + 1, b.len() as int)
        } else {
            b
        }
    } else {
        b
    }
}

/// The text with its last line removed, newline included, when that line
/// is blank.
pub open spec fn trim_last_line(b: Seq<char>) -> Seq<char> {
    if exists|k: int| is_last_newline(b, k) {
        let k = choose|k: int| is_last_newline(b, k);
        if forall|j: int| k < j < b.len() ==> is_blank(b[j]) {
            b.subrange(0, k)
        } else {
            b
        }
    } else {
        b
    }
}

pub open spec fn is_first_newline(b: Seq<char>, k: int) -> bool {
    0 <= k < b.len() && b[k] == '\n' && forall|j: int| 0 <= j < k ==> b[j] != '\n'
}

pub open spec fn is_last_newline(b: Seq<char>, k: int) -> bool {
    0 <= k < b.len() && b[k] == '\n' && forall|j: int| k < j < b.len() ==> b[j] != '\n'
}

/// The indentation an expression that starts its line is rendered with.
pub open spec fn relative_col(col: int, min: int) -> int {
    if col >= min {
        col - min
    } else {
        0
    }
}

/// Chunk `k` of `n`: its output and the next state.
pub open spec fn strip_step_chunk(st: StripScan, c: ChunkView, k: int, n: int, min: int) -> (
    ChunkView,
    StripScan,
) {
    match c {
        ChunkView::Text(s) => {
            let (b, st1) = strip_scan_text(st, s, min);
            let b1 = if k == 0 {
                trim_first_line(b)
            } else {
                b
            };
            let b2 = if k == n - 1 {
                trim_last_line(b1)
            } else {
                b1
            };
            (ChunkView::Text(b2), st1)
        },
        ChunkView::Interp(t, i) => if st.at_start {
            (
                ChunkView::Interp(t, relative_col(st.col, min)),
                StripScan { col: st.col, at_start: false, pending: Some(k), zeroed: st.zeroed },
            )
        } else {
            (ChunkView::Interp(t, i), strip_flush(st))
        },
    }
}

/// The scan of the first `cs.len()` chunks of a string of `n` chunks.
pub open spec fn strip_scan(cs: Seq<ChunkView>, n: int, min: int) -> (Seq<ChunkView>, StripScan)
    decreases cs.len(),
{
    if cs.len() == 0 {
        (Seq::empty(), StripScan { col: 0, at_start: true, pending: None, zeroed: Seq::empty() })
    } else {
        let (out, st) = strip_scan(cs.drop_last(), n, min);
        let (c, st1) = strip_step_chunk(st, cs.last(), cs.len() - 1, n, min);
        (out.push(c), st1)
    }
}

pub open spec fn unindented(c: ChunkView) -> ChunkView {
    match c {
        ChunkView::Interp(t, _) => ChunkView::Interp(t, 0),
        other => other,
    }
}

/// The chunks whose index is listed in `z` lose their indentation.
pub open spec fn zero_out(cs: Seq<ChunkView>, z: Seq<int>) -> Seq<ChunkView> {
    Seq::new(cs.len(), |i: int| if z.contains(i) { unindented(cs[i]) } else { cs[i] })
}

/// A multi-line string with its common indentation removed.
pub open spec fn spec_strip_indent(cs: Seq<ChunkView>) -> Seq<ChunkView> {
    if cs.len() == 0 {
        cs
    } else {
        let (out, st) = strip_scan(cs, cs.len() as int, spec_min_indent(cs));
        zero_out(out, st.zeroed)
    }
}

pub open spec fn strip_state(col: usize, at_start: bool, pending: Option<usize>, unindent: Seq<usize>) -> StripScan {
    StripScan {
        col: col as int,
        at_start,
        pending: match pending {
            Some(e) => Some(e as int),
            Option::None => None,
        },
        zeroed: unindent.map_values(|u: usize| u as int),
    }
}

/// Relies on `String::push`: the character is appended.
#[verifier::external_body]
fn push_char(s: &mut String, c: char)
    ensures
        final(s)@ == old(s)@.push(c),
{
    s.push(c)
}

fn string_of(b: &Vec<char>) -> (r: String)
    ensures
        r@ == b@,
{
    let mut r = String::new();
    let mut i: usize = 0;
    while i < b.len()
        invariant
            i <= b@.len(),
            r@ == b@.subrange(0, i as int),
        decreases b@.len() - i,
    {
        push_char(&mut r, b[i]);
        i = i + 1;
        assert(r@ =~= b@.subrange(0, i as int));
    }
    assert(b@.subrange(0, i as int) =~= b@);
    r
}

fn strip_first_line(b: Vec<char>) -> (r: Vec<char>)
    ensures
        r@ == trim_first_line(b@),
{
    let mut k: usize = 0;
    while k < b.len() && b[k] != '\n'
        invariant
            k <= b@.len(),
            forall|j: int| 0 <= j < k ==> b@[j] != '\n',
        decreases b@.len() - k,
    {
        k = k + 1;
    }
    if k == b.len() {
        assert(!exists|k: int| is_first_newline(b@, k));
        return b;
    }
    assert(is_first_newline(b@, k as int));
    assert(forall|k2: int| is_first_newline(b@, k2) ==> k2 == k);
    let mut j: usize = 0;
    while j < k && (b[j] == ' ' || b[j] == '\t')
        invariant
            j <= k < b@.len(),
            forall|i: int| 0 <= i < j ==> is_blank(b@[i]),
        decreases k - j,
    {
        j = j + 1;
    }
    if j == k {
        let mut b = b;
        let rest = b.split_off(k + 1);
        rest
    } else {
        b
    }
}

fn strip_last_line(b: Vec<char>) -> (r: Vec<char>)
    ensures
        r@ == trim_last_line(b@),
{
    let mut k: usize = b.len();
    while k > 0 && b[k - 1] != '\n'
        invariant
            k <= b@.len(),
            forall|j: int| k <= j < b@.len() ==> b@[j] != '\n',
        decreases k,
    {
        k = k - 1;
    }
    if k == 0 {
        assert(!exists|k: int| is_last_newline(b@, k));
        return b;
    }
    let k = k - 1;
    assert(is_last_newline(b@, k as int));
    assert(forall|k2: int| is_last_newline(b@, k2) ==> k2 == k);
    let mut j: usize = k + 1;
    while j < b.len() && (b[j] == ' ' || b[j] == '\t')
        invariant
            k < j <= b@.len(),
            forall|i: int| k < i < j ==> is_blank(b@[i]),
        decreases b@.len() - j,
    {
        j = j + 1;
    }
    if j == b.len() {
        let mut b = b;
        b.truncate(k);
        b
    } else {
        b
    }
}


/// Strip the indentation of one text chunk, from the state the chunks before
/// it left.
fn strip_text(
    s: &String,
    min: usize,
    col: usize,
    at_start: bool,
    pending: Option<usize>,
    unindent: Vec<usize>,
    Ghost(k): Ghost<int>,
) -> (r: (Vec<char>, usize, bool, Option<usize>, Vec<usize>))
    requires
        forall|j: int| 0 <= j < unindent@.len() ==> unindent@[j] < k,
        pending.is_some() ==> pending.unwrap() < k,
    ensures
        (r.0@, strip_state(r.1, r.2, r.3, r.4@)) == strip_scan_text(
            strip_state(col, at_start, pending, unindent@),
            s@,
            min as int,
        ),
        forall|j: int| 0 <= j < r.4@.len() ==> r.4@[j] < k,
        r.3.is_some() ==> r.3.unwrap() < k,
{
    let ghost st0 = strip_state(col, at_start, pending, unindent@);
    let mut col = col;
    let mut at_start = at_start;
    let mut pending = pending;
    let mut unindent = unindent;
    let mut buffer: Vec<char> = Vec::new();
    let len = s.as_str().unicode_len();
    let mut j: usize = 0;
    while j < len
        invariant
            j <= len,
            len == s@.len(),
            (buffer@, strip_state(col, at_start, pending, unindent@)) == strip_scan_text(
                st0,
                s@.subrange(0, j as int),
                min as int,
            ),
            forall|i: int| 0 <= i < unindent@.len() ==> unindent@[i] < k,
            pending.is_some() ==> pending.unwrap() < k,
        decreases len - j,
    {
        proof {
            assert(s@.subrange(0, j as int + 1).drop_last() =~= s@.subrange(0, j as int));
        }
        let ghost old_buffer = buffer@;
        let ghost old_unindent = unindent@;
        let c = s.as_str().get_char(j);
        if at_start && (c == ' ' || c == '\t') && col < min {
            col = next_col_exec(col);
        } else if at_start && (c == ' ' || c == '\t') {
            col = next_col_exec(col);
            buffer.push(c);
        } else if c == '\n' {
            col = 0;
            at_start = true;
            pending = None;
            buffer.push(c);
        } else if at_start {
            at_start = false;
            buffer.push(c);
        } else if c == ' ' || c == '\t' {
            buffer.push(c);
        } else {
            buffer.push(c);
            if let Some(e) = pending {
                unindent.push(e);
                pending = None;
                assert(unindent@.map_values(|u: usize| u as int) =~= old_unindent.map_values(
                    |u: usize| u as int,
                ).push(e as int));
            }
        }
        proof {
            assert(buffer@ =~= old_buffer + strip_step_char(
                strip_scan_text(st0, s@.subrange(0, j as int), min as int).1,
                c,
                min as int,
            ).0);
        }
        j = j + 1;
    }
    proof {
        assert(s@.subrange(0, len as int) =~= s@);
    }
    (buffer, col, at_start, pending, unindent)
}

/// Strip the common indentation of a multi-line string.
///
/// Each line loses as many leading spaces and tabs as the least indented
/// meaningful line has (see [`min_indent`]); a blank first line and a blank
/// last line are removed. An expression alone on its line keeps the
/// indentation it had beyond the common one, so that its value is rendered
/// at that indentation; an expression that shares its line with other text
/// or another expression gets none.
pub fn strip_indent(chunks: Vec<StrChunk>) -> (r: Vec<StrChunk>)
    ensures
        chunk_views(r@) == spec_strip_indent(chunk_views(chunks@)),
{
    if chunks.len() == 0 {
        return chunks;
    }
    let min = min_indent(chunks.as_slice());
    let n = chunks.len();
    let ghost views = chunk_views(chunks@);
    let mut col: usize = 0;
    let mut at_start = true;
    let mut pending: Option<usize> = None;
    let mut unindent: Vec<usize> = Vec::new();
    let mut out: Vec<StrChunk> = Vec::new();
    let mut rest = chunks;
    let mut k: usize = 0;
    proof {
        assert(views.subrange(0, 0) =~= Seq::<ChunkView>::empty());
        assert(chunk_views(out@) =~= Seq::<ChunkView>::empty());
        assert(unindent@.map_values(|u: usize| u as int) =~= Seq::<int>::empty());
        assert(views.subrange(0, n as int) =~= views);
    }
    while k < n
        invariant
            n == views.len(),
            k <= n,
            min == spec_min_indent(views),
            rest@.len() == n - k,
            out@.len() == k,
            chunk_views(rest@) == views.subrange(k as int, n as int),
            (chunk_views(out@), strip_state(col, at_start, pending, unindent@)) == strip_scan(
                views.subrange(0, k as int),
                n as int,
                min as int,
            ),
            forall|j: int| 0 <= j < unindent@.len() ==> unindent@[j] < k,
            pending.is_some() ==> pending.unwrap() < k,
        decreases n - k,
    {
        proof {
            assert(views.subrange(0, k as int + 1).drop_last() =~= views.subrange(0, k as int));
            assert(chunk_views(rest@)[0] == views[k as int]);
            assert forall|i: int| 0 <= i < rest@.len() - 1 implies chunk_views(rest@.drop_first())[i]
                == views.subrange(k as int + 1, n as int)[i] by {
                assert(chunk_views(rest@)[i + 1] == views.subrange(k as int, n as int)[i + 1]);
            }
            assert(chunk_views(rest@.drop_first()) =~= views.subrange(k as int + 1, n as int));
        }
        let ghost old_out = chunk_views(out@);
        let ghost old_unindent = unindent@;
        let c = rest.remove(0);
        match c {
            StrChunk::Literal(s) => {
                let (b, col_after, next_at_start, next_pending, next_unindent) = strip_text(
                    &s,
                    min,
                    col,
                    at_start,
                    pending,
                    unindent,
                    Ghost(k as int),
                );
                let b1 = if k == 0 {
                    strip_first_line(b)
                } else {
                    b
                };
                let b2 = if k == n - 1 {
                    strip_last_line(b1)
                } else {
                    b1
                };
                out.push(StrChunk::Literal(string_of(&b2)));
                col = col_after;
                at_start = next_at_start;
                pending = next_pending;
                unindent = next_unindent;
            },
            StrChunk::Expr(t, i) => {
                if at_start {
                    let rel = if col >= min {
                        col - min
                    } else {
                        0
                    };
                    out.push(StrChunk::Expr(t, rel));
                    at_start = false;
                    pending = Some(k);
                } else {
                    out.push(StrChunk::Expr(t, i));
                    if let Some(e) = pending {
                        unindent.push(e);
                        pending = None;
                        assert(unindent@.map_values(|u: usize| u as int) =~= old_unindent.map_values(
                            |u: usize| u as int,
                        ).push(e as int));
                    }
                }
            },
        }
        proof {
            assert(chunk_views(out@) =~= old_out.push(chunk_views(out@).last()));
        }
        k = k + 1;
    }
    proof {
        assert(views.subrange(0, n as int) =~= views);
    }
    let ghost base = chunk_views(out@);
    let ghost zeroed = unindent@.map_values(|u: usize| u as int);
    let mut j: usize = 0;
    proof {
        assert(zero_out(base, zeroed.subrange(0, 0)) =~= base);
    }
    while j < unindent.len()
        invariant
            j <= unindent@.len(),
            out@.len() == n,
            base.len() == n,
            zeroed == unindent@.map_values(|u: usize| u as int),
            forall|i: int| 0 <= i < unindent@.len() ==> unindent@[i] < n,
            chunk_views(out@) == zero_out(base, zeroed.subrange(0, j as int)),
        decreases unindent@.len() - j,
    {
        let e = unindent[j];
        let ghost before = chunk_views(out@);
        let c = out.remove(e);
        let c2 = match c {
            StrChunk::Expr(t, _) => StrChunk::Expr(t, 0),
            other => other,
        };
        out.insert(e, c2);
        proof {
            let z0 = zeroed.subrange(0, j as int);
            let z1 = zeroed.subrange(0, j as int + 1);
            assert(z1 =~= z0.push(e as int));
            assert forall|i: int| z1.contains(i) <==> (z0.contains(i) || i == e as int) by {
                if z0.contains(i) {
                    let w = choose|w: int| 0 <= w < z0.len() && z0[w] == i;
                    assert(z1[w] == i);
                }
                if i == e as int {
                    assert(z1[z0.len() as int] == i);
                }
                if z1.contains(i) {
                    let w = choose|w: int| 0 <= w < z1.len() && z1[w] == i;
                    if w < z0.len() {
                        assert(z0[w] == i);
                    }
                }
            }
            assert(chunk_views(out@) =~= before.update(e as int, unindented(before[e as int])));
            assert(chunk_views(out@) =~= zero_out(base, zeroed.subrange(0, j as int + 1)));
        }
        j = j + 1;
    }
    proof {
        assert(zeroed.subrange(0, j as int) =~= zeroed);
    }
    out
}


/// No text chunk holds a newline: the string is one line.
pub open spec fn single_line(cs: Seq<ChunkView>) -> bool {
    forall|k: int|
        0 <= k < cs.len() ==> match #[trigger] cs[k] {
            ChunkView::Text(s) => !s.contains('\n'),
            ChunkView::Interp(_, _) => true,
        }
}

/// The string starts with an expression or with a character that is not
/// a blank.
pub open spec fn starts_unindented(cs: Seq<ChunkView>) -> bool {
    cs.len() > 0 && match cs[0] {
        ChunkView::Text(s) => s.len() > 0 && !is_blank(s[0]),
        ChunkView::Interp(_, _) => true,
    }
}

pub open spec fn indent_after_start() -> IndentScan {
    IndentScan { col: 0, at_start: false, min: 0 }
}

proof fn lemma_indent_text_quiet(st: IndentScan, s: Seq<char>)
    requires
        !st.at_start,
        !s.contains('\n'),
    ensures
        indent_scan_text(st, s) == st,
    decreases s.len(),
{
    if s.len() > 0 {
        assert(s[s.len() - 1] == s.last());
        assert(!s.drop_last().contains('\n')) by {
            if s.drop_last().contains('\n') {
                let w = choose|w: int| 0 <= w < s.drop_last().len() && s.drop_last()[w] == '\n';
                assert(s[w] == '\n');
            }
        }
        lemma_indent_text_quiet(st, s.drop_last());
    }
}

proof fn lemma_indent_text_first(s: Seq<char>)
    requires
        s.len() > 0,
        !is_blank(s[0]),
        !s.contains('\n'),
    ensures
        indent_scan_text(IndentScan { col: 0, at_start: true, min: usize::MAX as int }, s)
            == indent_after_start(),
    decreases s.len(),
{
    let init = IndentScan { col: 0, at_start: true, min: usize::MAX as int };
    assert(s[s.len() - 1] == s.last());
    assert(s.last() != '\n') by {
        if s.last() == '\n' {
            assert(s.contains(s[s.len() - 1]));
        }
    }
    assert(s[0] != '\n') by {
        if s[0] == '\n' {
            assert(s.contains(s[0]));
        }
    }
    assert(!s.drop_last().contains('\n')) by {
        if s.drop_last().contains('\n') {
            let w = choose|w: int| 0 <= w < s.drop_last().len() && s.drop_last()[w] == '\n';
            assert(s[w] == '\n');
        }
    }
    if s.len() == 1 {
        assert(s.drop_last().len() == 0);
        assert(s.last() == s[0]);
        assert(indent_scan_text(init, s.drop_last()) == init);
        assert(indent_step_char(init, s[0]) == indent_after_start());
    } else {
        assert(s.drop_last()[0] == s[0]);
        lemma_indent_text_first(s.drop_last());
        assert(indent_step_char(indent_after_start(), s.last()) == indent_after_start());
    }
}

proof fn lemma_indent_single_line(cs: Seq<ChunkView>, k: int)
    requires
        single_line(cs),
        starts_unindented(cs),
        1 <= k <= cs.len(),
    ensures
        indent_scan(cs.subrange(0, k)) == indent_after_start(),
    decreases k,
{
    let p = cs.subrange(0, k);
    assert(p.drop_last() =~= cs.subrange(0, k - 1));
    assert(p.last() == cs[k - 1]);
    if k == 1 {
        assert(p.drop_last().len() == 0);
        assert(indent_scan(p.drop_last()) == IndentScan { col: 0, at_start: true, min: usize::MAX as int });
        match cs[0] {
            ChunkView::Text(s) => {
                assert(single_line(cs) ==> !s.contains('\n'));
                lemma_indent_text_first(s);
            },
            ChunkView::Interp(_, _) => {},
        }
    } else {
        lemma_indent_single_line(cs, k - 1);
        match cs[k - 1] {
            ChunkView::Text(s) => {
                assert(single_line(cs) ==> !s.contains('\n'));
                lemma_indent_text_quiet(indent_after_start(), s);
            },
            ChunkView::Interp(_, _) => {},
        }
    }
}

/// After the start of a single line: no longer at the start, no expression
/// pending but the first chunk, and only the first chunk reset.
pub open spec fn quiet_state(st: StripScan) -> bool {
    &&& !st.at_start
    &&& (st.pending.is_none() || st.pending == Some(0int))
    &&& forall|j: int| 0 <= j < st.zeroed.len() ==> st.zeroed[j] == 0
}

proof fn lemma_strip_text_quiet(st: StripScan, s: Seq<char>, min: int)
    requires
        quiet_state(st),
        !s.contains('\n'),
    ensures
        strip_scan_text(st, s, min).0 == s,
        quiet_state(strip_scan_text(st, s, min).1),
    decreases s.len(),
{
    if s.len() > 0 {
        assert(s[s.len() - 1] == s.last());
        assert(!s.drop_last().contains('\n')) by {
            if s.drop_last().contains('\n') {
                let w = choose|w: int| 0 <= w < s.drop_last().len() && s.drop_last()[w] == '\n';
                assert(s[w] == '\n');
            }
        }
        lemma_strip_text_quiet(st, s.drop_last(), min);
        let st1 = strip_scan_text(st, s.drop_last(), min).1;
        let st2 = strip_flush(st1);
        assert(quiet_state(st2)) by {
            if st1.pending.is_some() {
                assert forall|j: int| 0 <= j < st2.zeroed.len() implies st2.zeroed[j] == 0 by {
                    if j < st1.zeroed.len() {
                        assert(st2.zeroed[j] == st1.zeroed[j]);
                    }
                }
            }
        }
        assert(s.drop_last() + seq![s.last()] =~= s);
    }
}

proof fn lemma_strip_text_first(s: Seq<char>)
    requires
        s.len() > 0,
        !is_blank(s[0]),
        !s.contains('\n'),
    ensures
        strip_scan_text(StripScan { col: 0, at_start: true, pending: None, zeroed: Seq::empty() }, s, 0).0
            == s,
        quiet_state(
            strip_scan_text(StripScan { col: 0, at_start: true, pending: None, zeroed: Seq::empty() }, s, 0).1,
        ),
    decreases s.len(),
{
    let init = StripScan { col: 0, at_start: true, pending: None, zeroed: Seq::empty() };
    assert(s[s.len() - 1] == s.last());
    assert(!s.drop_last().contains('\n')) by {
        if s.drop_last().contains('\n') {
            let w = choose|w: int| 0 <= w < s.drop_last().len() && s.drop_last()[w] == '\n';
            assert(s[w] == '\n');
        }
    }
    if s.len() == 1 {
        assert(s.drop_last().len() == 0);
        assert(s.last() == s[0]);
        assert(Seq::<char>::empty() + seq![s[0]] =~= s);
    } else {
        assert(s.drop_last()[0] == s[0]);
        lemma_strip_text_first(s.drop_last());
        assert(s.drop_last() + seq![s.last()] =~= s);
    }
}

proof fn lemma_no_newline_trims(s: Seq<char>)
    requires
        !s.contains('\n'),
    ensures
        trim_first_line(s) == s,
        trim_last_line(s) == s,
{
    assert forall|k: int| !is_first_newline(s, k) by {
        if is_first_newline(s, k) {
            assert(s[k] == '\n');
        }
    }
    assert forall|k: int| !is_last_newline(s, k) by {
        if is_last_newline(s, k) {
            assert(s[k] == '\n');
        }
    }
}

proof fn lemma_strip_single_line_prefix(cs: Seq<ChunkView>, k: int)
    requires
        single_line(cs),
        starts_unindented(cs),
        1 <= k <= cs.len(),
    ensures
        strip_scan(cs.subrange(0, k), cs.len() as int, 0).0 == cs.subrange(0, k).update(
            0,
            unindented(cs[0]),
        ),
        quiet_state(strip_scan(cs.subrange(0, k), cs.len() as int, 0).1),
    decreases k,
{
    let n = cs.len() as int;
    let p = cs.subrange(0, k);
    assert(p.drop_last() =~= cs.subrange(0, k - 1));
    assert(p.last() == cs[k - 1]);
    if k == 1 {
        assert(p.drop_last().len() == 0);
        match cs[0] {
            ChunkView::Text(s) => {
                assert(single_line(cs) ==> !s.contains('\n'));
                lemma_strip_text_first(s);
                lemma_no_newline_trims(s);
            },
            ChunkView::Interp(_, _) => {},
        }
        assert(strip_scan(p, n, 0).0 =~= p.update(0, unindented(cs[0])));
    } else {
        lemma_strip_single_line_prefix(cs, k - 1);
        let (out, st) = strip_scan(cs.subrange(0, k - 1), n, 0);
        match cs[k - 1] {
            ChunkView::Text(s) => {
                assert(single_line(cs) ==> !s.contains('\n'));
                lemma_strip_text_quiet(st, s, 0);
                lemma_no_newline_trims(s);
            },
            ChunkView::Interp(_, _) => {
                let st2 = strip_flush(st);
                assert(quiet_state(st2)) by {
                    if st.pending.is_some() {
                        assert forall|j: int| 0 <= j < st2.zeroed.len() implies st2.zeroed[j] == 0 by {
                            if j < st.zeroed.len() {
                                assert(st2.zeroed[j] == st.zeroed[j]);
                            }
                        }
                    }
                }
            },
        }
        assert(strip_scan(p, n, 0).0 =~= p.update(0, unindented(cs[0])));
    }
}

/// A string on one line that does not start with a blank is left as it is
/// by stripping, but for an expression that starts it, which is rendered
/// without indentation. The empty string is left as it is.
pub proof fn lemma_strip_single_line(cs: Seq<ChunkView>)
    requires
        single_line(cs),
        starts_unindented(cs) || cs.len() == 0,
    ensures
        cs.len() == 0 ==> spec_strip_indent(cs) == cs,
        cs.len() > 0 ==> spec_strip_indent(cs) == cs.update(0, unindented(cs[0])),
{
    if cs.len() > 0 {
        let n = cs.len() as int;
        lemma_indent_single_line(cs, n);
        assert(cs.subrange(0, n) =~= cs);
        assert(spec_min_indent(cs) == 0);
        lemma_strip_single_line_prefix(cs, n);
        let (out, st) = strip_scan(cs, n, 0);
        assert forall|i: int| 0 < i < n implies !st.zeroed.contains(i) by {
            if st.zeroed.contains(i) {
                let w = choose|w: int| 0 <= w < st.zeroed.len() && st.zeroed[w] == i;
            }
        }
        assert(zero_out(out, st.zeroed) =~= cs.update(0, unindented(cs[0])));
    }
}

} // verus!
