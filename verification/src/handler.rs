//! The parts of the answers to the editor that are computed from what the
//! analysis found.

use crate::base::FileId;
use crate::base::FileRange;
use crate::position::Position;
use crate::text::TextRange;
use crate::text::TextSize;
use vstd::prelude::*;

verus! {

/// A place to go to: a file, the range of a definition in it, and the range
/// of the name that is defined.
#[derive(Debug, Clone, Copy, PartialEq, Eq, Structural)]
pub struct NavigationTarget {
    pub file_id: FileId,
    pub full_range: TextRange,
    pub focus_range: TextRange,
}

/// Where the editor is sent for each target: to the name that is defined.
pub fn goto_definition(targets: Vec<NavigationTarget>) -> (r: Vec<FileRange>)
    ensures
        r@.len() == targets@.len(),
        forall|i: int|
            0 <= i < r@.len() ==> (#[trigger] r@[i]).file_id == targets@[i].file_id && r@[i].range
                == targets@[i].focus_range,
{
    let mut out: Vec<FileRange> = Vec::new();
    let n = targets.len();
    for i in 0..n
        invariant
            n == targets@.len(),
            out@.len() == i,
            forall|k: int|
                0 <= k < i ==> (#[trigger] out@[k]).file_id == targets@[k].file_id && out@[k].range
                    == targets@[k].focus_range,
    {
        out.push(FileRange::new(targets[i].file_id, targets[i].focus_range));
    }
    out
}

/// A range with the ranges around it: each parent is the next range out.
#[derive(Debug)]
pub struct SelectionRange {
    pub range: TextRange,
    pub parent: Option<Box<SelectionRange>>,
}

impl SelectionRange {
    /// The ranges from this one outwards.
    pub open spec fn chain(self) -> Seq<TextRange>
        decreases self,
    {
        match self.parent {
            Some(parent) => seq![self.range] + parent.chain(),
            None => seq![self.range],
        }
    }
}

/// The ranges that a selection at `pos` grows through: those that were
/// found, or the empty range at `pos` where none was.
pub open spec fn selection_ranges(pos: TextSize, found: Option<Seq<TextRange>>) -> Seq<TextRange> {
    match found {
        Some(ranges) if ranges.len() > 0 => ranges,
        _ => seq![TextRange::spec_empty(pos)],
    }
}

/// Nests the ranges that enclose `pos`, which come from the smallest
/// outwards, so that each has the next as its parent.
pub fn selection_range(pos: TextSize, found: Option<Vec<TextRange>>) -> (r: SelectionRange)
    ensures
        r.chain() == selection_ranges(
            pos,
            match found {
                Some(ranges) => Some(ranges@),
                None => None,
            },
        ),
{
    let mut ranges = match found {
        Some(ranges) => ranges,
        None => Vec::new(),
    };
    if ranges.len() == 0 {
        ranges.push(TextRange::empty(pos));
    }
    let ghost all = ranges@;
    let n = ranges.len();
    let mut ret = SelectionRange { range: ranges[n - 1], parent: None };
    let mut i = n - 1;
    assert(ret.chain() =~= all.skip(i as int));
    while i > 0
        invariant
            all == ranges@,
            n == all.len(),
            i < n,
            ret.chain() == all.skip(i as int),
        decreases i,
    {
        i = i - 1;
        ret = SelectionRange { range: ranges[i], parent: Some(Box::new(ret)) };
        assert(ret.chain() =~= all.skip(i as int));
    }
    assert(all.skip(0) =~= all);
    ret
}

/// A highlighted piece of one line: where it starts, how many UTF-16 units
/// it is long, and its kind and its modifiers by their numbers.
#[derive(Debug, Clone, Copy, PartialEq, Eq, Structural)]
pub struct TokenSpan {
    pub start: Position,
    pub length: u32,
    pub token_type: u32,
    pub token_modifiers_bitset: u32,
}

/// A highlighted piece as it goes over the wire: its start is given by its
/// distance from the start of the piece before it.
#[derive(Debug, Clone, Copy, PartialEq, Eq, Structural)]
pub struct SemanticToken {
    pub delta_line: u32,
    pub delta_start: u32,
    pub length: u32,
    pub token_type: u32,
    pub token_modifiers_bitset: u32,
}

/// `next` lies at `prev` or behind it.
pub open spec fn not_before(prev: Position, next: Position) -> bool {
    prev.line < next.line || (prev.line == next.line && prev.character <= next.character)
}

/// The start of the piece in front of the piece `i`: the start of the text
/// for the first piece.
pub open spec fn start_before(spans: Seq<TokenSpan>, i: int) -> Position {
    if i == 0 {
        Position { line: 0, character: 0 }
    } else {
        spans[i - 1].start
    }
}

/// No piece starts in front of the piece before it.
pub open spec fn in_source_order(spans: Seq<TokenSpan>) -> bool {
    forall|i: int| 0 < i < spans.len() ==> not_before(spans[i - 1].start, (#[trigger] spans[i]).start)
}

/// A piece as it goes over the wire behind a piece that starts at `prev`:
/// the lines between them, and the columns between them where both start
/// on one line, else the column of the piece.
pub open spec fn delta_from(prev: Position, span: TokenSpan) -> SemanticToken {
    SemanticToken {
        delta_line: (span.start.line - prev.line) as u32,
        delta_start: if span.start.line == prev.line {
            (span.start.character - prev.character) as u32
        } else {
            span.start.character
        },
        length: span.length,
        token_type: span.token_type,
        token_modifiers_bitset: span.token_modifiers_bitset,
    }
}

/// The piece that a token stands for behind a piece that starts at `prev`.
pub open spec fn span_from(prev: Position, token: SemanticToken) -> TokenSpan {
    TokenSpan {
        start: Position {
            line: (prev.line + token.delta_line) as u32,
            character: if token.delta_line == 0 {
                (prev.character + token.delta_start) as u32
            } else {
                token.delta_start
            },
        },
        length: token.length,
        token_type: token.token_type,
        token_modifiers_bitset: token.token_modifiers_bitset,
    }
}

/// Pieces in source order as they go over the wire.
pub open spec fn encoded(spans: Seq<TokenSpan>) -> Seq<SemanticToken> {
    Seq::new(spans.len(), |i: int| delta_from(start_before(spans, i), spans[i]))
}

/// A piece is read back from its token and the start of the piece before.
pub proof fn lemma_span_read_back(prev: Position, span: TokenSpan)
    requires
        not_before(prev, span.start),
    ensures
        span_from(prev, delta_from(prev, span)) == span,
{
}

/// Turns highlighted pieces into the tokens that go over the wire, or into
/// nothing where the pieces are not in source order.
pub fn encode_semantic_tokens(spans: &Vec<TokenSpan>) -> (r: Option<Vec<SemanticToken>>)
    ensures
        in_source_order(spans@) ==> ({
            &&& r matches Some(tokens)
            &&& tokens@ == encoded(spans@)
        }),
        !in_source_order(spans@) ==> r is None,
{
    let mut out: Vec<SemanticToken> = Vec::new();
    let mut prev = Position { line: 0, character: 0 };
    let n = spans.len();
    for i in 0..n
        invariant
            n == spans@.len(),
            prev == start_before(spans@, i as int),
            out@.len() == i,
            forall|k: int| 0 < k < i ==> not_before(spans@[k - 1].start, (#[trigger] spans@[k]).start),
            forall|k: int|
                0 <= k < i ==> #[trigger] out@[k] == delta_from(start_before(spans@, k), spans@[k]),
    {
        let span = spans[i];
        let start = span.start;
        if start.line < prev.line || (start.line == prev.line && start.character < prev.character) {
            assert(!not_before(spans@[i - 1].start, spans@[i as int].start));
            return None;
        }
        let delta_start = if start.line == prev.line {
            start.character - prev.character
        } else {
            start.character
        };
        out.push(
            SemanticToken {
                delta_line: start.line - prev.line,
                delta_start,
                length: span.length,
                token_type: span.token_type,
                token_modifiers_bitset: span.token_modifiers_bitset,
            },
        );
        prev = start;
    }
    assert(out@ =~= encoded(spans@));
    Some(out)
}

} // verus!
