//! Lines and columns of a text, in bytes.

use crate::text::TextSize;
use vstd::prelude::*;
use vstd::string::StringSliceAdditionalSpecFns;

verus! {

/// The byte that ends a line.
pub const NEWLINE: u8 = 10;

/// The offsets at which the lines of a text start: 0, and the offset behind
/// each newline.
pub open spec fn line_starts(bytes: Seq<u8>) -> Seq<int>
    decreases bytes.len(),
{
    if bytes.len() == 0 {
        seq![0int]
    } else if bytes.last() == NEWLINE {
        line_starts(bytes.drop_last()).push(bytes.len() as int)
    } else {
        line_starts(bytes.drop_last())
    }
}

/// A table of line starts for a text of `len` bytes: it begins with 0,
/// grows strictly, and stays within the text.
pub open spec fn is_line_table(starts: Seq<int>, len: int) -> bool {
    &&& starts.len() > 0
    &&& starts[0] == 0
    &&& forall|i: int, j: int| 0 <= i < j < starts.len() ==> starts[i] < starts[j]
    &&& starts[starts.len() - 1] <= len
}

/// The line `line` holds the offset `pos`: it starts at or before `pos`, and
/// the next line, if there is one, starts behind it.
pub open spec fn line_holds(starts: Seq<int>, line: int, pos: int) -> bool {
    &&& 0 <= line < starts.len()
    &&& starts[line] <= pos
    &&& line + 1 < starts.len() ==> pos < starts[line + 1]
}

/// The line and the column of an offset: the line that holds it, and its
/// distance from the start of that line.
pub open spec fn line_col_of(starts: Seq<int>, pos: int) -> (int, int) {
    let line = choose|line: int| line_holds(starts, line, pos);
    (line, pos - starts[line])
}

/// The last offset of a line: that of its newline, or the end of the text
/// for the last line.
pub open spec fn line_end(starts: Seq<int>, len: int, line: int) -> int {
    if line + 1 < starts.len() {
        starts[line + 1] - 1
    } else {
        len
    }
}

/// The offset of a line and a column, where the line exists and reaches
/// that far.
pub open spec fn pos_of(starts: Seq<int>, len: int, line: int, col: int) -> Option<int> {
    if 0 <= line < starts.len() && 0 <= col && starts[line] + col <= line_end(starts, len, line) {
        Some(starts[line] + col)
    } else {
        None
    }
}

/// Only one line holds an offset.
pub proof fn lemma_one_line_holds(starts: Seq<int>, len: int, a: int, b: int, pos: int)
    requires
        is_line_table(starts, len),
        line_holds(starts, a, pos),
        line_holds(starts, b, pos),
    ensures
        a == b,
{
    if a < b {
        assert(starts[a + 1] <= starts[b]) by {
            if a + 1 < b {
                assert(starts[a + 1] < starts[b]);
            }
        }
    } else if b < a {
        assert(starts[b + 1] <= starts[a]) by {
            if b + 1 < a {
                assert(starts[b + 1] < starts[a]);
            }
        }
    }
}

/// From an offset to its line and column and back is the identity on the
/// offsets of the text.
pub proof fn lemma_offset_round_trip(starts: Seq<int>, len: int, pos: int)
    requires
        is_line_table(starts, len),
        0 <= pos <= len,
    ensures
        line_holds(starts, line_col_of(starts, pos).0, pos),
        pos_of(starts, len, line_col_of(starts, pos).0, line_col_of(starts, pos).1) == Some(pos),
{
    lemma_some_line_holds(starts, len, pos);
}

/// From a line and a column that name an offset to that offset and back is
/// the identity.
pub proof fn lemma_line_col_round_trip(starts: Seq<int>, len: int, line: int, col: int)
    requires
        is_line_table(starts, len),
        pos_of(starts, len, line, col).is_some(),
    ensures
        line_col_of(starts, pos_of(starts, len, line, col).unwrap()) == (line, col),
{
    let pos = starts[line] + col;
    assert(line_holds(starts, line, pos));
    let found = choose|l: int| line_holds(starts, l, pos);
    lemma_one_line_holds(starts, len, found, line, pos);
}

/// Every offset from 0 on lies in some line.
proof fn lemma_some_line_holds(starts: Seq<int>, len: int, pos: int)
    requires
        is_line_table(starts, len),
        0 <= pos,
    ensures
        exists|line: int| line_holds(starts, line, pos),
    decreases starts.len(),
{
    let last = starts.len() - 1;
    if starts[last] <= pos {
        assert(line_holds(starts, last, pos));
    } else {
        let shorter = starts.drop_last();
        assert(is_line_table(shorter, len)) by {
            assert(shorter[0] == starts[0]);
            assert(starts[last - 1] < starts[last]);
        }
        lemma_some_line_holds(shorter, len, pos);
        let line = choose|line: int| line_holds(shorter, line, pos);
        assert(line_holds(starts, line, pos));
    }
}

/// A line starts no earlier than as many bytes into the text as lines
/// precede it.
pub proof fn lemma_start_at_least_index(starts: Seq<int>, len: int, i: int)
    requires
        is_line_table(starts, len),
        0 <= i < starts.len(),
    ensures
        starts[i] >= i,
    decreases i,
{
    if i > 0 {
        lemma_start_at_least_index(starts, len, i - 1);
        assert(starts[i - 1] < starts[i]);
    }
}

/// The table of the lines of a text is a table of line starts for its
/// length.
pub proof fn lemma_line_starts_is_table(bytes: Seq<u8>)
    ensures
        is_line_table(line_starts(bytes), bytes.len() as int),
    decreases bytes.len(),
{
    if bytes.len() > 0 {
        lemma_line_starts_is_table(bytes.drop_last());
    }
}

/// A line and a column, both counted from 0; the column counts bytes.
#[derive(Debug, Clone, Copy, PartialEq, Eq, Hash, Structural)]
pub struct LineCol {
    pub line: u32,
    pub col: u32,
}

/// The starts of the lines of a text, by which an offset is turned into a
/// line and a column and back.
#[derive(Debug)]
pub struct LineMap {
    line_starts: Vec<u32>,
    len: u32,
}

impl LineMap {
    #[verifier::type_invariant]
    spec fn well_formed(self) -> bool {
        is_line_table(self.starts(), self.len as int)
    }

    /// The offsets at which the lines start.
    pub closed spec fn starts(&self) -> Seq<int> {
        Seq::new(self.line_starts@.len(), |i: int| self.line_starts@[i] as int)
    }

    /// The length of the text, in bytes.
    pub closed spec fn text_len(&self) -> int {
        self.len as int
    }

    /// The table is that of the lines of a text of these bytes.
    pub open spec fn describes(&self, bytes: Seq<u8>) -> bool {
        bytes.len() <= u32::MAX && self.text_len() == bytes.len() && self.starts() == line_starts(bytes)
    }

    /// The table of the lines of `text`, if the text is not too long for
    /// offsets of 32 bits.
    pub fn new(text: &str) -> (r: Option<Self>)
        ensures
            text.spec_bytes().len() > u32::MAX ==> r is None,
            text.spec_bytes().len() <= u32::MAX ==> r is Some,
            r matches Some(map) ==> map.describes(text.spec_bytes()),
    {
        let bytes = text.as_bytes();
        let n = bytes.len();
        if n > u32::MAX as usize {
            return None;
        }
        let mut starts: Vec<u32> = Vec::new();
        starts.push(0);
        assert(bytes@.take(0) =~= Seq::empty());
        for i in 0..n
            invariant
                n == bytes@.len(),
                n <= u32::MAX,
                Seq::new(starts@.len(), |k: int| starts@[k] as int) == line_starts(bytes@.take(i as int)),
        {
            let ghost before = Seq::new(starts@.len(), |k: int| starts@[k] as int);
            assert(bytes@.take(i + 1).drop_last() =~= bytes@.take(i as int));
            assert(bytes@.take(i + 1).last() == bytes@[i as int]);
            if bytes[i] == NEWLINE {
                starts.push((i + 1) as u32);
                assert(Seq::new(starts@.len(), |k: int| starts@[k] as int) =~= before.push(i + 1));
            }
        }
        assert(bytes@.take(n as int) =~= bytes@);
        proof {
            lemma_line_starts_is_table(bytes@);
        }
        Some(LineMap { line_starts: starts, len: n as u32 })
    }

    /// The number of lines: one more than the text has newlines.
    pub fn line_count(&self) -> (r: usize)
        ensures
            r == self.starts().len(),
            r >= 1,
    {
        proof {
            use_type_invariant(self);
        }
        self.line_starts.len()
    }

    /// The line and the column of an offset. An offset behind the end of the
    /// text counts as one of the last line.
    pub fn line_col_for_pos(&self, pos: TextSize) -> (r: LineCol)
        ensures
            is_line_table(self.starts(), self.text_len()),
            line_holds(self.starts(), r.line as int, pos.raw as int),
            (r.line as int, r.col as int) == line_col_of(self.starts(), pos.raw as int),
    {
        proof {
            use_type_invariant(self);
        }
        let raw = pos.raw;
        let mut lo: usize = 0;
        let mut hi: usize = self.line_starts.len();
        while hi - lo > 1
            invariant
                is_line_table(self.starts(), self.len as int),
                0 <= lo < hi <= self.line_starts@.len(),
                self.starts()[lo as int] <= raw,
                hi < self.line_starts@.len() ==> raw < self.starts()[hi as int],
            decreases hi - lo,
        {
            let mid = lo + (hi - lo) / 2;
            assert(self.starts()[mid as int] == self.line_starts@[mid as int]);
            if self.line_starts[mid] <= raw {
                lo = mid;
            } else {
                hi = mid;
            }
        }
        proof {
            lemma_start_at_least_index(self.starts(), self.len as int, lo as int);
            let found = choose|l: int| line_holds(self.starts(), l, raw as int);
            assert(line_holds(self.starts(), lo as int, raw as int));
            lemma_one_line_holds(self.starts(), self.len as int, found, lo as int, raw as int);
        }
        LineCol { line: lo as u32, col: raw - self.line_starts[lo] }
    }

    /// The offsets at which a line starts and ends, its newline left out,
    /// or nothing where the text has no such line.
    pub fn line_bounds(&self, line: u32) -> (r: Option<(TextSize, TextSize)>)
        ensures
            is_line_table(self.starts(), self.text_len()),
            line < self.starts().len() ==> ({
                &&& r matches Some((start, end))
                &&& start.raw == self.starts()[line as int]
                &&& end.raw == line_end(self.starts(), self.text_len(), line as int)
                &&& start.raw <= end.raw <= self.text_len()
            }),
            line >= self.starts().len() ==> r is None,
    {
        proof {
            use_type_invariant(self);
        }
        let n = self.line_starts.len();
        let at = line as usize;
        if at >= n {
            return None;
        }
        let start = self.line_starts[at];
        assert(self.starts()[at as int] == start);
        assert(self.starts()[n - 1] <= self.len);
        assert(at < n - 1 ==> self.starts()[at as int] < self.starts()[n - 1]);
        let end = if at + 1 < n {
            assert(self.starts()[at + 1] == self.line_starts@[at + 1]);
            assert(at + 1 < n - 1 ==> self.starts()[at + 1] < self.starts()[n - 1]);
            self.line_starts[at + 1] - 1
        } else {
            self.len
        };
        Some((TextSize { raw: start }, TextSize { raw: end }))
    }

    /// The offset of a line and a column, or nothing where the text has no
    /// such line or the line is shorter.
    pub fn pos_for_line_col(&self, at: LineCol) -> (r: Option<TextSize>)
        ensures
            is_line_table(self.starts(), self.text_len()),
            match pos_of(self.starts(), self.text_len(), at.line as int, at.col as int) {
                Some(pos) => r matches Some(found) && found.raw == pos,
                None => r is None,
            },
    {
        proof {
            use_type_invariant(self);
        }
        let n = self.line_starts.len();
        let line = at.line as usize;
        if line >= n {
            return None;
        }
        let start = self.line_starts[line];
        assert(self.starts()[line as int] == start);
        let end = if line + 1 < n {
            assert(self.starts()[line + 1] == self.line_starts@[line + 1]);
            self.line_starts[line + 1] - 1
        } else {
            assert(self.starts()[n - 1] <= self.len);
            self.len
        };
        if at.col <= end - start {
            Some(TextSize { raw: start + at.col })
        } else {
            None
        }
    }
}

} // verus!
