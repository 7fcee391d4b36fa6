//! Offsets and ranges in a text.

use vstd::prelude::*;

verus! {

/// The ten digits, in order.
pub open spec fn digit(d: nat) -> char
    recommends
        d < 10,
{
    seq!['0', '1', '2', '3', '4', '5', '6', '7', '8', '9'][d as int]
}

/// A number written in decimal, without leading zeros.
pub open spec fn decimal(n: nat) -> Seq<char>
    decreases n,
{
    if n < 10 {
        seq![digit(n)]
    } else {
        decimal(n / 10).push(digit(n % 10))
    }
}

/// How a range is written: its start and its end in decimal, `..` between
/// them.
pub open spec fn range_text(start: u32, end: u32) -> Seq<char> {
    decimal(start as nat) + seq!['.', '.'] + decimal(end as nat)
}

/// An offset into a text, or the length of a piece of text, in bytes.
#[derive(Debug, Clone, Copy, PartialEq, Eq, Hash, Structural)]
pub struct TextSize {
    pub raw: u32,
}

impl TextSize {
    pub fn new(raw: u32) -> (r: Self)
        ensures
            r.raw == raw,
    {
        TextSize { raw }
    }
}

impl From<u32> for TextSize {
    fn from(raw: u32) -> (r: Self) {
        TextSize { raw }
    }
}

impl vstd::std_specs::convert::FromSpecImpl<u32> for TextSize {
    open spec fn obeys_from_spec() -> bool {
        true
    }

    open spec fn from_spec(raw: u32) -> Self {
        TextSize { raw }
    }
}

impl From<TextSize> for u32 {
    fn from(size: TextSize) -> (r: u32) {
        size.raw
    }
}

impl vstd::std_specs::convert::FromSpecImpl<TextSize> for u32 {
    open spec fn obeys_from_spec() -> bool {
        true
    }

    open spec fn from_spec(size: TextSize) -> u32 {
        size.raw
    }
}

/// A piece of a text: the bytes from `start` up to `end`, which is not
/// before `start`.
#[derive(Debug, Clone, Copy, PartialEq, Eq, Hash, Structural)]
pub struct TextRange {
    start: TextSize,
    end: TextSize,
}

impl TextRange {
    #[verifier::type_invariant]
    spec fn ordered(self) -> bool {
        self.start.raw <= self.end.raw
    }

    /// Where the range starts.
    pub closed spec fn spec_start(self) -> TextSize {
        self.start
    }

    /// Where the range ends.
    pub closed spec fn spec_end(self) -> TextSize {
        self.end
    }

    /// The range from `start` up to `end`.
    pub fn new(start: TextSize, end: TextSize) -> (r: Self)
        requires
            start.raw <= end.raw,
        ensures
            r.spec_start() == start,
            r.spec_end() == end,
    {
        TextRange { start, end }
    }

    /// The range of no bytes at `offset`.
    pub closed spec fn spec_empty(offset: TextSize) -> Self {
        TextRange { start: offset, end: offset }
    }

    /// The range of no bytes at `offset`.
    pub fn empty(offset: TextSize) -> (r: Self)
        ensures
            r == Self::spec_empty(offset),
            r.spec_start() == offset,
            r.spec_end() == offset,
    {
        TextRange { start: offset, end: offset }
    }

    /// Where the range starts.
    pub fn start(self) -> (r: TextSize)
        ensures
            r == self.spec_start(),
            r.raw <= self.spec_end().raw,
    {
        proof {
            use_type_invariant(self);
        }
        self.start
    }

    /// Where the range ends.
    pub fn end(self) -> (r: TextSize)
        ensures
            r == self.spec_end(),
            self.spec_start().raw <= r.raw,
    {
        proof {
            use_type_invariant(self);
        }
        self.end
    }

    /// The number of bytes in the range.
    pub fn len(self) -> (r: TextSize)
        ensures
            r.raw == self.spec_end().raw - self.spec_start().raw,
    {
        proof {
            use_type_invariant(self);
        }
        TextSize { raw: self.end.raw - self.start.raw }
    }

    /// Whether the range holds no byte.
    pub fn is_empty(self) -> (r: bool)
        ensures
            r == (self.spec_start() == self.spec_end()),
    {
        self.start.raw == self.end.raw
    }

    /// The range as diagnostics show it, such as `4..5`.
    pub fn to_text(self) -> (r: String)
        ensures
            r@ == range_text(self.spec_start().raw, self.spec_end().raw),
    {
        proof {
            use_type_invariant(self);
        }
        debug_of_range(self.start.raw, self.end.raw)
    }
}

/// Two ranges with the same start and the same end are the same range.
pub proof fn lemma_range_by_ends(a: TextRange, b: TextRange)
    requires
        a.spec_start() == b.spec_start(),
        a.spec_end() == b.spec_end(),
    ensures
        a == b,
{
}

/// `Debug` of `text_size::TextRange`, which writes the start and the end of
/// the range as `u32` numbers with `..` between them; `TextRange::new`
/// takes a start that is not behind the end.
#[verifier::external_body]
fn debug_of_range(start: u32, end: u32) -> (r: String)
    requires
        start <= end,
    ensures
        r@ == range_text(start, end),
{
    format!("{:?}", text_size::TextRange::new(start.into(), end.into()))
}

} // verus!
