//! Columns as an editor counts them, in code units of UTF-16.

use vstd::prelude::*;
use vstd::string::StringSliceAdditionalSpecFns;
use vstd::utf8::encode_scalar;
use vstd::utf8::encode_utf8;

verus! {

/// A place in a text as an editor names it: a line, and in it a column that
/// counts the code units of UTF-16. Both count from 0.
#[derive(Debug, Clone, Copy, PartialEq, Eq, Hash, Structural)]
pub struct Position {
    pub line: u32,
    pub character: u32,
}

/// The number of code units that a character takes in UTF-16.
pub open spec fn utf16_len(c: char) -> int {
    if (c as u32) < 0x10000 {
        1
    } else {
        2
    }
}

/// The number of bytes that a character takes in UTF-8.
pub open spec fn utf8_len(c: char) -> int {
    encode_scalar(c as u32).len() as int
}

/// The number of code units that a text takes in UTF-16.
pub open spec fn utf16_width(s: Seq<char>) -> int
    decreases s.len(),
{
    if s.len() == 0 {
        0
    } else {
        utf16_width(s.drop_last()) + utf16_len(s.last())
    }
}

/// The number of bytes that a text takes in UTF-8.
pub open spec fn utf8_width(s: Seq<char>) -> int
    decreases s.len(),
{
    if s.len() == 0 {
        0
    } else {
        utf8_width(s.drop_last()) + utf8_len(s.last())
    }
}

/// The column in bytes of the column `col` in UTF-16 units of a line: the
/// width in UTF-8 of the characters in front of it. There is none where the
/// line is shorter or the column splits a character.
pub open spec fn byte_col_of(line: Seq<char>, col: int) -> Option<int> {
    if exists|n: int| 0 <= n <= line.len() && utf16_width(#[trigger] line.take(n)) == col {
        let n = choose|n: int| 0 <= n <= line.len() && utf16_width(#[trigger] line.take(n)) == col;
        Some(utf8_width(line.take(n)))
    } else {
        None
    }
}

/// The column in UTF-16 units of the column `col` in bytes of a line: the
/// width in UTF-16 of the characters in front of it. There is none where
/// the line is shorter or the column splits a character.
pub open spec fn utf16_col_of(line: Seq<char>, col: int) -> Option<int> {
    if exists|n: int| 0 <= n <= line.len() && utf8_width(#[trigger] line.take(n)) == col {
        let n = choose|n: int| 0 <= n <= line.len() && utf8_width(#[trigger] line.take(n)) == col;
        Some(utf16_width(line.take(n)))
    } else {
        None
    }
}

/// A character takes one or two units in UTF-16, and at least as many
/// bytes in UTF-8, of which it takes at most four.
pub proof fn lemma_char_widths(c: char)
    ensures
        1 <= utf16_len(c) <= utf8_len(c) <= 4,
        utf8_len(c) == (if (c as u32) < 0x80 {
            1int
        } else if (c as u32) < 0x800 {
            2int
        } else if (c as u32) < 0x10000 {
            3int
        } else {
            4int
        }),
{
    vstd::utf8::char_is_scalar(c);
}

/// Widths grow with the text: a longer beginning of a text is wider.
pub proof fn lemma_widths_grow(s: Seq<char>, m: int, n: int)
    requires
        0 <= m <= n <= s.len(),
    ensures
        utf16_width(s.take(m)) <= utf16_width(s.take(n)),
        utf8_width(s.take(m)) <= utf8_width(s.take(n)),
        m < n ==> utf16_width(s.take(m)) < utf16_width(s.take(n)),
        m < n ==> utf8_width(s.take(m)) < utf8_width(s.take(n)),
        utf16_width(s.take(n)) - utf16_width(s.take(m)) <= utf8_width(s.take(n)) - utf8_width(
            s.take(m),
        ),
    decreases n - m,
{
    if m < n {
        lemma_widths_grow(s, m, n - 1);
        assert(s.take(n).drop_last() =~= s.take(n - 1));
        lemma_char_widths(s.take(n).last());
    }
}

/// The width of a text in UTF-8 is the length of its encoding.
pub proof fn lemma_utf8_width_is_encoded_len(s: Seq<char>)
    ensures
        utf8_width(s) == encode_utf8(s).len(),
    decreases s.len(),
{
    if s.len() > 0 {
        lemma_utf8_width_is_encoded_len(s.drop_last());
        let last = seq![s.last()];
        lemma_encode_joined(s.drop_last(), last);
        assert(s.drop_last() + last =~= s);
        assert(last.drop_first() =~= Seq::<char>::empty());
        assert(encode_utf8(last) =~= encode_scalar(s.last() as u32) + encode_utf8(Seq::empty()));
        assert(encode_utf8(last) =~= encode_scalar(s.last() as u32));
    }
}

/// The encoding of two texts, one behind the other, is the encoding of
/// the one with that of the other behind it.
pub proof fn lemma_encode_joined(a: Seq<char>, b: Seq<char>)
    ensures
        encode_utf8(a + b) == encode_utf8(a) + encode_utf8(b),
    decreases a.len(),
{
    if a.len() == 0 {
        assert(a + b =~= b);
        assert(encode_utf8(a) + encode_utf8(b) =~= encode_utf8(b));
    } else {
        lemma_encode_joined(a.drop_first(), b);
        assert((a + b).drop_first() =~= a.drop_first() + b);
        assert((a + b)[0] == a[0]);
        assert(encode_utf8(a + b) =~= encode_utf8(a) + encode_utf8(b));
    }
}

/// From a column in UTF-16 units to the column in bytes and back is the
/// identity, and so is the way from bytes to units and back.
pub proof fn lemma_column_round_trip(line: Seq<char>, n: int)
    requires
        0 <= n <= line.len(),
    ensures
        byte_col_of(line, utf16_width(line.take(n))) == Some(utf8_width(line.take(n))),
        utf16_col_of(line, utf8_width(line.take(n))) == Some(utf16_width(line.take(n))),
{
    let a = choose|m: int| 0 <= m <= line.len() && utf16_width(#[trigger] line.take(m)) == utf16_width(line.take(n));
    if a < n {
        lemma_widths_grow(line, a, n);
    } else if n < a {
        lemma_widths_grow(line, n, a);
    }
    let b = choose|m: int| 0 <= m <= line.len() && utf8_width(#[trigger] line.take(m)) == utf8_width(line.take(n));
    if b < n {
        lemma_widths_grow(line, b, n);
    } else if n < b {
        lemma_widths_grow(line, n, b);
    }
}

/// The two widths of the characters of `line` in front of the first place
/// at which the width counted by `in_utf16` (or else that in UTF-8) reaches
/// `col`; nothing where no place has just that width.
fn widths_at(line: &str, col: u32, in_utf16: bool) -> (r: Option<(usize, usize)>)
    ensures
        match r {
            Some((units, bytes)) => exists|n: int|
                0 <= n <= line@.len() && utf16_width(#[trigger] line@.take(n)) == units && utf8_width(
                    line@.take(n),
                ) == bytes && (if in_utf16 {
                    units
                } else {
                    bytes
                }) == col,
            None => forall|n: int|
                0 <= n <= line@.len() ==> (if in_utf16 {
                    utf16_width(#[trigger] line@.take(n))
                } else {
                    utf8_width(#[trigger] line@.take(n))
                }) != col,
        },
{
    let total = line.as_bytes().len();
    let mut units: usize = 0;
    let mut bytes: usize = 0;
    proof {
        lemma_utf8_width_is_encoded_len(line@);
        assert(line@.take(0) =~= Seq::empty());
    }
    for c in it: line.chars()
        invariant
            it.seq() == line@,
            total == utf8_width(line@),
            units == utf16_width(line@.take(it.index() as int)),
            bytes == utf8_width(line@.take(it.index() as int)),
            forall|n: int|
                0 <= n < it.index() ==> (if in_utf16 {
                    utf16_width(#[trigger] line@.take(n))
                } else {
                    utf8_width(#[trigger] line@.take(n))
                }) < col,
    {
        let ghost at = it.index() as int;
        let reached = if in_utf16 {
            units
        } else {
            bytes
        };
        proof {
            lemma_widths_grow(line@, 0, at);
            lemma_widths_grow(line@, at, at + 1);
            lemma_widths_grow(line@, at + 1, line@.len() as int);
            assert(line@.take(line@.len() as int) =~= line@);
            assert(line@.take(at + 1).drop_last() =~= line@.take(at));
            lemma_char_widths(c);
        }
        if reached == col as usize {
            return Some((units, bytes));
        }
        if reached > col as usize {
            proof {
                assert forall|n: int| 0 <= n <= line@.len() implies (if in_utf16 {
                    utf16_width(#[trigger] line@.take(n))
                } else {
                    utf8_width(#[trigger] line@.take(n))
                }) != col by {
                    if n > at {
                        lemma_widths_grow(line@, at, n);
                    }
                }
            }
            return None;
        }
        let v = c as u32;
        units = units + if v < 0x10000 {
            1
        } else {
            2
        };
        bytes = bytes + if v < 0x80 {
            1
        } else if v < 0x800 {
            2
        } else if v < 0x10000 {
            3
        } else {
            4
        };
    }
    assert(line@.take(line@.len() as int) =~= line@);
    let reached = if in_utf16 {
        units
    } else {
        bytes
    };
    if reached == col as usize {
        Some((units, bytes))
    } else {
        proof {
            assert forall|n: int| 0 <= n <= line@.len() implies (if in_utf16 {
                utf16_width(#[trigger] line@.take(n))
            } else {
                utf8_width(#[trigger] line@.take(n))
            }) != col by {
                if n < line@.len() {
                } else {
                    assert(line@.take(n) =~= line@);
                }
            }
        }
        None
    }
}

/// The column in bytes of a column in UTF-16 units of `line`.
pub fn byte_col(line: &str, col: u32) -> (r: Option<usize>)
    ensures
        match byte_col_of(line@, col as int) {
            Some(bytes) => r == Some(bytes as usize) && 0 <= bytes <= usize::MAX,
            None => r is None,
        },
{
    match widths_at(line, col, true) {
        Some((units, bytes)) => {
            proof {
                let n = choose|n: int|
                    0 <= n <= line@.len() && utf16_width(#[trigger] line@.take(n)) == units
                        && utf8_width(line@.take(n)) == bytes && units == col;
                lemma_column_round_trip(line@, n);
            }
            Some(bytes)
        },
        None => None,
    }
}

/// The column in UTF-16 units of a column in bytes of `line`.
pub fn utf16_col(line: &str, col: u32) -> (r: Option<usize>)
    ensures
        match utf16_col_of(line@, col as int) {
            Some(units) => r == Some(units as usize) && 0 <= units <= usize::MAX,
            None => r is None,
        },
{
    match widths_at(line, col, false) {
        Some((units, bytes)) => {
            proof {
                let n = choose|n: int|
                    0 <= n <= line@.len() && utf16_width(#[trigger] line@.take(n)) == units
                        && utf8_width(line@.take(n)) == bytes && bytes == col;
                lemma_column_round_trip(line@, n);
            }
            Some(units)
        },
        None => None,
    }
}

} // verus!
