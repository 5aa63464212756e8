//! Line and column of a byte offset.
use vstd::prelude::*;
use vstd::string::*;
use crate::scan::NEWLINE;

verus! {

/// How many line feeds stand in `bytes[..index]`.
pub open spec fn newlines_before(bytes: Seq<u8>, index: int) -> int
    decreases index,
{
    if index <= 0 {
        0
    } else if index <= bytes.len() && bytes[index - 1] == NEWLINE {
        newlines_before(bytes, index - 1) + 1
    } else {
        newlines_before(bytes, index - 1)
    }
}

/// The offset at which the line that holds offset `index` begins: behind the
/// last line feed of `bytes[..index]`, or 0 where there is none.
pub open spec fn line_start(bytes: Seq<u8>, index: int) -> int
    decreases index,
{
    if index <= 0 {
        0
    } else if index <= bytes.len() && bytes[index - 1] == NEWLINE {
        index
    } else {
        line_start(bytes, index - 1)
    }
}

/// The 1-based line of offset `index`: one more than the number of line
/// feeds before it. Offsets behind the text count as its end.
pub open spec fn line_of(bytes: Seq<u8>, index: int) -> int {
    1 + newlines_before(
        bytes,
        if index < bytes.len() {
            index
        } else {
            bytes.len() as int
        },
    )
}

/// The 1-based column of offset `index`, in bytes from the start of its
/// line. The end of the text, and any offset behind it, is column 1.
pub open spec fn column_of(bytes: Seq<u8>, index: int) -> int {
    if 0 <= index < bytes.len() {
        index - line_start(bytes, index) + 1
    } else {
        1
    }
}

/// `n`, or the largest `usize` where `n` is larger than that.
pub open spec fn clamp_usize(n: int) -> usize {
    if n <= usize::MAX {
        n as usize
    } else {
        usize::MAX
    }
}

/// Neither the number of line feeds before an offset nor the start of its
/// line lies behind the offset.
pub proof fn lemma_line_bounds(bytes: Seq<u8>, index: int)
    requires
        0 <= index,
    ensures
        0 <= newlines_before(bytes, index) <= index,
        0 <= line_start(bytes, index) <= index,
    decreases index,
{
    if index > 0 {
        lemma_line_bounds(bytes, index - 1);
    }
}

/// The 1-based line and column of the byte offset `index` in `text`.
///
/// The line is one more than the number of line feeds before the offset,
/// the column the distance in bytes from the start of that line, plus one.
/// An offset at or behind the end of the text is reported in column 1 of
/// the line that the text ends on. A line number that no `usize` holds is
/// reported as the largest `usize`.
pub fn line_col_from_index(text: &str, index: usize) -> (pos: (usize, usize))
    ensures
        pos.0 == clamp_usize(line_of(text.spec_bytes(), index as int)),
        pos.1 == column_of(text.spec_bytes(), index as int),
        pos.0 >= 1,
        pos.1 >= 1,
{
    let bytes = text.as_bytes();
    let stop = if index < bytes.len() {
        index
    } else {
        bytes.len()
    };
    let mut line: usize = 1;
    let mut last_line_start: usize = 0;
    let mut i: usize = 0;
    while i < stop
        invariant
            bytes@ == text.spec_bytes(),
            i <= stop <= bytes.len(),
            line == clamp_usize(1 + newlines_before(bytes@, i as int)),
            last_line_start == line_start(bytes@, i as int),
            last_line_start <= i,
            line >= 1,
        decreases stop - i,
    {
        proof {
            lemma_line_bounds(bytes@, i as int);
        }
        if bytes[i] == NEWLINE {
            if line < usize::MAX {
                line += 1;
            }
            last_line_start = i + 1;
        }
        i += 1;
    }
    let col = if index < bytes.len() {
        index - last_line_start + 1
    } else {
        1
    };
    (line, col)
}

} // verus!
