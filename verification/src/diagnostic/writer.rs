//! Where a label points: the line and column a report shows for a span,
//! the text of that line, and how many characters to underline.
use vstd::prelude::*;

use vstd::string::StringSliceAdditionalSpecFns;

use crate::diagnostic::Span;
use crate::text::{byte_offset, chars_of, lemma_byte_offset_step, lemma_utf8_len_encode, len_utf8, utf8_len};

verus! {

/// The number of newlines in `cs`.
pub open spec fn count_newlines(cs: Seq<char>) -> nat
    decreases cs.len(),
{
    if cs.len() == 0 {
        0
    } else {
        count_newlines(cs.drop_last()) + if cs.last() == '\n' {
            1nat
        } else {
            0nat
        }
    }
}

/// The first index at or after `p` that ends a line: a newline, or the end.
pub open spec fn next_break(cs: Seq<char>, p: int) -> int
    decreases cs.len() - p,
{
    if p >= cs.len() {
        cs.len() as int
    } else if cs[p] == '\n' {
        p
    } else {
        next_break(cs, p + 1)
    }
}

/// The last index at or before `p` that begins a line: the start, or just
/// after a newline.
pub open spec fn line_begin(cs: Seq<char>, p: int) -> int
    decreases p,
{
    if p <= 0 {
        0
    } else if cs[p - 1] == '\n' {
        p
    } else {
        line_begin(cs, p - 1)
    }
}

/// Whether byte offset `b` falls between two characters of `cs` (or at
/// either end).
pub open spec fn is_boundary(cs: Seq<char>, b: int) -> bool {
    exists|k: int| 0 <= k <= cs.len() && byte_offset(cs, k) == b
}

/// The character index whose byte offset is `b`.
pub open spec fn char_index(cs: Seq<char>, b: int) -> int {
    choose|k: int| 0 <= k <= cs.len() && byte_offset(cs, k) == b
}

/// The line a label starting at character `k` is shown on: the first line
/// whose end lies after `k`, so a label starting on a newline is shown on
/// the next line; past the last line, one more than the number of lines.
pub open spec fn shown_line(cs: Seq<char>, k: int) -> nat {
    if k < cs.len() {
        1 + count_newlines(cs.take(k + 1))
    } else {
        2 + count_newlines(cs)
    }
}

/// The character index where the shown line begins.
pub open spec fn shown_start(cs: Seq<char>, k: int) -> int {
    if k < cs.len() {
        line_begin(cs, k + 1)
    } else {
        cs.len() as int
    }
}

/// The character index where the shown line ends (its newline excluded).
pub open spec fn shown_end(cs: Seq<char>, k: int) -> int {
    if k < cs.len() {
        next_break(cs, k + 1)
    } else {
        cs.len() as int
    }
}

/// The column of character `k`: one more than the characters between the
/// start of its shown line and it, or one when the shown line begins after it.
pub open spec fn shown_column(cs: Seq<char>, k: int) -> nat {
    if shown_start(cs, k) <= k {
        (k - shown_start(cs, k) + 1) as nat
    } else {
        1
    }
}

/// The characters from index `k` up to `to` whose byte offset is below
/// `limit`.
pub open spec fn chars_below(cs: Seq<char>, k: int, to: int, limit: int) -> nat
    decreases to - k,
{
    if k >= to || byte_offset(cs, k) >= limit {
        0
    } else {
        1 + chars_below(cs, k + 1, to, limit)
    }
}

/// Where a label points in its source: the line and column shown, the byte
/// range of the shown line's text, and how many characters to underline.
#[derive(Clone, Copy, Debug)]
pub struct LabelLocation {
    pub line: usize,
    pub column: usize,
    pub line_start: usize,
    pub line_end: usize,
    pub highlight: usize,
}

/// The location of the label over `span` in `source`: the line shown is the
/// first whose end lies past the span's start, the underline runs from the
/// start to the span's end or the end of that line, whichever comes first.
pub fn label_location(source: &str, span: Span) -> (r: LabelLocation)
    requires
        source.spec_bytes().len() <= isize::MAX,
        is_boundary(source@, span.start as int),
        span.start <= span.end,
        span.end >= byte_offset(source@, shown_end(source@, char_index(source@, span.start as int)))
            || is_boundary(source@, span.end as int),
    ensures
        ({
            let cs = source@;
            let k = char_index(cs, span.start as int);
            &&& r.line == shown_line(cs, k)
            &&& r.column == shown_column(cs, k)
            &&& r.line_start == byte_offset(cs, shown_start(cs, k))
            &&& r.line_end == byte_offset(cs, shown_end(cs, k))
            &&& r.highlight == chars_below(cs, k, shown_end(cs, k), span.end as int)
        }),
{
    let chars = chars_of(source);
    let ghost cs = source@;
    let start = span.start as usize;
    let ghost k = char_index(cs, span.start as int);
    proof {
        lemma_utf8_len_encode(cs);
        assert(cs.take(cs.len() as int) =~= cs);
    }
    let mut i: usize = 0;
    let mut byte: usize = 0;
    let mut newlines: usize = 0;
    let mut begin: usize = 0;
    let mut begin_byte: usize = 0;
    // Walk to the character at the span's start, counting newlines and
    // remembering where the current line begins.
    while i < chars.len() && byte < start
        invariant
            chars@ == cs,
            0 <= k <= cs.len(),
            byte_offset(cs, k) == start,
            i <= k,
            byte == byte_offset(cs, i as int),
            newlines == count_newlines(cs.take(i as int)),
            begin == line_begin(cs, i as int),
            begin_byte == byte_offset(cs, begin as int),
            newlines <= i,
            utf8_len(cs) <= isize::MAX,
            byte_offset(cs, cs.len() as int) == utf8_len(cs),
        decreases cs.len() - i,
    {
        proof {
            lemma_byte_offset_step(cs, i as int);
            lemma_offsets_ordered(cs, i as int + 1, k);
            assert(cs.take(i + 1).drop_last() =~= cs.take(i as int));
        }
        if chars[i] == '\n' {
            newlines = newlines + 1;
            begin = i + 1;
            begin_byte = byte + 1;
        }
        byte = byte + len_utf8(chars[i]);
        i = i + 1;
    }
    proof {
        if i < k {
            lemma_offsets_ordered(cs, i as int, k);
        }
        if k < i {
            lemma_offsets_ordered(cs, k, i as int);
        }
        lemma_offsets_ordered(cs, 0, cs.len() as int);
        lemma_offsets_ordered(cs, i as int, cs.len() as int);
        assert(cs.take(0) =~= Seq::<char>::empty());
    }
    assert(i == k);
    if i == chars.len() {
        return LabelLocation {
            line: newlines + 2,
            column: 1,
            line_start: byte,
            line_end: byte,
            highlight: 0,
        };
    }
    // The character at the span's start belongs to the shown line, unless
    // it is a newline: then the shown line is the next one.
    proof {
        lemma_byte_offset_step(cs, i as int);
        assert(cs.take(i + 1).drop_last() =~= cs.take(i as int));
    }
    if chars[i] == '\n' {
        newlines = newlines + 1;
        begin = i + 1;
        begin_byte = byte + 1;
    }
    let line = newlines + 1;
    let column = if begin <= i { i - begin + 1 } else { 1 };
    // Walk to the end of the shown line, counting the characters to
    // underline on the way.
    let end = span.end as usize;
    let mut j: usize = i;
    let mut j_byte: usize = byte;
    let mut highlight: usize = 0;
    let mut counting = true;
    proof {
        lemma_chars_below_shift(cs, k, next_break(cs, k + 1), end as int);
    }
    while j < chars.len() && (j == i || chars[j] != '\n')
        invariant
            chars@ == cs,
            i == k,
            k < cs.len(),
            k <= j <= cs.len(),
            j_byte == byte_offset(cs, j as int),
            j == k || next_break(cs, k + 1) >= j,
            forall|m: int| k < m < j ==> cs[m] != '\n',
            utf8_len(cs) <= isize::MAX,
            byte_offset(cs, cs.len() as int) == utf8_len(cs),
            highlight <= j - k,
            counting ==> highlight + chars_below(cs, j as int, next_break(cs, k + 1), end as int)
                == chars_below(cs, k, next_break(cs, k + 1), end as int),
            !counting ==> highlight == chars_below(cs, k, next_break(cs, k + 1), end as int),
        decreases cs.len() - j,
    {
        proof {
            lemma_byte_offset_step(cs, j as int);
            lemma_offsets_ordered(cs, j as int + 1, cs.len() as int);
            lemma_next_break_ge(cs, k + 1);
            if j > k {
                lemma_next_break_from(cs, k + 1, j as int);
                lemma_next_break_ge(cs, j as int + 1);
            }
        }
        if counting {
            if j_byte < end {
                highlight = highlight + 1;
            } else {
                counting = false;
            }
        }
        j_byte = j_byte + len_utf8(chars[j]);
        j = j + 1;
    }
    proof {
        lemma_next_break_at(cs, k + 1, j as int);
        lemma_line_begin_prefix(cs, k + 1);
    }
    LabelLocation { line, column, line_start: begin_byte, line_end: j_byte, highlight }
}

/// Byte offsets grow strictly with the character index.
proof fn lemma_offsets_ordered(cs: Seq<char>, i: int, j: int)
    requires
        0 <= i <= j <= cs.len(),
    ensures
        byte_offset(cs, i) + (j - i) <= byte_offset(cs, j),
    decreases j - i,
{
    if i < j {
        lemma_offsets_ordered(cs, i, j - 1);
        lemma_byte_offset_step(cs, j - 1);
    }
}

proof fn lemma_chars_below_shift(cs: Seq<char>, k: int, to: int, limit: int)
    ensures
        chars_below(cs, k, to, limit) <= if to > k { to - k } else { 0 },
    decreases to - k,
{
    if k < to && byte_offset(cs, k) < limit {
        lemma_chars_below_shift(cs, k + 1, to, limit);
    }
}

proof fn lemma_next_break_ge(cs: Seq<char>, p: int)
    requires
        0 <= p <= cs.len(),
    ensures
        p <= next_break(cs, p) <= cs.len(),
    decreases cs.len() - p,
{
    if p < cs.len() && cs[p] != '\n' {
        lemma_next_break_ge(cs, p + 1);
    }
}

proof fn lemma_next_break_from(cs: Seq<char>, p: int, j: int)
    requires
        0 <= p <= j <= cs.len(),
        forall|m: int| p <= m < j ==> cs[m] != '\n',
    ensures
        next_break(cs, p) == next_break(cs, j),
    decreases j - p,
{
    if p < j {
        lemma_next_break_from(cs, p + 1, j);
    }
}

proof fn lemma_next_break_at(cs: Seq<char>, p: int, j: int)
    requires
        0 <= p <= j <= cs.len(),
        forall|m: int| p <= m < j ==> cs[m] != '\n',
        j == cs.len() || cs[j] == '\n',
    ensures
        next_break(cs, p) == j,
{
    lemma_next_break_from(cs, p, j);
}

proof fn lemma_line_begin_prefix(cs: Seq<char>, p: int)
    requires
        0 <= p <= cs.len(),
    ensures
        0 <= line_begin(cs, p) <= p,
    decreases p,
{
    if p > 0 && cs[p - 1] != '\n' {
        lemma_line_begin_prefix(cs, p - 1);
    }
}

} // verus!
