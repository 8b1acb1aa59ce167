//! The lines of a rule file.
//!
//! A line ends at a line feed; a carriage return that stands before that
//! line feed belongs to the line ending. What follows the last line feed is
//! a line of its own unless it is empty. Byte-order marks at the head of
//! the file are no part of its first line.

use crate::utility::text::texts;
use vstd::prelude::*;
use vstd::string::StrSliceExecFns;
use vstd::string::StringExecFns;

verus! {

/// The byte-order mark.
pub open spec fn is_mark(c: char) -> bool {
    c == '\u{feff}'
}

/// Where the line that begins at `from` breaks: the index of the next line
/// feed, or the length of the text where there is none.
pub open spec fn next_break(text: Seq<char>, from: int) -> int
    decreases text.len() - from,
{
    if from >= text.len() {
        text.len() as int
    } else if text[from] == '\n' {
        from
    } else {
        next_break(text, from + 1)
    }
}

/// Where the content of the line `text[from..end]` stops, `end` being its
/// break: before the carriage return that ends it, if it has one and a line
/// feed follows.
pub open spec fn content_end(text: Seq<char>, from: int, end: int) -> int {
    if from < end < text.len() && text[end - 1] == '\r' {
        end - 1
    } else {
        end
    }
}

/// The lines of `text` from index `from` on.
pub open spec fn lines_from(text: Seq<char>, from: int) -> Seq<Seq<char>>
    decreases text.len() - from,
{
    if from < 0 || from >= text.len() {
        Seq::empty()
    } else {
        proof {
            lemma_next_break(text, from);
        }
        let end = next_break(text, from);
        seq![text.subrange(from, content_end(text, from, end))] + if end < text.len() {
            lines_from(text, end + 1)
        } else {
            Seq::empty()
        }
    }
}

/// How many byte-order marks stand before index `upto` of a text that
/// begins with nothing else: the length of its head of marks, up to `upto`.
pub open spec fn marks(text: Seq<char>, upto: int) -> int
    decreases upto,
{
    if upto <= 0 || upto > text.len() {
        0
    } else if marks(text, upto - 1) == upto - 1 && is_mark(text[upto - 1]) {
        upto
    } else {
        marks(text, upto - 1)
    }
}

/// The lines of a rule file: the lines of the text behind its byte-order
/// marks.
pub open spec fn rule_lines(text: Seq<char>) -> Seq<Seq<char>> {
    lines_from(text, marks(text, text.len() as int))
}

/// The break is within the text and not before the start of the line.
pub proof fn lemma_next_break(text: Seq<char>, from: int)
    requires
        0 <= from <= text.len(),
    ensures
        from <= next_break(text, from) <= text.len(),
        next_break(text, from) < text.len() ==> text[next_break(text, from)] == '\n',
        forall|i: int| from <= i < next_break(text, from) ==> text[i] != '\n',
    decreases text.len() - from,
{
    if from < text.len() && text[from] != '\n' {
        lemma_next_break(text, from + 1);
    }
}

/// Counts the byte-order marks at the head of a text.
fn count_marks(text: &str, len: usize) -> (count: usize)
    requires
        len == text@.len(),
    ensures
        count == marks(text@, len as int),
        count <= len,
{
    let mut count: usize = 0;
    while count < len
        invariant_except_break
            count == marks(text@, count as int),
        invariant
            count <= len,
            len == text@.len(),
        ensures
            count <= len,
            count == marks(text@, count as int),
            count < len ==> !is_mark(text@[count as int]),
        decreases len - count,
    {
        if text.get_char(count) != '\u{feff}' {
            break ;
        }
        count = count + 1;
    }
    proof {
        lemma_marks_stop(text@, count as int, len as int);
    }
    count
}

/// Behind the first character that is no mark, the count of marks stays.
pub proof fn lemma_marks_stop(text: Seq<char>, count: int, upto: int)
    requires
        0 <= count <= upto <= text.len(),
        count == marks(text, count),
        count < text.len() ==> !is_mark(text[count]),
    ensures
        marks(text, upto) == count,
    decreases upto - count,
{
    if upto > count {
        lemma_marks_stop(text, count, upto - 1);
    }
}

/// Splits the text of a rule file into its lines.
pub fn split_rule_lines(text: &str) -> (lines: Vec<String>)
    ensures
        texts(lines@) == rule_lines(text@),
{
    let len = text.unicode_len();
    let start = count_marks(text, len);
    let mut lines: Vec<String> = Vec::new();
    let mut from: usize = start;
    assert(texts(lines@) =~= Seq::<Seq<char>>::empty());
    while from < len
        invariant
            from <= len,
            len == text@.len(),
            rule_lines(text@) == texts(lines@) + lines_from(text@, from as int),
        decreases len - from,
    {
        let mut end: usize = from;
        while end < len
            invariant_except_break
                next_break(text@, from as int) == next_break(text@, end as int),
            invariant
                from <= end <= len,
                len == text@.len(),
            ensures
                from <= end <= len,
                next_break(text@, from as int) == end,
            decreases len - end,
        {
            if text.get_char(end) == '\n' {
                break ;
            }
            end = end + 1;
        }
        let stop = if from < end && end < len && text.get_char(end - 1) == '\r' {
            end - 1
        } else {
            end
        };
        let ghost before = texts(lines@);
        let line = String::from_str(text.substring_char(from, stop));
        lines.push(line);
        assert(texts(lines@) =~= before.push(text@.subrange(from as int, stop as int)));
        assert(before + (seq![text@.subrange(from as int, stop as int)] + lines_from(
            text@,
            end + 1,
        )) =~= before.push(text@.subrange(from as int, stop as int)) + lines_from(text@, end + 1));
        if end == len {
            from = len;
            assert(lines_from(text@, end + 1) =~= lines_from(text@, len as int));
        } else {
            from = end + 1;
        }
    }
    assert(lines_from(text@, from as int) =~= Seq::<Seq<char>>::empty());
    lines
}

} // verus!
