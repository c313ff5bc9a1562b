//! Source text with the lines it is made of.

use std::path::PathBuf;
use vstd::prelude::*;
use vstd::string::StringSliceAdditionalSpecFns;
use crate::decimal::{decimal, usize_text};
use vstd::string::StringExecFns;
use vstd::utf8::{
    decode_utf8, encode_utf8, encode_utf8_decode_utf8, encode_utf8_valid_utf8, is_char_boundary,
    is_char_boundary_iff_not_is_continuation_byte, is_char_boundary_start_end_of_seq,
    pop_first_scalar, valid_utf8, valid_utf8_split,
};

verus! {

#[verifier::external_type_specification]
#[verifier::external_body]
pub struct ExPathBuf(PathBuf);

/// `PathBuf::clone`: a path equal to the one it was made from.
pub assume_specification[ <PathBuf as Clone>::clone ](path: &PathBuf) -> (out: PathBuf)
    ensures
        out == *path,
;

/// The byte of a line feed.
pub const LINE_FEED: u8 = 10;

/// The offsets at which the lines of `bytes` start: offset 0, and the offset
/// behind each line feed.
pub open spec fn line_starts(bytes: Seq<u8>) -> Seq<int>
    decreases bytes.len(),
{
    if bytes.len() == 0 {
        seq![0int]
    } else if bytes.last() == LINE_FEED {
        line_starts(bytes.drop_last()).push(bytes.len() as int)
    } else {
        line_starts(bytes.drop_last())
    }
}

/// The line starts are in the text or at its end, in rising order, the first
/// one is 0, and each of the others stands behind a line feed.
pub proof fn lemma_line_starts(bytes: Seq<u8>)
    ensures
        line_starts(bytes).len() > 0,
        line_starts(bytes)[0] == 0,
        forall|i: int|
            0 <= i < line_starts(bytes).len() ==> 0 <= (#[trigger] line_starts(bytes)[i])
                <= bytes.len(),
        forall|i: int, j: int|
            0 <= i < j < line_starts(bytes).len() ==> (#[trigger] line_starts(bytes)[i]) < (
            #[trigger] line_starts(bytes)[j]),
        forall|i: int|
            1 <= i < line_starts(bytes).len() ==> (#[trigger] line_starts(bytes)[i]) >= 1
                && bytes[line_starts(bytes)[i] - 1] == LINE_FEED,
    decreases bytes.len(),
{
    if bytes.len() > 0 {
        lemma_line_starts(bytes.drop_last());
    }
}

/// Offsets as numbers.
pub open spec fn as_ints(offsets: Seq<usize>) -> Seq<int> {
    Seq::new(offsets.len(), |i: int| offsets[i] as int)
}

/// The line that the byte offset `pos` lies in: the last of the lines with the
/// starts `starts` that starts at or before `pos`.
pub open spec fn line_index(starts: Seq<int>, pos: int) -> int
    decreases starts.len(),
{
    if starts.len() <= 1 {
        0
    } else if starts.last() <= pos {
        starts.len() - 1
    } else {
        line_index(starts.drop_last(), pos)
    }
}

/// Among rising line starts, the line that starts at or before `pos` and
/// whose successor, if it has one, starts behind `pos` is the line of `pos`.
pub proof fn lemma_line_index(starts: Seq<int>, pos: int, line: int)
    requires
        0 <= line < starts.len(),
        starts[line] <= pos,
        line + 1 < starts.len() ==> pos < starts[line + 1],
        forall|i: int, j: int| 0 <= i < j < starts.len() ==> starts[i] < starts[j],
    ensures
        line_index(starts, pos) == line,
    decreases starts.len(),
{
    if starts.len() > 1 && line + 1 < starts.len() {
        lemma_line_index(starts.drop_last(), pos, line);
    }
}

/// In well-formed text a line feed is a character of its own: a character
/// starts at it and one starts, or the text ends, behind it.
proof fn lemma_line_feed_boundaries(bytes: Seq<u8>, i: int)
    requires
        valid_utf8(bytes),
        0 <= i < bytes.len(),
        bytes[i] == LINE_FEED,
    ensures
        is_char_boundary(bytes, i),
        is_char_boundary(bytes, i + 1),
{
    is_char_boundary_iff_not_is_continuation_byte(bytes, i);
    if i + 1 == bytes.len() {
        is_char_boundary_start_end_of_seq(bytes);
    } else {
        let tail = bytes.subrange(i, bytes.len() as int);
        valid_utf8_split(bytes, i);
        assert(tail[0] == LINE_FEED);
        let rest = pop_first_scalar(tail);
        assert(rest =~= bytes.subrange(i + 1, bytes.len() as int));
        assert(valid_utf8(rest));
        is_char_boundary_start_end_of_seq(rest);
        is_char_boundary_iff_not_is_continuation_byte(rest, 0);
        assert(rest[0] == bytes[i + 1]);
        is_char_boundary_iff_not_is_continuation_byte(bytes, i + 1);
    }
}

/// A character boundary of a text is one of the rest of the text behind an
/// earlier boundary.
proof fn lemma_boundary_in_tail(bytes: Seq<u8>, start: int, end: int)
    requires
        valid_utf8(bytes),
        0 <= start <= end <= bytes.len(),
        is_char_boundary(bytes, start),
        is_char_boundary(bytes, end),
    ensures
        valid_utf8(bytes.subrange(start, bytes.len() as int)),
        is_char_boundary(bytes.subrange(start, bytes.len() as int), end - start),
{
    let tail = bytes.subrange(start, bytes.len() as int);
    valid_utf8_split(bytes, start);
    if end == bytes.len() {
        is_char_boundary_start_end_of_seq(tail);
    } else {
        is_char_boundary_iff_not_is_continuation_byte(bytes, end);
        is_char_boundary_iff_not_is_continuation_byte(tail, end - start);
    }
}

/// The bytes of a line of a text with the line starts `starts`: from the start
/// of the line up to the line feed that ends it, or to the end of the text.
pub open spec fn line_bytes(bytes: Seq<u8>, starts: Seq<int>, line: int) -> Seq<u8> {
    if line + 1 == starts.len() {
        bytes.subrange(starts[line], bytes.len() as int)
    } else {
        bytes.subrange(starts[line], starts[line + 1] - 1)
    }
}

/// A source file: where it came from, its text, and where its lines start.
#[derive(Debug)]
pub struct CodeText {
    path: PathBuf,
    text: String,
    newlines: Vec<usize>,
}

impl Clone for CodeText {
    fn clone(&self) -> (out: CodeText)
        ensures
            out.content() == self.content(),
            out.location() == self.location(),
    {
        proof {
            use_type_invariant(self);
        }
        let newlines = self.newlines.clone();
        proof {
            assert(newlines@ =~= self.newlines@);
        }
        CodeText { path: self.path.clone(), text: self.text.clone(), newlines }
    }
}

/// A location in text, specified by line and column numbers, both counted
/// from 0.
pub struct TextLocation(pub usize, pub usize);

impl CodeText {
    #[verifier::type_invariant]
    spec fn well_formed(&self) -> bool {
        &&& encode_utf8(self.text@).len() <= usize::MAX
        &&& as_ints(self.newlines@) == line_starts(encode_utf8(self.text@))
    }

    /// The characters of the text.
    pub closed spec fn content(&self) -> Seq<char> {
        self.text@
    }

    /// Where the text came from.
    pub closed spec fn location(&self) -> PathBuf {
        self.path
    }

    /// The offsets at which the lines of the text start.
    pub open spec fn lines(&self) -> Seq<int> {
        line_starts(encode_utf8(self.content()))
    }

    /// The characters of the line `line`, without the line feed that ends it.
    pub open spec fn line(&self, line: int) -> Seq<char> {
        decode_utf8(line_bytes(encode_utf8(self.content()), self.lines(), line))
    }

    /// Takes a text with the path it came from, and finds its lines.
    pub fn new(path: PathBuf, text: String) -> (out: CodeText)
        ensures
            out.content() == text@,
            out.location() == path,
    {
        let bytes = text.as_str().as_bytes();
        let mut newlines: Vec<usize> = Vec::new();
        newlines.push(0);
        let mut i: usize = 0;
        proof {
            assert(bytes@.take(0) =~= Seq::empty());
            assert(as_ints(newlines@) =~= seq![0int]);
        }
        while i < bytes.len()
            invariant
                i <= bytes.len(),
                as_ints(newlines@) == line_starts(bytes@.take(i as int)),
            decreases bytes.len() - i,
        {
            proof {
                assert(bytes@.take(i + 1).drop_last() =~= bytes@.take(i as int));
            }
            if bytes[i] == LINE_FEED {
                let ghost before = as_ints(newlines@);
                newlines.push(i + 1);
                proof {
                    assert(as_ints(newlines@) =~= before.push(i + 1));
                }
            }
            i += 1;
        }
        proof {
            assert(bytes@.take(bytes.len() as int) =~= bytes@);
        }
        CodeText { path, text, newlines }
    }

    /// The text.
    pub fn text(&self) -> (out: &String)
        ensures
            out@ == self.content(),
    {
        &self.text
    }

    /// The path that the text came from.
    pub fn path(&self) -> (out: &PathBuf)
        ensures
            *out == self.location(),
    {
        &self.path
    }

    /// The offsets at which the lines of the text start.
    pub fn line_offsets(&self) -> (out: &Vec<usize>)
        ensures
            as_ints(out@) == self.lines(),
    {
        proof {
            use_type_invariant(self);
        }
        &self.newlines
    }

    /// The text of the line `line_num`, counted from 0, without the line feed
    /// that ends it.
    pub fn line_text(&self, line_num: usize) -> (out: &str)
        requires
            line_num < self.lines().len(),
        ensures
            out.spec_bytes() == line_bytes(
                encode_utf8(self.content()),
                self.lines(),
                line_num as int,
            ),
            out@ == self.line(line_num as int),
    {
        let text = self.text.as_str();
        let ghost bytes = encode_utf8(self.text@);
        proof {
            use_type_invariant(self);
            lemma_line_starts(bytes);
            encode_utf8_valid_utf8(self.text@);
            is_char_boundary_start_end_of_seq(bytes);
            let starts = as_ints(self.newlines@);
            assert(starts[line_num as int] == self.newlines@[line_num as int]);
            if line_num + 1 < self.newlines.len() {
                assert(starts[line_num + 1] == self.newlines@[line_num + 1]);
            }
        }
        let start_offset = self.newlines[line_num];
        let end_offset = if line_num == self.newlines.len() - 1 {
            text.len()
        } else {
            self.newlines[line_num + 1] - 1
        };
        proof {
            if line_num > 0 {
                lemma_line_feed_boundaries(bytes, start_offset - 1);
            }
            if line_num + 1 < self.newlines.len() {
                lemma_line_feed_boundaries(bytes, end_offset as int);
            }
            lemma_boundary_in_tail(bytes, start_offset as int, end_offset as int);
        }
        let (_, tail) = text.split_at(start_offset);
        let (line, _) = tail.split_at(end_offset - start_offset);
        proof {
            assert(line.spec_bytes() =~= bytes.subrange(start_offset as int, end_offset as int));
            encode_utf8_decode_utf8(line@);
        }
        line
    }

    /// The line and the column of the byte offset `pos`: the line is the last
    /// one that starts at or before `pos`, the column is the distance of `pos`
    /// from the start of that line. An offset behind the end of the text
    /// counts as part of the last line.
    pub fn line_col(&self, pos: usize) -> (location: TextLocation)
        ensures
            location.0 == line_index(self.lines(), pos as int),
            location.0 < self.lines().len(),
            self.lines()[location.0 as int] <= pos,
            location.1 == pos - self.lines()[location.0 as int],
    {
        proof {
            use_type_invariant(self);
            lemma_line_starts(encode_utf8(self.text@));
        }
        let num_lines = self.newlines.len();
        let mut line: usize = 0;
        while line + 1 < num_lines && self.newlines[line + 1] <= pos
            invariant
                num_lines == self.newlines.len(),
                line < num_lines,
                self.newlines@[line as int] <= pos,
            decreases num_lines - line,
        {
            line += 1;
        }
        proof {
            let starts = as_ints(self.newlines@);
            assert(starts[line as int] == self.newlines@[line as int]);
            if line + 1 < num_lines {
                assert(starts[line + 1] == self.newlines@[line + 1]);
            }
        }
        proof {
            lemma_line_index(self.lines(), pos as int, line as int);
        }
        TextLocation(line, pos - self.newlines[line])
    }
}

impl TextLocation {
    /// The text of a location: the line, a colon, the column.
    pub open spec fn text(self) -> Seq<char> {
        decimal(self.0 as nat) + ":"@ + decimal(self.1 as nat)
    }

    /// The location as text.
    pub fn render(&self) -> (out: String)
        ensures
            out@ == self.text(),
    {
        let mut out = usize_text(self.0);
        out.append(":");
        out.append(usize_text(self.1).as_str());
        out
    }
}

} // verus!
