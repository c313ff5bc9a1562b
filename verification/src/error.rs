//! The errors of a compilation and their texts.

use crate::decimal::{decimal, usize_text};
use crate::text::{as_ints, line_index, CodeText, TextLocation};
use lalrpop_util::lexer::Token;
use lalrpop_util::ParseError;
use std::path::PathBuf;
use std::rc::Rc;
use vstd::prelude::*;
use vstd::string::StringExecFns;

verus! {

#[verifier::external_type_specification]
pub struct ExToken<'input>(Token<'input>);

#[verifier::external_type_specification]
#[verifier::reject_recursive_types(L)]
#[verifier::reject_recursive_types(T)]
#[verifier::reject_recursive_types(E)]
pub struct ExParseError<L, T, E>(ParseError<L, T, E>);

/// What went wrong in a compilation.
#[derive(Debug)]
pub enum ChipError {
    /// Several files failed. Holds the debug text of each failure.
    Multiple(Vec<String>),
    /// A number literal does not fit its type.
    InputTooBig,
    /// A tag is closed under another name than it was opened with.
    TagClosedIncorrectly,
    /// An error that was put into words already.
    PreFormatted(String),
    /// A file did not parse. Holds the file, the debug text of each error that
    /// the parser recovered from, and the debug text of the error it gave up
    /// on.
    ParserError(Rc<CodeText>, Vec<String>, String),
}

/// The text that `Debug` gives a string: in double quotes, with escapes.
pub uninterp spec fn quoted_text(text: Seq<char>) -> Seq<char>;

/// The text that `Debug` gives a path.
pub uninterp spec fn path_debug_text(path: PathBuf) -> Seq<char>;

/// `Debug` of a string.
#[verifier::external_body]
pub(crate) fn quoted(text: &str) -> (out: String)
    ensures
        out@ == quoted_text(text@),
{
    format!("{:?}", text)
}

/// `Debug` of a path.
#[verifier::external_body]
fn path_string(path: &PathBuf) -> (out: String)
    ensures
        out@ == path_debug_text(*path),
{
    format!("{:?}", path)
}

/// The items with a comma and a space between two.
pub open spec fn comma_separated(items: Seq<Seq<char>>) -> Seq<char>
    decreases items.len(),
{
    if items.len() == 0 {
        Seq::empty()
    } else if items.len() == 1 {
        items[0]
    } else {
        comma_separated(items.drop_last()) + ", "@ + items.last()
    }
}

/// The debug text of a list whose items have the debug texts `items`.
pub open spec fn list_text(items: Seq<Seq<char>>) -> Seq<char> {
    "["@ + comma_separated(items) + "]"@
}

/// The texts of a list of strings.
pub open spec fn texts(items: Seq<String>) -> Seq<Seq<char>> {
    Seq::new(items.len(), |i: int| items[i]@)
}

/// The quoted texts of a list of strings.
pub open spec fn quoted_texts(items: Seq<String>) -> Seq<Seq<char>> {
    Seq::new(items.len(), |i: int| quoted_text(items[i]@))
}

/// The decimal texts of a list of natural numbers.
pub open spec fn decimal_texts(items: Seq<int>) -> Seq<Seq<char>> {
    Seq::new(items.len(), |i: int| decimal(items[i] as nat))
}

/// Each item followed by a line break.
pub open spec fn lines_of(items: Seq<Seq<char>>) -> Seq<char>
    decreases items.len(),
{
    if items.len() == 0 {
        Seq::empty()
    } else {
        lines_of(items.drop_last()) + items.last() + "\n"@
    }
}

/// The debug text of a source file.
pub open spec fn code_debug_text(code: CodeText) -> Seq<char> {
    "CodeText { path: "@ + path_debug_text(code.location()) + ", text: "@ + quoted_text(code.content())
        + ", newlines: "@ + list_text(decimal_texts(code.lines())) + " }"@
}

/// The message of an error.
pub open spec fn error_text(error: ChipError) -> Seq<char> {
    match error {
        ChipError::InputTooBig => "[MainError InputTooBig]"@,
        ChipError::TagClosedIncorrectly => "[MainError TagClosedIncorrectly]"@,
        ChipError::ParserError(code, recovered, fatal) => "[MainError Parser on file "@
            + path_debug_text(code.location()) + ":  Error "@ + fatal@ + " with error vec "@ + list_text(
            texts(recovered@),
        ),
        ChipError::Multiple(failures) => lines_of(texts(failures@)),
        ChipError::PreFormatted(text) => text@,
    }
}

/// The debug text of an error.
pub open spec fn error_debug_text(error: ChipError) -> Seq<char> {
    match error {
        ChipError::InputTooBig => "InputTooBig"@,
        ChipError::TagClosedIncorrectly => "TagClosedIncorrectly"@,
        ChipError::ParserError(code, recovered, fatal) => "ParserError("@ + code_debug_text(*code)
            + ", "@ + list_text(texts(recovered@)) + ", "@ + fatal@ + ")"@,
        ChipError::Multiple(failures) => "Multiple("@ + list_text(texts(failures@)) + ")"@,
        ChipError::PreFormatted(text) => "PreFormatted("@ + quoted_text(text@) + ")"@,
    }
}

/// The debug text of a list from the debug texts of its items.
fn list_string(items: &Vec<String>) -> (out: String)
    ensures
        out@ == list_text(texts(items@)),
{
    let mut out = String::from_str("[");
    let ghost all = texts(items@);
    let mut i: usize = 0;
    proof {
        assert(all.take(0) =~= Seq::empty());
        assert(out@ =~= "["@ + comma_separated(all.take(0)));
    }
    while i < items.len()
        invariant
            i <= items.len(),
            all == texts(items@),
            out@ == "["@ + comma_separated(all.take(i as int)),
        decreases items.len() - i,
    {
        if i > 0 {
            out.append(", ");
        }
        out.append(items[i].as_str());
        proof {
            let taken = all.take(i + 1);
            assert(taken.drop_last() =~= all.take(i as int));
            assert(taken.last() == items@[i as int]@);
            if i == 0 {
                assert(out@ =~= "["@ + taken[0]);
            } else {
                assert(out@ =~= "["@ + (comma_separated(taken.drop_last()) + ", "@
                    + taken.last()));
            }
        }
        i += 1;
    }
    out.append("]");
    proof {
        assert(all.take(items.len() as int) =~= all);
    }
    out
}

/// Each string in its quoted form.
fn quote_all(items: &Vec<String>) -> (out: Vec<String>)
    ensures
        texts(out@) == quoted_texts(items@),
{
    let mut out: Vec<String> = Vec::new();
    let mut i: usize = 0;
    while i < items.len()
        invariant
            i <= items.len(),
            out.len() == i,
            forall|j: int| 0 <= j < i ==> (#[trigger] out@[j])@ == quoted_text(items@[j]@),
        decreases items.len() - i,
    {
        out.push(quoted(items[i].as_str()));
        i += 1;
    }
    proof {
        assert(texts(out@) =~= quoted_texts(items@));
    }
    out
}

/// Each number as decimal text.
fn decimal_all(items: &Vec<usize>) -> (out: Vec<String>)
    ensures
        texts(out@) == decimal_texts(as_ints(items@)),
{
    let mut out: Vec<String> = Vec::new();
    let mut i: usize = 0;
    while i < items.len()
        invariant
            i <= items.len(),
            out.len() == i,
            forall|j: int| 0 <= j < i ==> (#[trigger] out@[j])@ == decimal(items@[j] as nat),
        decreases items.len() - i,
    {
        out.push(usize_text(items[i]));
        i += 1;
    }
    proof {
        assert(texts(out@) =~= decimal_texts(as_ints(items@)));
    }
    out
}

impl ChipError {
    /// The message of the error.
    pub fn message(&self) -> (out: String)
        ensures
            out@ == error_text(*self),
    {
        match self {
            ChipError::InputTooBig => String::from_str("[MainError InputTooBig]"),
            ChipError::TagClosedIncorrectly => String::from_str(
                "[MainError TagClosedIncorrectly]",
            ),
            ChipError::ParserError(code, recovered, fatal) => {
                let mut out = String::from_str("[MainError Parser on file ");
                out.append(path_string(code.path()).as_str());
                out.append(":  Error ");
                out.append(fatal.as_str());
                out.append(" with error vec ");
                out.append(list_string(recovered).as_str());
                proof {
                    assert(out@ =~= error_text(*self));
                }
                out
            },
            ChipError::Multiple(failures) => {
                let mut out = String::new();
                let ghost all = texts(failures@);
                let mut i: usize = 0;
                proof {
                    assert(all.take(0) =~= Seq::empty());
                }
                while i < failures.len()
                    invariant
                        i <= failures.len(),
                        all == texts(failures@),
                        out@ == lines_of(all.take(i as int)),
                    decreases failures.len() - i,
                {
                    out.append(failures[i].as_str());
                    out.append("\n");
                    proof {
                        let taken = all.take(i + 1);
                        assert(taken.drop_last() =~= all.take(i as int));
                        assert(taken.last() == failures@[i as int]@);
                    }
                    i += 1;
                }
                proof {
                    assert(all.take(failures.len() as int) =~= all);
                }
                out
            },
            ChipError::PreFormatted(text) => text.clone(),
        }
    }

    /// The debug text of the error.
    pub fn debug_text(&self) -> (out: String)
        ensures
            out@ == error_debug_text(*self),
    {
        match self {
            ChipError::InputTooBig => String::from_str("InputTooBig"),
            ChipError::TagClosedIncorrectly => String::from_str("TagClosedIncorrectly"),
            ChipError::ParserError(code, recovered, fatal) => {
                let mut out = String::from_str("ParserError(");
                out.append(code.debug_text().as_str());
                out.append(", ");
                out.append(list_string(recovered).as_str());
                out.append(", ");
                out.append(fatal.as_str());
                out.append(")");
                proof {
                    assert(out@ =~= error_debug_text(*self));
                }
                out
            },
            ChipError::Multiple(failures) => {
                let mut out = String::from_str("Multiple(");
                out.append(list_string(failures).as_str());
                out.append(")");
                out
            },
            ChipError::PreFormatted(text) => {
                let mut out = String::from_str("PreFormatted(");
                out.append(quoted(text.as_str()).as_str());
                out.append(")");
                out
            },
        }
    }
}

impl CodeText {
    /// The debug text of the source file.
    pub fn debug_text(&self) -> (out: String)
        ensures
            out@ == code_debug_text(*self),
    {
        let mut out = String::from_str("CodeText { path: ");
        out.append(path_string(self.path()).as_str());
        out.append(", text: ");
        out.append(quoted(self.text().as_str()).as_str());
        out.append(", newlines: ");
        out.append(list_string(&decimal_all(self.line_offsets())).as_str());
        out.append(" }");
        proof {
            assert(out@ =~= code_debug_text(*self));
        }
        out
    }
}

/// The place of a parse error in a text with the line starts `starts`, if the
/// error has a place: the offset at which the parser met it.
pub open spec fn error_offset(error: ParseError<usize, Token, ChipError>) -> Option<usize> {
    match error {
        ParseError::InvalidToken { location } => Some(location),
        ParseError::UnrecognizedEof { location, .. } => Some(location),
        ParseError::UnrecognizedToken { token, .. } => Some(token.0),
        ParseError::ExtraToken { token } => Some(token.0),
        ParseError::User { .. } => None,
    }
}

/// What a parse error says.
pub open spec fn error_summary(error: ParseError<usize, Token, ChipError>) -> Seq<char> {
    match error {
        ParseError::InvalidToken { .. } => "Encountered invalid token"@,
        ParseError::UnrecognizedEof { expected, .. } =>
            "Encountered unexpected EOF, expected one of "@ + list_text(quoted_texts(expected@)),
        ParseError::UnrecognizedToken { token, expected } => "Encountered unrecognised token "@
            + token.1.1@ + " at "@ + decimal(token.0 as nat) + " - "@ + decimal(token.2 as nat)
            + ", expected one of "@ + list_text(quoted_texts(expected@)),
        ParseError::ExtraToken { token } => "Encountered extra token "@ + token.1.1@ + " at "@
            + decimal(token.0 as nat) + " - "@ + decimal(token.2 as nat),
        ParseError::User { error } => error_debug_text(error),
    }
}

/// The report of a parse error in a file: the file's path; for an error with
/// a place, a colon and the line and column of the place; what the error
/// says; and, for an error with a place, the text of the line on a line of
/// its own.
pub open spec fn parse_error_text(
    code: CodeText,
    error: ParseError<usize, Token, ChipError>,
) -> Seq<char> {
    match error_offset(error) {
        Some(offset) => {
            let line = line_index(code.lines(), offset as int);
            let location = TextLocation(
                line as usize,
                (offset - code.lines()[line]) as usize,
            );
            path_debug_text(code.location()) + ":"@ + location.text() + " "@ + error_summary(error)
                + "\n"@ + code.line(line) + "\n"@
        },
        None => path_debug_text(code.location()) + " "@ + error_summary(error) + "\n"@,
    }
}

fn token_summary(prefix: &str, token: &(usize, Token, usize)) -> (out: String)
    ensures
        out@ == prefix@ + token.1.1@ + " at "@ + decimal(token.0 as nat) + " - "@ + decimal(
            token.2 as nat,
        ),
{
    let mut out = String::from_str(prefix);
    out.append(token.1.1);
    out.append(" at ");
    out.append(usize_text(token.0).as_str());
    out.append(" - ");
    out.append(usize_text(token.2).as_str());
    out
}

/// Puts a parse error of the file `in_file` into words.
pub fn format_parse_error(in_file: Rc<CodeText>, err: ParseError<usize, Token, ChipError>) -> (out:
    ChipError)
    ensures
        out matches ChipError::PreFormatted(text) && text@ == parse_error_text(*in_file, err),
{
    let (location, summary) = match &err {
        ParseError::InvalidToken { location } => (
            Some(in_file.line_col(*location)),
            String::from_str("Encountered invalid token"),
        ),
        ParseError::UnrecognizedEof { location, expected } => {
            let mut summary = String::from_str("Encountered unexpected EOF, expected one of ");
            summary.append(list_string(&quote_all(expected)).as_str());
            (Some(in_file.line_col(*location)), summary)
        },
        ParseError::UnrecognizedToken { token, expected } => {
            let mut summary = token_summary("Encountered unrecognised token ", token);
            summary.append(", expected one of ");
            summary.append(list_string(&quote_all(expected)).as_str());
            proof {
                assert(summary@ =~= error_summary(err));
            }
            (Some(in_file.line_col(token.0)), summary)
        },
        ParseError::ExtraToken { token } => (
            Some(in_file.line_col(token.0)),
            token_summary("Encountered extra token ", token),
        ),
        ParseError::User { error } => (None, error.debug_text()),
    };
    let mut out = path_string(in_file.path());
    match location {
        Some(location) => {
            out.append(":");
            out.append(location.render().as_str());
            out.append(" ");
            out.append(summary.as_str());
            out.append("\n");
            out.append(in_file.line_text(location.0));
            out.append("\n");
        },
        None => {
            out.append(" ");
            out.append(summary.as_str());
            out.append("\n");
        },
    }
    proof {
        assert(out@ =~= parse_error_text(*in_file, err));
    }
    ChipError::PreFormatted(out)
}

/// The failures among the outcomes of the files of a folder, in the order of
/// the files.
pub open spec fn failures(results: Seq<Result<(), String>>) -> Seq<Seq<char>>
    decreases results.len(),
{
    if results.len() == 0 {
        Seq::empty()
    } else {
        match results.last() {
            Ok(_) => failures(results.drop_last()),
            Err(failure) => failures(results.drop_last()).push(failure@),
        }
    }
}

/// Sums up the compilation of the files of a folder from the outcome of each
/// file, a failure being given as its debug text: success where every file
/// compiled, else the failures of all the files that did not.
pub fn compile_folder(results: Vec<Result<(), String>>) -> (out: Result<(), ChipError>)
    ensures
        failures(results@).len() == 0 ==> out is Ok,
        failures(results@).len() > 0 ==> (out matches Err(ChipError::Multiple(all)) && texts(all@)
            == failures(results@)),
{
    let mut err_results: Vec<String> = Vec::new();
    let mut i: usize = 0;
    proof {
        assert(results@.take(0) =~= Seq::empty());
    }
    while i < results.len()
        invariant
            i <= results.len(),
            texts(err_results@) == failures(results@.take(i as int)),
        decreases results.len() - i,
    {
        proof {
            assert(results@.take(i + 1).drop_last() =~= results@.take(i as int));
            assert(results@.take(i + 1).last() == results@[i as int]);
        }
        match &results[i] {
            Ok(_) => {},
            Err(failure) => {
                let ghost before = texts(err_results@);
                err_results.push(failure.clone());
                proof {
                    assert(texts(err_results@) =~= before.push(failure@));
                }
            },
        }
        i += 1;
    }
    proof {
        assert(results@.take(results.len() as int) =~= results@);
    }
    if err_results.len() == 0 {
        Ok(())
    } else {
        Err(ChipError::Multiple(err_results))
    }
}

} // verus!
