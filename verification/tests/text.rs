use chip::decimal::{i64_text, u64_text, usize_text};
use chip::error::{compile_folder, format_parse_error, ChipError};
use chip::text::{CodeText, TextLocation};
use lalrpop_util::lexer::Token;
use lalrpop_util::ParseError;
use std::path::PathBuf;
use std::rc::Rc;

fn source(text: &str) -> CodeText {
    CodeText::new(PathBuf::from("dir/file.chip"), text.to_string())
}

fn place(code: &CodeText, pos: usize) -> (usize, usize) {
    let TextLocation(line, column) = code.line_col(pos);
    (line, column)
}

fn report(text: &str, error: ParseError<usize, Token, ChipError>) -> String {
    match format_parse_error(Rc::new(source(text)), error) {
        ChipError::PreFormatted(report) => report,
        other => panic!("not put into words: {:?}", other),
    }
}

#[test]
fn text_and_path_are_kept() {
    let code = source("one\ntwo");
    assert_eq!(code.text(), "one\ntwo");
    assert_eq!(code.path(), &PathBuf::from("dir/file.chip"));
    let copy = code.clone();
    assert_eq!(copy.text(), "one\ntwo");
    assert_eq!(copy.path(), code.path());
    assert_eq!(copy.line_offsets(), code.line_offsets());
}

#[test]
fn lines_start_behind_each_line_feed() {
    assert_eq!(source("").line_offsets(), &vec![0]);
    assert_eq!(source("abc").line_offsets(), &vec![0]);
    assert_eq!(source("ab\ncd\n\nef").line_offsets(), &vec![0, 3, 6, 7]);
    assert_eq!(source("\n").line_offsets(), &vec![0, 1]);
    assert_eq!(source("é\nü").line_offsets(), &vec![0, 3]);
}

#[test]
fn offsets_have_a_line_and_a_column() {
    let code = source("ab\ncd\n\nef");
    assert_eq!(place(&code, 0), (0, 0));
    assert_eq!(place(&code, 1), (0, 1));
    assert_eq!(place(&code, 2), (0, 2));
    assert_eq!(place(&code, 3), (1, 0));
    assert_eq!(place(&code, 5), (1, 2));
    assert_eq!(place(&code, 6), (2, 0));
    assert_eq!(place(&code, 7), (3, 0));
    assert_eq!(place(&code, 8), (3, 1));
    assert_eq!(place(&code, 9), (3, 2));
    assert_eq!(place(&code, 100), (3, 93));
    assert_eq!(place(&source(""), 0), (0, 0));
    assert_eq!(place(&source(""), 4), (0, 4));
}

#[test]
fn lines_come_without_their_line_feed() {
    let code = source("ab\ncd\n\nef");
    assert_eq!(code.line_text(0), "ab");
    assert_eq!(code.line_text(1), "cd");
    assert_eq!(code.line_text(2), "");
    assert_eq!(code.line_text(3), "ef");
    let code = source("größe\nmaß\n");
    assert_eq!(code.line_text(0), "größe");
    assert_eq!(code.line_text(1), "maß");
    assert_eq!(code.line_text(2), "");
    assert_eq!(source("").line_text(0), "");
}

#[test]
fn locations_read_line_colon_column() {
    assert_eq!(TextLocation(0, 0).render(), "0:0");
    assert_eq!(TextLocation(12, 345).render(), "12:345");
}

#[test]
fn numbers_read_as_decimals() {
    assert_eq!(u64_text(0), "0");
    assert_eq!(u64_text(9), "9");
    assert_eq!(u64_text(10), "10");
    assert_eq!(u64_text(1234567890), "1234567890");
    assert_eq!(u64_text(u64::MAX), "18446744073709551615");
    assert_eq!(usize_text(4096), "4096");
    assert_eq!(i64_text(-1), "-1");
    assert_eq!(i64_text(i64::MIN), i64::MIN.to_string());
    assert_eq!(i64_text(i64::MAX), i64::MAX.to_string());
}

// 9223372036854775808
#[test]
fn number_too_big() {
    assert!("9223372036854775808".parse::<i64>().is_err());
    let error = ParseError::User::<usize, Token, _> { error: ChipError::InputTooBig };
    assert_eq!(
        format!("{:?}", error),
        format!("{:?}", ParseError::User::<usize, Token, _> { error: ChipError::InputTooBig })
    );
    assert_eq!(ChipError::InputTooBig.debug_text(), "InputTooBig");
    assert_eq!(report("9223372036854775808", error), "\"dir/file.chip\" InputTooBig\n");
}

#[test]
fn invalid_token_is_reported_with_its_line() {
    assert_eq!(
        report("let a = 3\nlet b = $\n", ParseError::InvalidToken { location: 18 }),
        "\"dir/file.chip\":1:8 Encountered invalid token\nlet b = $\n"
    );
}

#[test]
fn unexpected_end_lists_what_was_expected() {
    assert_eq!(
        report(
            "a +",
            ParseError::UnrecognizedEof {
                location: 3,
                expected: vec!["\"(\"".to_string(), "r#\"[0-9]+\"#".to_string()],
            }
        ),
        "\"dir/file.chip\":0:3 Encountered unexpected EOF, expected one of \
         [\"\\\"(\\\"\", \"r#\\\"[0-9]+\\\"#\"]\na +\n"
    );
    assert_eq!(
        report("", ParseError::UnrecognizedEof { location: 0, expected: vec![] }),
        "\"dir/file.chip\":0:0 Encountered unexpected EOF, expected one of []\n\n"
    );
}

#[test]
fn unrecognised_token_is_reported_with_its_span() {
    assert_eq!(
        report(
            "x\n3 * * 2",
            ParseError::UnrecognizedToken {
                token: (6, Token(4, "*"), 7),
                expected: vec!["\"(\"".to_string()],
            }
        ),
        "\"dir/file.chip\":1:4 Encountered unrecognised token * at 6 - 7, expected one of \
         [\"\\\"(\\\"\"]\n3 * * 2\n"
    );
}

#[test]
fn extra_token_is_reported_with_its_span() {
    assert_eq!(
        report("a b", ParseError::ExtraToken { token: (2, Token(1, "b"), 3) }),
        "\"dir/file.chip\":0:2 Encountered extra token b at 2 - 3\na b\n"
    );
}

#[test]
fn user_errors_are_reported_without_a_place() {
    assert_eq!(
        report("<A></B>", ParseError::User { error: ChipError::TagClosedIncorrectly }),
        "\"dir/file.chip\" TagClosedIncorrectly\n"
    );
    assert_eq!(
        report("x", ParseError::User { error: ChipError::PreFormatted("a \"b\"".to_string()) }),
        "\"dir/file.chip\" PreFormatted(\"a \\\"b\\\"\")\n"
    );
}

#[test]
fn errors_have_messages() {
    assert_eq!(ChipError::InputTooBig.message(), "[MainError InputTooBig]");
    assert_eq!(ChipError::TagClosedIncorrectly.message(), "[MainError TagClosedIncorrectly]");
    assert_eq!(ChipError::PreFormatted("as it is".to_string()).message(), "as it is");
    assert_eq!(
        ChipError::Multiple(vec!["first".to_string(), "second".to_string()]).message(),
        "first\nsecond\n"
    );
    assert_eq!(ChipError::Multiple(vec![]).message(), "");
    assert_eq!(
        ChipError::ParserError(
            Rc::new(source("text")),
            vec!["one".to_string(), "two".to_string()],
            "fatal".to_string()
        )
        .message(),
        "[MainError Parser on file \"dir/file.chip\":  Error fatal with error vec [one, two]"
    );
}

#[test]
fn errors_have_debug_texts() {
    assert_eq!(
        ChipError::Multiple(vec!["first".to_string(), "second".to_string()]).debug_text(),
        "Multiple([first, second])"
    );
    assert_eq!(
        ChipError::ParserError(Rc::new(source("a\nb")), vec![], "fatal".to_string()).debug_text(),
        "ParserError(CodeText { path: \"dir/file.chip\", text: \"a\\nb\", newlines: [0, 2] }, \
         [], fatal)"
    );
    assert_eq!(
        source("a\nb").debug_text(),
        format!("{:?}", source("a\nb"))
    );
}

#[test]
fn a_folder_fails_with_the_failures_of_its_files() {
    assert!(compile_folder(vec![]).is_ok());
    assert!(compile_folder(vec![Ok(()), Ok(())]).is_ok());
    let outcome = compile_folder(vec![
        Ok(()),
        Err("first".to_string()),
        Ok(()),
        Err("second".to_string()),
    ]);
    match outcome {
        Err(ChipError::Multiple(failures)) => assert_eq!(failures, vec!["first", "second"]),
        other => panic!("unexpected outcome {:?}", other),
    }
}
