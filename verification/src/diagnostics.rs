//! The diagnostics that type checking reports.
//!
//! A diagnostic has a severity, a message, labels that point into the source
//! (the primary one at the place of the error, secondary ones at what
//! contributed to it) and free-text notes.

use crate::types::{type_text, ChipType, TypeShape};
use codespan_reporting::diagnostic::{Diagnostic, Label, LabelStyle, Severity};
use std::ops::Range;
use vstd::prelude::*;
use vstd::string::StringExecFns;

verus! {

#[verifier::external_type_specification]
pub struct ExSeverity(Severity);

#[verifier::external_type_specification]
pub struct ExLabelStyle(LabelStyle);

#[verifier::external_type_specification]
#[verifier::reject_recursive_types(FileId)]
pub struct ExLabel<FileId>(Label<FileId>);

#[verifier::external_type_specification]
#[verifier::reject_recursive_types(FileId)]
pub struct ExDiagnostic<FileId>(Diagnostic<FileId>);

/// What a label says: its style, the byte range it underlines, its message.
pub struct LabelShape {
    pub style: LabelStyle,
    pub start: usize,
    pub end: usize,
    pub message: Seq<char>,
}

/// What a diagnostic says.
pub struct DiagnosticShape {
    pub severity: Severity,
    pub code: Option<Seq<char>>,
    pub message: Seq<char>,
    pub labels: Seq<LabelShape>,
    pub notes: Seq<Seq<char>>,
}

pub open spec fn label_shape(label: Label<()>) -> LabelShape {
    LabelShape {
        style: label.style,
        start: label.range.start,
        end: label.range.end,
        message: label.message@,
    }
}

pub open spec fn diagnostic_shape(diagnostic: Diagnostic<()>) -> DiagnosticShape {
    DiagnosticShape {
        severity: diagnostic.severity,
        code: match diagnostic.code {
            Some(code) => Some(code@),
            None => None,
        },
        message: diagnostic.message@,
        labels: Seq::new(diagnostic.labels@.len(), |i: int| label_shape(diagnostic.labels@[i])),
        notes: Seq::new(diagnostic.notes@.len(), |i: int| diagnostic.notes@[i]@),
    }
}

pub open spec fn primary(range: (usize, usize), message: Seq<char>) -> LabelShape {
    LabelShape { style: LabelStyle::Primary, start: range.0, end: range.1, message }
}

pub open spec fn secondary(range: (usize, usize), message: Seq<char>) -> LabelShape {
    LabelShape { style: LabelStyle::Secondary, start: range.0, end: range.1, message }
}

/// An error without a code.
pub open spec fn error_shape(
    message: Seq<char>,
    labels: Seq<LabelShape>,
    notes: Seq<Seq<char>>,
) -> DiagnosticShape {
    DiagnosticShape { severity: Severity::Error, code: None, message, labels, notes }
}

/// The two sides of an operation have different types.
pub open spec fn incompatible_operands(
    range: (usize, usize),
    left_range: (usize, usize),
    left: TypeShape,
    right_range: (usize, usize),
    right: TypeShape,
) -> DiagnosticShape {
    error_shape(
        "Incompatible types"@,
        seq![
            primary(range, "The two sides of this operation have different types"@),
            secondary(left_range, "Type "@ + type_text(left)),
            secondary(right_range, "Type "@ + type_text(right)),
        ],
        seq![],
    )
}

/// An assignment gives a binding a value of another type than the binding's.
pub open spec fn incompatible_assignment(
    range: (usize, usize),
    value_range: (usize, usize),
    expected: TypeShape,
    found: TypeShape,
) -> DiagnosticShape {
    error_shape(
        "Incompatible types"@,
        seq![
            primary(range, "Trying to assign wrong value to a let-binding"@),
            secondary(
                value_range,
                "Expected type "@ + type_text(expected) + ", found "@ + type_text(found),
            ),
        ],
        seq![],
    )
}

/// A `let` statement that binds `name`.
pub open spec fn suggested_binding(name: Seq<char>) -> Seq<char> {
    "let "@ + name + " = 123;"@
}

/// The hint that an undefined name gets: how to bind it.
pub open spec fn let_hint(name: Seq<char>) -> Seq<char> {
    "Hint: define `"@ + name + "` with a let-binding\n\ne.g. `"@ + suggested_binding(name) + "`"@
}

/// A name is used that no binding defines.
pub open spec fn undefined_identifier(name: Seq<char>, range: (usize, usize)) -> DiagnosticShape {
    error_shape("Undefined identifier"@, seq![primary(range, "Undefined"@)], seq![let_hint(name)])
}

/// The right-hand side of an assignment yields no value.
pub open spec fn missing_assigned_value(value_range: (usize, usize)) -> DiagnosticShape {
    error_shape(
        "Right-hand side of assign must have a return value"@,
        seq![primary(value_range, "This statement returns nothing"@)],
        seq![],
    )
}

/// The initializer of a `let` yields no value.
pub open spec fn missing_initial_value(range: (usize, usize)) -> DiagnosticShape {
    error_shape(
        "Right-hand side of let-assign must have a return value"@,
        seq![primary(range, "Incompatible types"@)],
        seq![],
    )
}

/// An operand of an operation yields no value.
pub open spec fn missing_operand_value(operand_range: (usize, usize)) -> DiagnosticShape {
    error_shape(
        "Operand of operation must have a return value"@,
        seq![primary(operand_range, "This statement returns nothing"@)],
        seq![],
    )
}

/// A statement of a form that has no typing rule.
pub open spec fn unsupported_statement(range: (usize, usize)) -> DiagnosticShape {
    error_shape(
        "Unsupported statement"@,
        seq![primary(range, "This form of statement has no type"@)],
        seq![],
    )
}

fn label(style: LabelStyle, range: (usize, usize), message: String) -> (out: Label<()>)
    ensures
        label_shape(out) == (LabelShape {
            style,
            start: range.0,
            end: range.1,
            message: message@,
        }),
{
    Label { style, file_id: (), range: Range { start: range.0, end: range.1 }, message }
}

fn error(message: &str, labels: Vec<Label<()>>, notes: Vec<String>) -> (out: Diagnostic<()>)
    ensures
        diagnostic_shape(out) == error_shape(
            message@,
            Seq::new(labels@.len(), |i: int| label_shape(labels@[i])),
            Seq::new(notes@.len(), |i: int| notes@[i]@),
        ),
{
    Diagnostic {
        severity: Severity::Error,
        code: None,
        message: String::from_str(message),
        labels,
        notes,
    }
}

fn error_at(message: &str, range: (usize, usize), label_message: &str) -> (out: Diagnostic<()>)
    ensures
        diagnostic_shape(out) == error_shape(
            message@,
            seq![primary(range, label_message@)],
            seq![],
        ),
{
    let mut labels: Vec<Label<()>> = Vec::new();
    labels.push(label(LabelStyle::Primary, range, String::from_str(label_message)));
    let out = error(message, labels, Vec::new());
    proof {
        assert(diagnostic_shape(out).labels =~= seq![primary(range, label_message@)]);
        assert(diagnostic_shape(out).notes =~= seq![]);
    }
    out
}

pub fn incompatible_operands_error(
    range: (usize, usize),
    left_range: (usize, usize),
    left: &ChipType,
    right_range: (usize, usize),
    right: &ChipType,
) -> (out: Diagnostic<()>)
    ensures
        diagnostic_shape(out) == incompatible_operands(
            range,
            left_range,
            left@,
            right_range,
            right@,
        ),
{
    let mut left_message = String::from_str("Type ");
    left_message.append(left.display_name().as_str());
    let mut right_message = String::from_str("Type ");
    right_message.append(right.display_name().as_str());
    let mut labels: Vec<Label<()>> = Vec::new();
    labels.push(
        label(
            LabelStyle::Primary,
            range,
            String::from_str("The two sides of this operation have different types"),
        ),
    );
    labels.push(label(LabelStyle::Secondary, left_range, left_message));
    labels.push(label(LabelStyle::Secondary, right_range, right_message));
    let out = error("Incompatible types", labels, Vec::new());
    proof {
        assert(diagnostic_shape(out).labels =~= incompatible_operands(
            range,
            left_range,
            left@,
            right_range,
            right@,
        ).labels);
        assert(diagnostic_shape(out).notes =~= seq![]);
    }
    out
}

pub fn incompatible_assignment_error(
    range: (usize, usize),
    value_range: (usize, usize),
    expected: &ChipType,
    found: &ChipType,
) -> (out: Diagnostic<()>)
    ensures
        diagnostic_shape(out) == incompatible_assignment(range, value_range, expected@, found@),
{
    let mut message = String::from_str("Expected type ");
    message.append(expected.display_name().as_str());
    message.append(", found ");
    message.append(found.display_name().as_str());
    let mut labels: Vec<Label<()>> = Vec::new();
    labels.push(
        label(
            LabelStyle::Primary,
            range,
            String::from_str("Trying to assign wrong value to a let-binding"),
        ),
    );
    labels.push(label(LabelStyle::Secondary, value_range, message));
    let out = error("Incompatible types", labels, Vec::new());
    proof {
        assert(diagnostic_shape(out).labels =~= incompatible_assignment(
            range,
            value_range,
            expected@,
            found@,
        ).labels);
        assert(diagnostic_shape(out).notes =~= seq![]);
    }
    out
}

pub fn undefined_identifier_error(name: &str, range: (usize, usize)) -> (out: Diagnostic<()>)
    ensures
        diagnostic_shape(out) == undefined_identifier(name@, range),
{
    let mut hint = String::from_str("Hint: define `");
    hint.append(name);
    hint.append("` with a let-binding\n\ne.g. `");
    hint.append("let ");
    hint.append(name);
    hint.append(" = 123;");
    hint.append("`");
    let mut labels: Vec<Label<()>> = Vec::new();
    labels.push(label(LabelStyle::Primary, range, String::from_str("Undefined")));
    let mut notes: Vec<String> = Vec::new();
    notes.push(hint);
    let out = error("Undefined identifier", labels, notes);
    proof {
        assert(diagnostic_shape(out).labels =~= seq![primary(range, "Undefined"@)]);
        assert(hint@ =~= let_hint(name@));
        assert(diagnostic_shape(out).notes =~= seq![let_hint(name@)]);
    }
    out
}

pub fn missing_assigned_value_error(value_range: (usize, usize)) -> (out: Diagnostic<()>)
    ensures
        diagnostic_shape(out) == missing_assigned_value(value_range),
{
    error_at(
        "Right-hand side of assign must have a return value",
        value_range,
        "This statement returns nothing",
    )
}

pub fn missing_initial_value_error(range: (usize, usize)) -> (out: Diagnostic<()>)
    ensures
        diagnostic_shape(out) == missing_initial_value(range),
{
    error_at("Right-hand side of let-assign must have a return value", range, "Incompatible types")
}

pub fn missing_operand_value_error(operand_range: (usize, usize)) -> (out: Diagnostic<()>)
    ensures
        diagnostic_shape(out) == missing_operand_value(operand_range),
{
    error_at(
        "Operand of operation must have a return value",
        operand_range,
        "This statement returns nothing",
    )
}

pub fn unsupported_statement_error(range: (usize, usize)) -> (out: Diagnostic<()>)
    ensures
        diagnostic_shape(out) == unsupported_statement(range),
{
    error_at("Unsupported statement", range, "This form of statement has no type")
}

} // verus!
