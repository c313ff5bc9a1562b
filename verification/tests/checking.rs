use chip::ast::{Ident, IdentList, Number, Opcode, Statement, StatementList};
use chip::checking::type_check_statement;
use chip::locals::LocalMap;
use chip::types::{ChipType, Primitive};
use codespan_reporting::diagnostic::{Diagnostic, Label, LabelStyle, Severity};
use std::rc::Rc;
use walrus::ir::Value;

fn whole(value: i64, range: (usize, usize)) -> Statement<'static> {
    Statement::Number(Number::Int(value), range)
}

fn fraction(value: f64, range: (usize, usize)) -> Statement<'static> {
    Statement::Number(Number::Float(Value::F64(value)), range)
}

fn reference(text: &'static str, range: (usize, usize)) -> Statement<'static> {
    Statement::Ident(Ident(text), range)
}

fn operation(
    left: Statement<'static>,
    opcode: Opcode,
    right: Statement<'static>,
    range: (usize, usize),
) -> Statement<'static> {
    Statement::Op(Box::new(left), opcode, Box::new(right), range)
}

fn block(statements: Vec<Statement<'static>>, range: (usize, usize)) -> Statement<'static> {
    Statement::Block(StatementList(statements.into_iter().map(Box::new).collect()), range)
}

fn pair_type() -> ChipType {
    ChipType::Struct(Rc::new((
        "Pair".to_string(),
        vec![
            ("x".to_string(), ChipType::Primitive(Primitive::I64)),
            ("y".to_string(), ChipType::Primitive(Primitive::F64)),
        ],
    )))
}

fn empty_table() -> LocalMap<u32> {
    LocalMap::new()
}

#[test]
fn literals_have_the_kind_of_their_shape() {
    let mut table = empty_table();
    let (ty, range) = type_check_statement(&mut table, &whole(3, (4, 5))).unwrap();
    assert_eq!(ty, Some(ChipType::Primitive(Primitive::I64)));
    assert_eq!(range, 4..5);
    let (ty, range) = type_check_statement(&mut table, &fraction(1.5, (0, 3))).unwrap();
    assert_eq!(ty, Some(ChipType::Primitive(Primitive::F64)));
    assert_eq!(range, 0..3);
    assert!(table.names.is_empty());
}

// let a = 3; a
#[test]
fn let_then_use_checks_to_the_bound_type() {
    let mut table = empty_table();
    let tree = block(
        vec![
            Statement::LetAssign(Ident("a"), Box::new(whole(3, (8, 9))), (0, 9)),
            reference("a", (11, 12)),
        ],
        (0, 12),
    );
    let (ty, range) = type_check_statement(&mut table, &tree).unwrap();
    assert_eq!(ty, Some(ChipType::Primitive(Primitive::I64)));
    assert_eq!(range, 0..12);
    let bound = table.lookup("a").unwrap();
    assert_eq!(bound.0, None);
    assert_eq!(bound.1, ChipType::Primitive(Primitive::I64));
}

// 3 * 2 + 7
#[test]
fn nested_operation_has_the_common_type() {
    let mut table = empty_table();
    let tree = operation(
        operation(whole(3, (0, 1)), Opcode::Mul, whole(2, (4, 5)), (0, 5)),
        Opcode::Add,
        whole(7, (8, 9)),
        (0, 9),
    );
    let (ty, range) = type_check_statement(&mut table, &tree).unwrap();
    assert_eq!(ty, Some(ChipType::Primitive(Primitive::I64)));
    assert_eq!(range, 0..9);
}

#[test]
fn operation_on_two_floats_is_a_float() {
    let mut table = empty_table();
    let tree = operation(fraction(1.0, (0, 3)), Opcode::Lt, fraction(2.0, (6, 9)), (0, 9));
    let (ty, _) = type_check_statement(&mut table, &tree).unwrap();
    assert_eq!(ty, Some(ChipType::Primitive(Primitive::F64)));
}

// this == that
#[test]
fn first_undefined_operand_is_reported() {
    let mut table = empty_table();
    let tree = operation(
        reference("this", (0, 4)),
        Opcode::Eq,
        reference("that", (8, 12)),
        (0, 12),
    );
    let diagnostic = type_check_statement(&mut table, &tree).unwrap_err();
    assert_eq!(diagnostic.severity, Severity::Error);
    assert_eq!(diagnostic.code, None);
    assert_eq!(diagnostic.message, "Undefined identifier");
    assert_eq!(diagnostic.labels.len(), 1);
    assert_eq!(diagnostic.labels[0].style, LabelStyle::Primary);
    assert_eq!(diagnostic.labels[0].range, 0..4);
    assert_eq!(diagnostic.labels[0].message, "Undefined");
    assert_eq!(
        diagnostic.notes,
        vec!["Hint: define `this` with a let-binding\n\ne.g. `let this = 123;`".to_string()]
    );
}

#[test]
fn undefined_name_gets_a_let_suggestion() {
    let mut table = empty_table();
    table.insert("other".to_string(), None, ChipType::Primitive(Primitive::I64));
    let diagnostic = type_check_statement(&mut table, &reference("missing", (2, 9))).unwrap_err();
    assert_eq!(diagnostic.message, "Undefined identifier");
    assert!(diagnostic.notes[0].contains("let missing = 123;"));
    assert_eq!(table.names.len(), 1);
}

// 1 + 1.5
#[test]
fn mixed_kinds_are_incompatible() {
    let mut table = empty_table();
    let tree = operation(whole(1, (0, 1)), Opcode::Add, fraction(1.5, (4, 7)), (0, 7));
    let diagnostic = type_check_statement(&mut table, &tree).unwrap_err();
    assert_eq!(diagnostic.severity, Severity::Error);
    assert_eq!(diagnostic.message, "Incompatible types");
    assert_eq!(diagnostic.labels.len(), 3);
    assert_eq!(diagnostic.labels[0].style, LabelStyle::Primary);
    assert_eq!(diagnostic.labels[0].range, 0..7);
    assert_eq!(
        diagnostic.labels[0].message,
        "The two sides of this operation have different types"
    );
    assert_eq!(diagnostic.labels[1].style, LabelStyle::Secondary);
    assert_eq!(diagnostic.labels[1].range, 0..1);
    assert_eq!(diagnostic.labels[1].message, "Type I64");
    assert_eq!(diagnostic.labels[2].style, LabelStyle::Secondary);
    assert_eq!(diagnostic.labels[2].range, 4..7);
    assert_eq!(diagnostic.labels[2].message, "Type F64");
    assert!(diagnostic.notes.is_empty());
}

#[test]
fn struct_operand_is_named_in_the_label() {
    let mut table = empty_table();
    table.declare("p", &pair_type());
    let tree = operation(reference("p", (0, 1)), Opcode::Add, whole(1, (4, 5)), (0, 5));
    let diagnostic = type_check_statement(&mut table, &tree).unwrap_err();
    assert_eq!(diagnostic.message, "Incompatible types");
    assert_eq!(diagnostic.labels[1].message, "Type Pair");
    assert_eq!(diagnostic.labels[2].message, "Type I64");
}

#[test]
fn operand_without_value_is_rejected() {
    let mut table = empty_table();
    table.insert("a".to_string(), None, ChipType::Primitive(Primitive::I64));
    let assignment =
        Statement::Assign(IdentList(vec![Ident("a")]), Box::new(whole(1, (4, 5))), (0, 5));
    let tree = operation(assignment, Opcode::Add, whole(2, (8, 9)), (0, 9));
    let diagnostic = type_check_statement(&mut table, &tree).unwrap_err();
    assert_eq!(diagnostic.message, "Operand of operation must have a return value");
    assert_eq!(diagnostic.labels.len(), 1);
    assert_eq!(diagnostic.labels[0].range, 0..5);
    assert_eq!(diagnostic.labels[0].message, "This statement returns nothing");

    let assignment =
        Statement::Assign(IdentList(vec![Ident("a")]), Box::new(whole(1, (8, 9))), (4, 9));
    let tree = operation(whole(2, (0, 1)), Opcode::Add, assignment, (0, 9));
    let diagnostic = type_check_statement(&mut table, &tree).unwrap_err();
    assert_eq!(diagnostic.message, "Operand of operation must have a return value");
    assert_eq!(diagnostic.labels[0].range, 4..9);
}

#[test]
fn assignment_of_the_bound_type_yields_nothing() {
    let mut table = empty_table();
    table.insert("a".to_string(), None, ChipType::Primitive(Primitive::I64));
    let tree = Statement::Assign(IdentList(vec![Ident("a")]), Box::new(whole(1, (4, 5))), (0, 5));
    let (ty, range) = type_check_statement(&mut table, &tree).unwrap();
    assert_eq!(ty, None);
    assert_eq!(range, 0..5);
}

#[test]
fn assignment_of_another_type_is_incompatible() {
    let mut table = empty_table();
    table.insert("a".to_string(), None, ChipType::Primitive(Primitive::I64));
    let tree = Statement::Assign(IdentList(vec![Ident("a")]), Box::new(fraction(1.5, (4, 7))), (0, 7));
    let diagnostic = type_check_statement(&mut table, &tree).unwrap_err();
    assert_eq!(diagnostic.message, "Incompatible types");
    assert_eq!(diagnostic.labels.len(), 2);
    assert_eq!(diagnostic.labels[0].style, LabelStyle::Primary);
    assert_eq!(diagnostic.labels[0].range, 0..7);
    assert_eq!(diagnostic.labels[0].message, "Trying to assign wrong value to a let-binding");
    assert_eq!(diagnostic.labels[1].style, LabelStyle::Secondary);
    assert_eq!(diagnostic.labels[1].range, 4..7);
    assert_eq!(diagnostic.labels[1].message, "Expected type I64, found F64");
}

// s.field = s
#[test]
fn assignment_of_a_struct_to_its_field_is_incompatible() {
    let mut table = empty_table();
    table.declare("s", &pair_type());
    let tree = Statement::Assign(
        IdentList(vec![Ident("x"), Ident("s")]),
        Box::new(reference("s", (6, 7))),
        (0, 7),
    );
    let diagnostic = type_check_statement(&mut table, &tree).unwrap_err();
    assert_eq!(diagnostic.message, "Incompatible types");
    assert_eq!(diagnostic.labels[1].message, "Expected type I64, found Pair");
}

#[test]
fn assignment_to_an_unbound_path_is_undefined() {
    let mut table = empty_table();
    let tree = Statement::Assign(
        IdentList(vec![Ident("field"), Ident("s")]),
        Box::new(whole(1, (10, 11))),
        (0, 11),
    );
    let diagnostic = type_check_statement(&mut table, &tree).unwrap_err();
    assert_eq!(diagnostic.message, "Undefined identifier");
    assert_eq!(diagnostic.labels[0].range, 0..11);
    assert!(diagnostic.notes[0].contains("let s.field = 123;"));
}

#[test]
fn assignment_of_nothing_is_rejected() {
    let mut table = empty_table();
    table.insert("a".to_string(), None, ChipType::Primitive(Primitive::I64));
    let inner = Statement::Assign(IdentList(vec![Ident("a")]), Box::new(whole(1, (8, 9))), (4, 9));
    let tree = Statement::Assign(IdentList(vec![Ident("a")]), Box::new(inner), (0, 9));
    let diagnostic = type_check_statement(&mut table, &tree).unwrap_err();
    assert_eq!(diagnostic.message, "Right-hand side of assign must have a return value");
    assert_eq!(diagnostic.labels[0].range, 4..9);
    assert_eq!(diagnostic.labels[0].message, "This statement returns nothing");
}

#[test]
fn let_of_nothing_is_rejected() {
    let mut table = empty_table();
    let tree = Statement::LetAssign(Ident("a"), Box::new(block(vec![], (8, 10))), (0, 10));
    let diagnostic = type_check_statement(&mut table, &tree).unwrap_err();
    assert_eq!(diagnostic.message, "Right-hand side of let-assign must have a return value");
    assert_eq!(diagnostic.labels[0].range, 0..10);
    assert_eq!(diagnostic.labels[0].message, "Incompatible types");
    assert!(table.names.is_empty());
}

#[test]
fn let_of_a_struct_declares_every_leaf() {
    let mut table = empty_table();
    table.declare("p", &pair_type());
    let tree = Statement::LetAssign(Ident("q"), Box::new(reference("p", (8, 9))), (0, 9));
    let (ty, _) = type_check_statement(&mut table, &tree).unwrap();
    assert_eq!(ty, None);
    assert_eq!(table.lookup("q").unwrap().1, pair_type());
    assert_eq!(table.lookup("q.x").unwrap().1, ChipType::Primitive(Primitive::I64));
    assert_eq!(table.lookup("q.y").unwrap().1, ChipType::Primitive(Primitive::F64));
    assert_eq!(table.lookup("q.x").unwrap().0, None);
    assert!(table.lookup("q.z").is_none());
}

#[test]
fn block_stops_at_its_first_error() {
    let mut table = empty_table();
    let tree = block(
        vec![
            Statement::LetAssign(Ident("a"), Box::new(whole(3, (8, 9))), (0, 9)),
            reference("missing", (11, 18)),
            Statement::LetAssign(Ident("b"), Box::new(whole(4, (28, 29))), (20, 29)),
        ],
        (0, 29),
    );
    let diagnostic = type_check_statement(&mut table, &tree).unwrap_err();
    assert_eq!(diagnostic.message, "Undefined identifier");
    assert_eq!(diagnostic.labels[0].range, 11..18);
    assert!(table.lookup("a").is_some());
    assert!(table.lookup("b").is_none());
}

#[test]
fn float_literal_that_holds_no_float_is_unsupported() {
    let mut table = empty_table();
    let tree = Statement::Number(Number::Float(Value::V128(1)), (2, 6));
    let diagnostic = type_check_statement(&mut table, &tree).unwrap_err();
    assert_eq!(diagnostic.message, "Unsupported statement");
    assert_eq!(diagnostic.labels[0].range, 2..6);
}

#[test]
fn empty_block_yields_nothing() {
    let mut table = empty_table();
    let (ty, range) = type_check_statement(&mut table, &block(vec![], (3, 5))).unwrap();
    assert_eq!(ty, None);
    assert_eq!(range, 3..5);
}

#[test]
fn forms_without_a_rule_are_unsupported() {
    let mut table = empty_table();
    let plain_let = Statement::Let(Ident("x"), (0, 5));
    let diagnostic = type_check_statement(&mut table, &plain_let).unwrap_err();
    assert_eq!(diagnostic.message, "Unsupported statement");
    assert_eq!(diagnostic.labels.len(), 1);
    assert_eq!(diagnostic.labels[0].range, 0..5);
    assert_eq!(diagnostic.labels[0].message, "This form of statement has no type");

    let conditional = Statement::If(Box::new(whole(1, (3, 4))), StatementList(vec![]), (0, 7));
    let diagnostic = type_check_statement(&mut table, &conditional).unwrap_err();
    assert_eq!(diagnostic.message, "Unsupported statement");
    assert_eq!(diagnostic.labels[0].range, 0..7);

    let diagnostic = type_check_statement(&mut table, &Statement::Error).unwrap_err();
    assert_eq!(diagnostic.message, "Unsupported statement");
    assert_eq!(diagnostic.labels[0].range, 0..0);
}

#[test]
fn diagnostics_are_what_the_builders_make() {
    let mut table = empty_table();
    table.insert("a".to_string(), None, ChipType::Primitive(Primitive::I64));

    let undefined = type_check_statement(&mut table, &reference("x", (3, 4))).unwrap_err();
    assert_eq!(
        undefined,
        Diagnostic::new(Severity::Error)
            .with_message("Undefined identifier")
            .with_labels(vec![Label::primary((), 3..4).with_message("Undefined")])
            .with_notes(vec![format!(
                "Hint: define `{}` with a let-binding\n\ne.g. `let {} = 123;`",
                "x", "x"
            )])
    );

    let mixed = operation(whole(1, (0, 1)), Opcode::Add, fraction(1.5, (4, 7)), (0, 7));
    assert_eq!(
        type_check_statement(&mut table, &mixed).unwrap_err(),
        Diagnostic::new(Severity::Error).with_message("Incompatible types").with_labels(vec![
            Label::primary((), 0..7)
                .with_message("The two sides of this operation have different types"),
            Label::secondary((), 0..1).with_message(format!("Type {:?}", Primitive::I64)),
            Label::secondary((), 4..7).with_message(format!("Type {:?}", Primitive::F64)),
        ])
    );

    let wrong =
        Statement::Assign(IdentList(vec![Ident("a")]), Box::new(fraction(1.5, (4, 7))), (0, 7));
    assert_eq!(
        type_check_statement(&mut table, &wrong).unwrap_err(),
        Diagnostic::new(Severity::Error).with_message("Incompatible types").with_labels(vec![
            Label::primary((), 0..7)
                .with_message("Trying to assign wrong value to a let-binding"),
            Label::secondary((), 4..7).with_message("Expected type I64, found F64"),
        ])
    );

    let nothing = Statement::LetAssign(Ident("b"), Box::new(block(vec![], (8, 10))), (0, 10));
    assert_eq!(
        type_check_statement(&mut table, &nothing).unwrap_err(),
        Diagnostic::new(Severity::Error)
            .with_message("Right-hand side of let-assign must have a return value")
            .with_labels(vec![Label::primary((), 0..10).with_message("Incompatible types")])
    );
}
