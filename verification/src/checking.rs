//! Type checking of a statement tree.
//!
//! The checker walks a statement without emitting code. It reads and extends
//! the symbol table and yields the type of the statement's value, if it has
//! one, or the first diagnostic that it meets.

use crate::ast::{path_text, Statement};
use crate::diagnostics::{
    diagnostic_shape, incompatible_assignment, incompatible_assignment_error,
    incompatible_operands, incompatible_operands_error, missing_assigned_value,
    missing_assigned_value_error, missing_initial_value, missing_initial_value_error,
    missing_operand_value, missing_operand_value_error, undefined_identifier,
    undefined_identifier_error, unsupported_statement, unsupported_statement_error,
    DiagnosticShape,
};
use crate::locals::{declared, Binding, LocalMap};
use crate::types::{ChipType, TypeShape};
use codespan_reporting::diagnostic::Diagnostic;
use std::ops::Range;
use vstd::prelude::*;

verus! {

/// What checking yields: the type of the value, if there is one, with the
/// statement's source range; or a diagnostic.
pub type Verdict = Result<(Option<TypeShape>, (usize, usize)), DiagnosticShape>;

/// The result of checking a statement against a table: the verdict, and the
/// table as checking leaves it.
pub struct Checked<L> {
    pub verdict: Verdict,
    pub table: Map<Seq<char>, Binding<L>>,
}

/// The result of checking the statements of a block one after the other: the
/// type of the last one's value, or the first diagnostic.
pub struct CheckedBlock<L> {
    pub verdict: Result<Option<TypeShape>, DiagnosticShape>,
    pub table: Map<Seq<char>, Binding<L>>,
}

/// The typing rules.
///
/// - A literal has the scalar kind of its shape: an integer literal is a
///   64-bit integer, a float literal whose constant is a 64-bit float is a
///   64-bit float.
/// - An operation checks its left operand, then its right one. Both must
///   yield a value, and the two types must be equal; that type is the
///   operation's.
/// - A name has the type it is bound to.
/// - An assignment checks its right-hand side, which must yield a value of
///   the type that the assigned path is bound to. It yields no value.
/// - A `let` with an initializer checks the initializer, which must yield a
///   value, and declares the name with that type. It yields no value.
/// - A block checks its statements in order up to the first that fails. It
///   yields what its last statement yields.
/// - Every other form (a call, a conditional, a `let` without initializer, a
///   tag, the error placeholder, a float literal with another constant) is
///   rejected as unsupported.
pub open spec fn check<L>(statement: Statement, table: Map<Seq<char>, Binding<L>>) -> Checked<L>
    decreases statement,
{
    match statement {
        Statement::Number(number, range) => Checked {
            verdict: match number.kind() {
                Some(kind) => Ok((Some(TypeShape::Primitive(kind)), range)),
                None => Err(unsupported_statement(range)),
            },
            table,
        },
        Statement::Op(left, _, right, range) => {
            let first = check(*left, table);
            match first.verdict {
                Err(_) => first,
                Ok((left_type, left_range)) => {
                    let second = check(*right, first.table);
                    match second.verdict {
                        Err(_) => second,
                        Ok((right_type, right_range)) => Checked {
                            verdict: match (left_type, right_type) {
                                (None, _) => Err(missing_operand_value(left_range)),
                                (Some(_), None) => Err(missing_operand_value(right_range)),
                                (Some(left_shape), Some(right_shape)) => if left_shape
                                    == right_shape {
                                    Ok((Some(left_shape), range))
                                } else {
                                    Err(
                                        incompatible_operands(
                                            range,
                                            left_range,
                                            left_shape,
                                            right_range,
                                            right_shape,
                                        ),
                                    )
                                },
                            },
                            table: second.table,
                        },
                    }
                },
            }
        },
        Statement::Ident(ident, range) => Checked {
            verdict: if table.dom().contains(ident.0@) {
                Ok((Some(table[ident.0@].1), range))
            } else {
                Err(undefined_identifier(ident.0@, range))
            },
            table,
        },
        Statement::Assign(target, value, range) => {
            let checked = check(*value, table);
            match checked.verdict {
                Err(_) => checked,
                Ok((value_type, value_range)) => Checked {
                    verdict: match value_type {
                        None => Err(missing_assigned_value(value_range)),
                        Some(found) => {
                            let path = path_text(target.0@);
                            if !checked.table.dom().contains(path) {
                                Err(undefined_identifier(path, range))
                            } else if checked.table[path].1 != found {
                                Err(
                                    incompatible_assignment(
                                        range,
                                        value_range,
                                        checked.table[path].1,
                                        found,
                                    ),
                                )
                            } else {
                                Ok((None, range))
                            }
                        },
                    },
                    table: checked.table,
                },
            }
        },
        Statement::LetAssign(ident, value, range) => {
            let checked = check(*value, table);
            match checked.verdict {
                Err(_) => checked,
                Ok((None, _)) => Checked {
                    verdict: Err(missing_initial_value(range)),
                    table: checked.table,
                },
                Ok((Some(shape), _)) => Checked {
                    verdict: Ok((None, range)),
                    table: declared(checked.table, ident.0@, shape),
                },
            }
        },
        Statement::Block(statements, range) => {
            let checked = check_all(statements.0@, table);
            Checked {
                verdict: match checked.verdict {
                    Err(diagnostic) => Err(diagnostic),
                    Ok(last) => Ok((last, range)),
                },
                table: checked.table,
            }
        },
        _ => Checked { verdict: Err(unsupported_statement(statement.span())), table },
    }
}

/// The typing rule of a statement sequence.
pub open spec fn check_all<L>(
    statements: Seq<Box<Statement>>,
    table: Map<Seq<char>, Binding<L>>,
) -> CheckedBlock<L>
    decreases statements,
{
    if statements.len() == 0 {
        CheckedBlock { verdict: Ok(None), table }
    } else {
        let before = check_all(statements.drop_last(), table);
        match before.verdict {
            Err(_) => before,
            Ok(_) => {
                let last = check(*statements.last(), before.table);
                CheckedBlock {
                    verdict: match last.verdict {
                        Err(diagnostic) => Err(diagnostic),
                        Ok((last_type, _)) => Ok(last_type),
                    },
                    table: last.table,
                }
            },
        }
    }
}

/// The shape of an optional type.
pub open spec fn optional_shape(chip_type: Option<ChipType>) -> Option<TypeShape> {
    match chip_type {
        Some(chip_type) => Some(chip_type@),
        None => None,
    }
}

/// Whether the result of a run of the checker is the verdict `verdict`.
pub open spec fn is_verdict(
    result: Result<(Option<ChipType>, Range<usize>), Diagnostic<()>>,
    verdict: Verdict,
) -> bool {
    match result {
        Ok((chip_type, range)) => verdict == Ok::<_, DiagnosticShape>(
            (optional_shape(chip_type), (range.start, range.end)),
        ),
        Err(diagnostic) => verdict == Err::<(Option<TypeShape>, (usize, usize)), _>(
            diagnostic_shape(diagnostic),
        ),
    }
}

fn span(range: (usize, usize)) -> (out: Range<usize>)
    ensures
        out.start == range.0,
        out.end == range.1,
{
    Range { start: range.0, end: range.1 }
}

/// Checks `statement` against the symbol table `func_locals` by the typing
/// rules of [`check`]. Returns the type of the statement's value, if it has
/// one, with the statement's source range, or the diagnostic of the first
/// error. Bindings that the statement declares are added to the table; they
/// stay there also where a later part of the statement fails.
pub fn type_check_statement<T: Copy>(
    func_locals: &mut LocalMap<T>,
    statement: &Statement,
) -> (result: Result<(Option<ChipType>, Range<usize>), Diagnostic<()>>)
    ensures
        is_verdict(result, check(*statement, old(func_locals)@).verdict),
        final(func_locals)@ == check(*statement, old(func_locals)@).table,
    decreases statement,
{
    match statement {
        Statement::Number(number, range) => {
            match number.primitive() {
                Some(kind) => Ok((Some(ChipType::Primitive(kind)), span(*range))),
                None => Err(unsupported_statement_error(*range)),
            }
        },
        Statement::Op(left, _, right, range) => {
            let (left_type, left_range) = match type_check_statement(func_locals, left) {
                Ok(checked) => checked,
                Err(diagnostic) => {
                    return Err(diagnostic);
                },
            };
            let (right_type, right_range) = match type_check_statement(func_locals, right) {
                Ok(checked) => checked,
                Err(diagnostic) => {
                    return Err(diagnostic);
                },
            };
            let left_type = match left_type {
                Some(left_type) => left_type,
                None => {
                    return Err(
                        missing_operand_value_error((left_range.start, left_range.end)),
                    );
                },
            };
            let right_type = match right_type {
                Some(right_type) => right_type,
                None => {
                    return Err(
                        missing_operand_value_error((right_range.start, right_range.end)),
                    );
                },
            };
            if !left_type.same_type(&right_type) {
                return Err(
                    incompatible_operands_error(
                        *range,
                        (left_range.start, left_range.end),
                        &left_type,
                        (right_range.start, right_range.end),
                        &right_type,
                    ),
                );
            }
            Ok((Some(left_type), span(*range)))
        },
        Statement::Ident(ident, range) => {
            match func_locals.lookup(ident.0) {
                None => Err(undefined_identifier_error(ident.0, *range)),
                Some(local) => Ok((Some(local.1.clone()), span(*range))),
            }
        },
        Statement::Assign(target, value, range) => {
            let (value_type, value_range) = match type_check_statement(func_locals, value) {
                Ok(checked) => checked,
                Err(diagnostic) => {
                    return Err(diagnostic);
                },
            };
            let value_type = match value_type {
                Some(value_type) => value_type,
                None => {
                    return Err(
                        missing_assigned_value_error((value_range.start, value_range.end)),
                    );
                },
            };
            let left_name = target.path();
            match func_locals.lookup(left_name.as_str()) {
                None => Err(undefined_identifier_error(left_name.as_str(), *range)),
                Some(local) => {
                    if !local.1.same_type(&value_type) {
                        Err(
                            incompatible_assignment_error(
                                *range,
                                (value_range.start, value_range.end),
                                &local.1,
                                &value_type,
                            ),
                        )
                    } else {
                        Ok((None, span(*range)))
                    }
                },
            }
        },
        Statement::LetAssign(ident, value, range) => {
            let (value_type, _) = match type_check_statement(func_locals, value) {
                Ok(checked) => checked,
                Err(diagnostic) => {
                    return Err(diagnostic);
                },
            };
            match value_type {
                None => Err(missing_initial_value_error(*range)),
                Some(value_type) => {
                    func_locals.declare(ident.0, &value_type);
                    Ok((None, span(*range)))
                },
            }
        },
        Statement::Block(statements, range) => {
            let list = &statements.0;
            let mut last: Option<ChipType> = None;
            let mut i: usize = 0;
            proof {
                assert(list@.take(0) =~= Seq::empty());
            }
            while i < list.len()
                invariant
                    i <= list.len(),
                    list == &statements.0,
                    statement == Statement::Block(*statements, *range),
                    check_all(list@.take(i as int), old(func_locals)@).verdict == Ok::<
                        _,
                        DiagnosticShape,
                    >(optional_shape(last)),
                    check_all(list@.take(i as int), old(func_locals)@).table == func_locals@,
                decreases list.len() - i,
            {
                proof {
                    assert(list@.take(i + 1).drop_last() =~= list@.take(i as int));
                    assert(list@.take(i + 1).last() == list@[i as int]);
                    assert(decreases_to!(statement => statements));
                    assert(decreases_to!(statements => statements.0));
                    assert(decreases_to!(statements.0 => statements.0@));
                    assert(decreases_to!(statements.0@ => statements.0@[i as int]));
                }
                match type_check_statement(func_locals, &list[i]) {
                    Ok((chip_type, _)) => {
                        last = chip_type;
                    },
                    Err(diagnostic) => {
                        proof {
                            lemma_failed_prefix(list@, old(func_locals)@, i + 1);
                        }
                        return Err(diagnostic);
                    },
                }
                i += 1;
            }
            proof {
                assert(list@.take(list.len() as int) =~= list@);
            }
            Ok((last, span(*range)))
        },
        _ => Err(unsupported_statement_error(statement.range())),
    }
}

/// Once a prefix of a statement sequence has failed, the whole sequence fails
/// in the same way.
proof fn lemma_failed_prefix<L>(
    statements: Seq<Box<Statement>>,
    table: Map<Seq<char>, Binding<L>>,
    n: int,
)
    requires
        0 <= n <= statements.len(),
        check_all(statements.take(n), table).verdict is Err,
    ensures
        check_all(statements, table) == check_all(statements.take(n), table),
    decreases statements.len() - n,
{
    if n == statements.len() {
        assert(statements.take(n) =~= statements);
    } else {
        assert(statements.take(n + 1).drop_last() =~= statements.take(n));
        lemma_failed_prefix(statements, table, n + 1);
    }
}

} // verus!
