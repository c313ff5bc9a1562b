//! Code generation for the stack machine.
//!
//! The generator walks a statement and appends the instructions that compute
//! it to an instruction sequence. A structure lives in one storage slot per
//! scalar leaf; its value travels over the evaluation stack as the values of
//! its leaves, pushed in flattening order.

use crate::ast::{path_text, Number, Opcode, Statement};
use crate::error::{quoted, quoted_text};
use crate::locals::{Binding, LocalMap};
use crate::render::statement_text;
use crate::types::{
    flat_map, leaf_views, path_map_entries, type_text, ChipType, Leaf, Primitive, TypeShape,
};
use vstd::prelude::*;
use vstd::string::StringExecFns;
use walrus::ir::{BinaryOp, Value};
use walrus::{InstrSeqBuilder, LocalId, ModuleLocals, ValType};

verus! {

#[verifier::external_type_specification]
#[verifier::external_body]
pub struct ExInstrSeqBuilder<'a>(InstrSeqBuilder<'a>);

#[verifier::external_type_specification]
#[verifier::external_body]
pub struct ExModuleLocals(ModuleLocals);

#[verifier::external_type_specification]
#[verifier::external_body]
#[verifier::reject_recursive_types(T)]
pub struct ExId<T>(id_arena::Id<T>);

#[verifier::external_type_specification]
#[verifier::external_body]
pub struct ExLocal(walrus::Local);

#[verifier::external_type_specification]
pub struct ExValType(ValType);

#[verifier::external_type_specification]
pub struct ExBinaryOp(BinaryOp);

#[verifier::external_type_specification]
pub struct ExValue(Value);

/// What can go wrong while code is generated.
#[derive(Debug)]
pub enum WasmCodegenError {
    /// A statement whose value is needed yields none. Holds the statement.
    MustHaveReturnValue(String),
    /// An operand of an operation is a structure. Holds the operand.
    NoStructInOp(String),
    /// The two operands of an operation are scalars of different kinds.
    CompNonEqualType(Primitive, Primitive),
    /// An assignment gives a path a value of another type than the path is
    /// bound to. Holds the assignment.
    AssignNonEqualType(String),
    /// A path is used that the symbol table does not bind. Holds the path.
    UndeclaredLocal(String),
    /// A leaf path is bound, but has no storage slot yet. Holds the path.
    NoStorage(String),
    /// A statement of a form for which no code can be generated. Holds the
    /// statement.
    Unsupported(String),
}

/// What a [`WasmCodegenError`] says.
pub enum Fault {
    MustHaveReturnValue(Seq<char>),
    NoStructInOp(Seq<char>),
    CompNonEqualType(Primitive, Primitive),
    AssignNonEqualType(Seq<char>),
    UndeclaredLocal(Seq<char>),
    NoStorage(Seq<char>),
    Unsupported(Seq<char>),
}

impl View for WasmCodegenError {
    type V = Fault;

    open spec fn view(&self) -> Fault {
        match self {
            WasmCodegenError::MustHaveReturnValue(statement) => Fault::MustHaveReturnValue(
                statement@,
            ),
            WasmCodegenError::NoStructInOp(statement) => Fault::NoStructInOp(statement@),
            WasmCodegenError::CompNonEqualType(left, right) => Fault::CompNonEqualType(
                *left,
                *right,
            ),
            WasmCodegenError::AssignNonEqualType(statement) => Fault::AssignNonEqualType(
                statement@,
            ),
            WasmCodegenError::UndeclaredLocal(path) => Fault::UndeclaredLocal(path@),
            WasmCodegenError::NoStorage(path) => Fault::NoStorage(path@),
            WasmCodegenError::Unsupported(statement) => Fault::Unsupported(statement@),
        }
    }
}

/// The printed name of a scalar kind.
pub open spec fn kind_text(kind: Primitive) -> Seq<char> {
    type_text(TypeShape::Primitive(kind))
}

/// The message of a fault.
pub open spec fn fault_text(fault: Fault) -> Seq<char> {
    match fault {
        Fault::MustHaveReturnValue(statement) => "Statement "@ + quoted_text(statement)
            + " must have a return value"@,
        Fault::NoStructInOp(statement) => "Cannot use struct in operation: "@ + quoted_text(
            statement,
        ),
        Fault::CompNonEqualType(left, right) =>
            "Comparison must have the same type on both sides: "@ + kind_text(left) + " "@
                + kind_text(right),
        Fault::AssignNonEqualType(statement) => "Assignment `"@ + statement
            + "` must have same type on left and right hand side"@,
        Fault::UndeclaredLocal(path) => "Undeclared local variable "@ + path,
        Fault::NoStorage(path) => "Local variable "@ + path + " has no storage slot yet"@,
        Fault::Unsupported(statement) => "Cannot generate code for statement "@ + quoted_text(
            statement,
        ),
    }
}

impl WasmCodegenError {
    /// The message of the error.
    pub fn message(&self) -> (out: String)
        ensures
            out@ == fault_text(self@),
    {
        match self {
            WasmCodegenError::MustHaveReturnValue(statement) => {
                let mut out = String::from_str("Statement ");
                out.append(quoted(statement.as_str()).as_str());
                out.append(" must have a return value");
                out
            },
            WasmCodegenError::NoStructInOp(statement) => {
                let mut out = String::from_str("Cannot use struct in operation: ");
                out.append(quoted(statement.as_str()).as_str());
                out
            },
            WasmCodegenError::CompNonEqualType(left, right) => {
                let mut out = String::from_str(
                    "Comparison must have the same type on both sides: ",
                );
                out.append(ChipType::Primitive(*left).display_name().as_str());
                out.append(" ");
                out.append(ChipType::Primitive(*right).display_name().as_str());
                out
            },
            WasmCodegenError::AssignNonEqualType(statement) => {
                let mut out = String::from_str("Assignment `");
                out.append(statement.as_str());
                out.append("` must have same type on left and right hand side");
                out
            },
            WasmCodegenError::UndeclaredLocal(path) => {
                let mut out = String::from_str("Undeclared local variable ");
                out.append(path.as_str());
                out
            },
            WasmCodegenError::NoStorage(path) => {
                let mut out = String::from_str("Local variable ");
                out.append(path.as_str());
                out.append(" has no storage slot yet");
                out
            },
            WasmCodegenError::Unsupported(statement) => {
                let mut out = String::from_str("Cannot generate code for statement ");
                out.append(quoted(statement.as_str()).as_str());
                out
            },
        }
    }
}

/// An instruction of the stack machine, as far as the generator emits it.
/// `Other` stands for every instruction that the generator never emits.
pub enum Instr {
    Const(Value),
    Binop(BinaryOp),
    LocalGet(LocalId),
    LocalSet(LocalId),
    Drop,
    Other,
}

/// The instructions of the sequence that a builder appends to, first to last.
pub uninterp spec fn emitted(builder: InstrSeqBuilder) -> Seq<Instr>;

/// The value types of the locals of a module, in the order in which they were
/// added.
pub uninterp spec fn local_types(locals: ModuleLocals) -> Seq<ValType>;

/// The id that a module gives to the local that is added as its `index`-th.
pub uninterp spec fn local_id(locals: ModuleLocals, index: nat) -> LocalId;

/// `InstrSeqBuilder::const_`: appends a constant push.
#[verifier::external_body]
fn push_const(builder: &mut InstrSeqBuilder, value: Value)
    ensures
        emitted(*final(builder)) == emitted(*old(builder)).push(Instr::Const(value)),
{
    builder.const_(value);
}

/// `InstrSeqBuilder::binop`: appends a binary operation.
#[verifier::external_body]
fn push_binop(builder: &mut InstrSeqBuilder, op: BinaryOp)
    ensures
        emitted(*final(builder)) == emitted(*old(builder)).push(Instr::Binop(op)),
{
    builder.binop(op);
}

/// `InstrSeqBuilder::local_get`: appends the load of a local.
#[verifier::external_body]
fn push_local_get(builder: &mut InstrSeqBuilder, local: LocalId)
    ensures
        emitted(*final(builder)) == emitted(*old(builder)).push(Instr::LocalGet(local)),
{
    builder.local_get(local);
}

/// `InstrSeqBuilder::local_set`: appends the store to a local.
#[verifier::external_body]
fn push_local_set(builder: &mut InstrSeqBuilder, local: LocalId)
    ensures
        emitted(*final(builder)) == emitted(*old(builder)).push(Instr::LocalSet(local)),
{
    builder.local_set(local);
}

/// `InstrSeqBuilder::drop`: appends the discard of the top value.
#[verifier::external_body]
fn push_drop(builder: &mut InstrSeqBuilder)
    ensures
        emitted(*final(builder)) == emitted(*old(builder)).push(Instr::Drop),
{
    builder.drop();
}

/// `ModuleLocals::add`: the new local is added behind the others and gets the
/// id of its place, which is the id of no earlier place; the ids of all
/// places stay as they were.
#[verifier::external_body]
fn add_local(locals: &mut ModuleLocals, value_type: ValType) -> (id: LocalId)
    ensures
        local_types(*final(locals)) == local_types(*old(locals)).push(value_type),
        id == local_id(*old(locals), local_types(*old(locals)).len()),
        forall|index: nat| local_id(*final(locals), index) == local_id(*old(locals), index),
        forall|index: nat|
            index < local_types(*old(locals)).len() ==> local_id(*old(locals), index) != id,
{
    locals.add(value_type)
}

/// Whether the locals at the places from `from` up to `to` are fresh: none
/// has the id of an earlier place.
pub open spec fn fresh_between(locals: ModuleLocals, from: nat, to: nat) -> bool {
    forall|earlier: nat, place: nat|
        #![trigger local_id(locals, earlier), local_id(locals, place)]
        earlier < place && from <= place < to ==> local_id(locals, earlier) != local_id(
            locals,
            place,
        )
}

/// The ids that a module gives to its locals, by place.
pub open spec fn ids_of(locals: ModuleLocals) -> spec_fn(nat) -> LocalId {
    |index: nat| local_id(locals, index)
}

/// The machine's value type for a scalar kind.
pub open spec fn value_type(kind: Primitive) -> ValType {
    match kind {
        Primitive::F64 => ValType::F64,
        Primitive::I64 => ValType::I64,
    }
}

/// The machine instruction of an operator on operands of a scalar kind.
/// Integer division and integer comparisons are the signed ones.
pub open spec fn machine_op(op: Opcode, kind: Primitive) -> BinaryOp {
    match kind {
        Primitive::I64 => match op {
            Opcode::Mul => BinaryOp::I64Mul,
            Opcode::Div => BinaryOp::I64DivS,
            Opcode::Add => BinaryOp::I64Add,
            Opcode::Sub => BinaryOp::I64Sub,
            Opcode::Gt => BinaryOp::I64GtS,
            Opcode::Ge => BinaryOp::I64GeS,
            Opcode::Lt => BinaryOp::I64LtS,
            Opcode::Le => BinaryOp::I64LeS,
            Opcode::Eq => BinaryOp::I64Eq,
            Opcode::Ne => BinaryOp::I64Ne,
        },
        Primitive::F64 => match op {
            Opcode::Mul => BinaryOp::F64Mul,
            Opcode::Div => BinaryOp::F64Div,
            Opcode::Add => BinaryOp::F64Add,
            Opcode::Sub => BinaryOp::F64Sub,
            Opcode::Gt => BinaryOp::F64Gt,
            Opcode::Ge => BinaryOp::F64Ge,
            Opcode::Lt => BinaryOp::F64Lt,
            Opcode::Le => BinaryOp::F64Le,
            Opcode::Eq => BinaryOp::F64Eq,
            Opcode::Ne => BinaryOp::F64Ne,
        },
    }
}

/// The machine constant of a literal.
pub open spec fn constant(number: Number) -> Value {
    match number {
        Number::Int(value) => Value::I64(value),
        Number::Float(value) => value,
    }
}

/// What the generator works on: the symbol table, the instructions of the
/// sequence and the value types of the module's locals.
pub struct Emission {
    pub table: Map<Seq<char>, Binding<LocalId>>,
    pub code: Seq<Instr>,
    pub slots: Seq<ValType>,
}

/// The result of generating code: the type of the value that the code leaves
/// on the stack, if it leaves one, or a fault; and the state as the generator
/// leaves it.
pub struct Generated {
    pub outcome: Result<Option<TypeShape>, Fault>,
    pub state: Emission,
}

/// The storage slot of a leaf path.
pub open spec fn slot_of(table: Map<Seq<char>, Binding<LocalId>>, path: Seq<char>) -> Result<
    LocalId,
    Fault,
> {
    if !table.dom().contains(path) {
        Err(Fault::UndeclaredLocal(path))
    } else {
        match table[path].0 {
            Some(id) => Ok(id),
            None => Err(Fault::NoStorage(path)),
        }
    }
}

/// The storage slots of the leaves `items`, in their order; or the fault of
/// the first leaf that has none.
pub open spec fn slots_of(table: Map<Seq<char>, Binding<LocalId>>, items: Seq<Leaf>) -> Result<
    Seq<LocalId>,
    Fault,
>
    decreases items.len(),
{
    if items.len() == 0 {
        Ok(Seq::empty())
    } else {
        match slots_of(table, items.drop_last()) {
            Err(fault) => Err(fault),
            Ok(slots) => match slot_of(table, items.last().0) {
                Err(fault) => Err(fault),
                Ok(slot) => Ok(slots.push(slot)),
            },
        }
    }
}

/// One load per slot, in the order of the slots.
pub open spec fn loads(slots: Seq<LocalId>) -> Seq<Instr> {
    Seq::new(slots.len(), |i: int| Instr::LocalGet(slots[i]))
}

/// One store per slot, the last slot first.
pub open spec fn stores(slots: Seq<LocalId>) -> Seq<Instr> {
    Seq::new(slots.len(), |i: int| Instr::LocalSet(slots[slots.len() - 1 - i]))
}

/// `count` discards.
pub open spec fn drops(count: nat) -> Seq<Instr> {
    Seq::new(count, |i: int| Instr::Drop)
}

/// The number of stack values that make up a value of type `shape`.
pub open spec fn arity(shape: TypeShape) -> nat {
    flat_map(shape, Seq::empty()).len()
}

/// What an instruction adds to the depth of the evaluation stack.
pub open spec fn stack_effect(instr: Instr) -> int {
    match instr {
        Instr::Const(_) => 1,
        Instr::Binop(_) => -1,
        Instr::LocalGet(_) => 1,
        Instr::LocalSet(_) => -1,
        Instr::Drop => -1,
        Instr::Other => 0,
    }
}

/// What a sequence of instructions adds to the depth of the evaluation stack.
pub open spec fn net_effect(code: Seq<Instr>) -> int
    decreases code.len(),
{
    if code.len() == 0 {
        0
    } else {
        net_effect(code.drop_last()) + stack_effect(code.last())
    }
}

/// The number of stack values that a statement leaves which yields `yielded`.
pub open spec fn yield_count(yielded: Option<TypeShape>) -> nat {
    match yielded {
        Some(shape) => arity(shape),
        None => 0,
    }
}

/// The state after the value of a statement that is not the last of its block
/// was discarded.
pub open spec fn discarded(state: Emission, yielded: Option<TypeShape>) -> Emission {
    match yielded {
        Some(shape) => Emission { code: state.code + drops(arity(shape)), ..state },
        None => state,
    }
}

/// The state after a fresh slot was allocated for each of the leaves `items`,
/// from the last leaf to the first: the slot is added to the module with the
/// value type of the leaf, bound to the leaf's path, and the value on top of
/// the stack is stored to it.
pub open spec fn allocated(state: Emission, items: Seq<Leaf>, ids: spec_fn(nat) -> LocalId) -> Emission
    decreases items.len(),
{
    if items.len() == 0 {
        state
    } else {
        let leaf = items.last();
        let id = ids(state.slots.len());
        allocated(
            Emission {
                table: state.table.insert(leaf.0, (Some(id), TypeShape::Primitive(leaf.1))),
                code: state.code.push(Instr::LocalSet(id)),
                slots: state.slots.push(value_type(leaf.1)),
            },
            items.drop_last(),
            ids,
        )
    }
}

/// The code generation rules. `ids` gives the id of the module's local at
/// each place.
///
/// - A literal pushes its constant.
/// - An operation generates its left operand, then its right one. Each must
///   yield a value, and both values must be scalars of one kind. The
///   machine instruction of the operator for that kind follows.
/// - A name pushes the value of each leaf of its type from the leaf's slot,
///   in flattening order.
/// - An assignment generates its right-hand side, which must yield a value
///   of the type that the assigned path is bound to, and stores to the slot
///   of each leaf of that type, the last leaf first.
/// - A `let` with an initializer generates the initializer, which must yield
///   a value, binds the name to the value's type and allocates and fills a
///   fresh slot for each leaf, the last leaf first.
/// - A block generates its statements in order. The value of a statement
///   that is not the last is discarded; the block yields what its last
///   statement yields.
/// - Every other form (a call, a conditional, a `let` without initializer, a
///   tag, the error placeholder, a float literal whose constant is no 64-bit
///   float) is a fault, and nothing is emitted for it.
///
/// Generation stops at the first fault; what was emitted up to then stays.
pub open spec fn generate(statement: Statement, state: Emission, ids: spec_fn(nat) -> LocalId) -> Generated
    decreases statement,
{
    match statement {
        Statement::Number(number, _) => match number.kind() {
            Some(kind) => Generated {
                outcome: Ok(Some(TypeShape::Primitive(kind))),
                state: Emission { code: state.code.push(Instr::Const(constant(number))), ..state },
            },
            None => Generated {
                outcome: Err(Fault::Unsupported(statement_text(statement))),
                state,
            },
        },
        Statement::Op(left, op, right, _) => {
            let first = generate(*left, state, ids);
            match first.outcome {
                Err(_) => first,
                Ok(None) => Generated {
                    outcome: Err(Fault::MustHaveReturnValue(statement_text(*left))),
                    state: first.state,
                },
                Ok(Some(left_type)) => {
                    let second = generate(*right, first.state, ids);
                    match second.outcome {
                        Err(_) => second,
                        Ok(None) => Generated {
                            outcome: Err(Fault::MustHaveReturnValue(statement_text(*right))),
                            state: second.state,
                        },
                        Ok(Some(right_type)) => match (left_type, right_type) {
                            (TypeShape::Struct(_, _), _) => Generated {
                                outcome: Err(Fault::NoStructInOp(statement_text(*left))),
                                state: second.state,
                            },
                            (TypeShape::Primitive(_), TypeShape::Struct(_, _)) => Generated {
                                outcome: Err(Fault::NoStructInOp(statement_text(*right))),
                                state: second.state,
                            },
                            (
                                TypeShape::Primitive(left_kind),
                                TypeShape::Primitive(right_kind),
                            ) => if left_kind != right_kind {
                                Generated {
                                    outcome: Err(Fault::CompNonEqualType(left_kind, right_kind)),
                                    state: second.state,
                                }
                            } else {
                                Generated {
                                    outcome: Ok(Some(right_type)),
                                    state: Emission {
                                        code: second.state.code.push(
                                            Instr::Binop(machine_op(op, left_kind)),
                                        ),
                                        ..second.state
                                    },
                                }
                            },
                        },
                    }
                },
            }
        },
        Statement::Ident(ident, _) => {
            if !state.table.dom().contains(ident.0@) {
                Generated { outcome: Err(Fault::UndeclaredLocal(ident.0@)), state }
            } else {
                let shape = state.table[ident.0@].1;
                match slots_of(state.table, flat_map(shape, ident.0@)) {
                    Err(fault) => Generated { outcome: Err(fault), state },
                    Ok(slots) => Generated {
                        outcome: Ok(Some(shape)),
                        state: Emission { code: state.code + loads(slots), ..state },
                    },
                }
            }
        },
        Statement::Assign(target, value, _) => {
            let assigned = generate(*value, state, ids);
            match assigned.outcome {
                Err(_) => assigned,
                Ok(None) => Generated {
                    outcome: Err(Fault::MustHaveReturnValue(statement_text(*value))),
                    state: assigned.state,
                },
                Ok(Some(shape)) => {
                    let path = path_text(target.0@);
                    let table = assigned.state.table;
                    if !table.dom().contains(path) {
                        Generated {
                            outcome: Err(Fault::UndeclaredLocal(path)),
                            state: assigned.state,
                        }
                    } else if table[path].1 != shape {
                        Generated {
                            outcome: Err(Fault::AssignNonEqualType(statement_text(statement))),
                            state: assigned.state,
                        }
                    } else {
                        match slots_of(table, flat_map(table[path].1, path)) {
                            Err(fault) => Generated { outcome: Err(fault), state: assigned.state },
                            Ok(slots) => Generated {
                                outcome: Ok(None),
                                state: Emission {
                                    code: assigned.state.code + stores(slots),
                                    ..assigned.state
                                },
                            },
                        }
                    }
                },
            }
        },
        Statement::LetAssign(ident, value, _) => {
            let initial = generate(*value, state, ids);
            match initial.outcome {
                Err(_) => initial,
                Ok(None) => Generated {
                    outcome: Err(Fault::MustHaveReturnValue(statement_text(*value))),
                    state: initial.state,
                },
                Ok(Some(shape)) => Generated {
                    outcome: Ok(None),
                    state: allocated(
                        Emission {
                            table: initial.state.table.insert(ident.0@, (None, shape)),
                            ..initial.state
                        },
                        flat_map(shape, ident.0@),
                        ids,
                    ),
                },
            }
        },
        Statement::Block(statements, _) => generate_all(statements.0@, state, ids),
        _ => Generated { outcome: Err(Fault::Unsupported(statement_text(statement))), state },
    }
}

/// The code generation rule of a statement sequence.
pub open spec fn generate_all(
    statements: Seq<Box<Statement>>,
    state: Emission,
    ids: spec_fn(nat) -> LocalId,
) -> Generated
    decreases statements,
{
    if statements.len() == 0 {
        Generated { outcome: Ok(None), state }
    } else {
        let before = generate_all(statements.drop_last(), state, ids);
        match before.outcome {
            Err(_) => before,
            Ok(yielded) => generate(*statements.last(), discarded(before.state, yielded), ids),
        }
    }
}

/// What a run of the generator says of its result.
pub open spec fn outcome_of(result: Result<Option<ChipType>, WasmCodegenError>) -> Result<
    Option<TypeShape>,
    Fault,
> {
    match result {
        Ok(Some(chip_type)) => Ok(Some(chip_type@)),
        Ok(None) => Ok(None),
        Err(error) => Err(error@),
    }
}

/// The state that the generator works on.
pub open spec fn emission(
    builder: InstrSeqBuilder,
    func_locals: LocalMap<LocalId>,
    module_locals: ModuleLocals,
) -> Emission {
    Emission {
        table: func_locals@,
        code: emitted(builder),
        slots: local_types(module_locals),
    }
}

/// The machine instruction of `op` on operands of kind `kind`.
pub fn select_op(op: Opcode, kind: Primitive) -> (out: BinaryOp)
    ensures
        out == machine_op(op, kind),
{
    match kind {
        Primitive::I64 => match op {
            Opcode::Mul => BinaryOp::I64Mul,
            Opcode::Div => BinaryOp::I64DivS,
            Opcode::Add => BinaryOp::I64Add,
            Opcode::Sub => BinaryOp::I64Sub,
            Opcode::Gt => BinaryOp::I64GtS,
            Opcode::Ge => BinaryOp::I64GeS,
            Opcode::Lt => BinaryOp::I64LtS,
            Opcode::Le => BinaryOp::I64LeS,
            Opcode::Eq => BinaryOp::I64Eq,
            Opcode::Ne => BinaryOp::I64Ne,
        },
        Primitive::F64 => match op {
            Opcode::Mul => BinaryOp::F64Mul,
            Opcode::Div => BinaryOp::F64Div,
            Opcode::Add => BinaryOp::F64Add,
            Opcode::Sub => BinaryOp::F64Sub,
            Opcode::Gt => BinaryOp::F64Gt,
            Opcode::Ge => BinaryOp::F64Ge,
            Opcode::Lt => BinaryOp::F64Lt,
            Opcode::Le => BinaryOp::F64Le,
            Opcode::Eq => BinaryOp::F64Eq,
            Opcode::Ne => BinaryOp::F64Ne,
        },
    }
}

/// What a run of [`resolve_slots`] says of its result.
pub open spec fn resolved(result: Result<Vec<LocalId>, WasmCodegenError>) -> Result<
    Seq<LocalId>,
    Fault,
> {
    match result {
        Ok(slots) => Ok(slots@),
        Err(error) => Err(error@),
    }
}

/// The storage slots of the leaves `leaves`, in their order, or the error of
/// the first leaf that is not bound or has no slot.
pub fn resolve_slots(func_locals: &LocalMap<LocalId>, leaves: &Vec<(String, Primitive)>) -> (result:
    Result<Vec<LocalId>, WasmCodegenError>)
    ensures
        resolved(result) == slots_of(func_locals@, leaf_views(leaves@)),
{
    let mut slots: Vec<LocalId> = Vec::new();
    let mut i: usize = 0;
    let ghost items = leaf_views(leaves@);
    proof {
        assert(items.take(0) =~= Seq::empty());
    }
    while i < leaves.len()
        invariant
            i <= leaves.len(),
            items == leaf_views(leaves@),
            slots_of(func_locals@, items.take(i as int)) == Ok::<Seq<LocalId>, Fault>(slots@),
        decreases leaves.len() - i,
    {
        proof {
            assert(items.take(i + 1).drop_last() =~= items.take(i as int));
            assert(items.take(i + 1).last() == items[i as int]);
        }
        let path = &leaves[i].0;
        let slot = match func_locals.lookup(path.as_str()) {
            None => {
                proof {
                    lemma_failed_slots(func_locals@, items, i + 1);
                }
                return Err(WasmCodegenError::UndeclaredLocal(path.clone()));
            },
            Some(local) => match local.0 {
                None => {
                    proof {
                        lemma_failed_slots(func_locals@, items, i + 1);
                    }
                    return Err(WasmCodegenError::NoStorage(path.clone()));
                },
                Some(slot) => slot,
            },
        };
        slots.push(slot);
        i += 1;
    }
    proof {
        assert(items.take(leaves.len() as int) =~= items);
    }
    Ok(slots)
}

/// Once the slots of a prefix of the leaves cannot be had, those of all the
/// leaves cannot, for the same reason.
proof fn lemma_failed_slots(table: Map<Seq<char>, Binding<LocalId>>, items: Seq<Leaf>, n: int)
    requires
        0 <= n <= items.len(),
        slots_of(table, items.take(n)) is Err,
    ensures
        slots_of(table, items) == slots_of(table, items.take(n)),
    decreases items.len() - n,
{
    if n == items.len() {
        assert(items.take(n) =~= items);
    } else {
        assert(items.take(n + 1).drop_last() =~= items.take(n));
        lemma_failed_slots(table, items, n + 1);
    }
}

/// Once a prefix of a statement sequence has run into a fault, the whole
/// sequence ends in the same way.
proof fn lemma_failed_block(
    statements: Seq<Box<Statement>>,
    state: Emission,
    ids: spec_fn(nat) -> LocalId,
    n: int,
)
    requires
        0 <= n <= statements.len(),
        generate_all(statements.take(n), state, ids).outcome is Err,
    ensures
        generate_all(statements, state, ids) == generate_all(statements.take(n), state, ids),
    decreases statements.len() - n,
{
    if n == statements.len() {
        assert(statements.take(n) =~= statements);
    } else {
        assert(statements.take(n + 1).drop_last() =~= statements.take(n));
        lemma_failed_block(statements, state, ids, n + 1);
    }
}

proof fn lemma_same_ids(before: ModuleLocals, after: ModuleLocals)
    requires
        forall|index: nat| local_id(after, index) == local_id(before, index),
    ensures
        ids_of(after) == ids_of(before),
{
    assert(ids_of(after) =~= ids_of(before));
}

/// Fresh places stay fresh as the module grows, and adjoining runs of fresh
/// places make one run.
proof fn lemma_fresh_joined(
    before: ModuleLocals,
    after: ModuleLocals,
    from: nat,
    middle: nat,
    to: nat,
)
    requires
        ids_of(after) == ids_of(before),
        fresh_between(before, from, middle),
        fresh_between(after, middle, to),
    ensures
        fresh_between(before, from, to),
{
    assert forall|earlier: nat, place: nat|
        #![trigger local_id(before, earlier), local_id(before, place)]
        earlier < place && from <= place < to implies local_id(before, earlier) != local_id(
        before,
        place,
    ) by {
        assert(local_id(after, earlier) == ids_of(after)(earlier));
        assert(local_id(after, place) == ids_of(after)(place));
        assert(local_id(before, earlier) == ids_of(before)(earlier));
        assert(local_id(before, place) == ids_of(before)(place));
        if place >= middle {
            assert(local_id(after, earlier) != local_id(after, place));
        } else {
            assert(local_id(before, earlier) != local_id(before, place));
        }
    }
}

/// Appends the load of each slot, in the order of the slots.
fn push_loads(builder: &mut InstrSeqBuilder, slots: &Vec<LocalId>)
    ensures
        emitted(*final(builder)) == emitted(*old(builder)) + loads(slots@),
{
    let mut i: usize = 0;
    proof {
        assert(emitted(*builder) =~= emitted(*old(builder)) + loads(slots@).take(0));
    }
    while i < slots.len()
        invariant
            i <= slots.len(),
            emitted(*builder) == emitted(*old(builder)) + loads(slots@).take(i as int),
        decreases slots.len() - i,
    {
        push_local_get(builder, slots[i]);
        proof {
            assert(loads(slots@).take(i + 1) =~= loads(slots@).take(i as int).push(
                Instr::LocalGet(slots@[i as int]),
            ));
            assert(emitted(*builder) =~= emitted(*old(builder)) + loads(slots@).take(i + 1));
        }
        i += 1;
    }
    proof {
        assert(loads(slots@).take(slots.len() as int) =~= loads(slots@));
    }
}

/// Appends the store to each slot, the last slot first.
fn push_stores(builder: &mut InstrSeqBuilder, slots: &Vec<LocalId>)
    ensures
        emitted(*final(builder)) == emitted(*old(builder)) + stores(slots@),
{
    let mut i: usize = slots.len();
    proof {
        assert(emitted(*builder) =~= emitted(*old(builder)) + stores(slots@).take(0));
    }
    while i > 0
        invariant
            i <= slots.len(),
            emitted(*builder) == emitted(*old(builder)) + stores(slots@).take(slots.len() - i),
        decreases i,
    {
        i -= 1;
        push_local_set(builder, slots[i]);
        proof {
            let done = slots.len() - i;
            assert(stores(slots@).take(done) =~= stores(slots@).take(done - 1).push(
                Instr::LocalSet(slots@[i as int]),
            ));
            assert(emitted(*builder) =~= emitted(*old(builder)) + stores(slots@).take(done));
        }
    }
    proof {
        assert(stores(slots@).take(slots.len() as int) =~= stores(slots@));
    }
}

/// Appends `count` discards.
fn push_drops(builder: &mut InstrSeqBuilder, count: usize)
    ensures
        emitted(*final(builder)) == emitted(*old(builder)) + drops(count as nat),
{
    let mut i: usize = 0;
    proof {
        assert(emitted(*builder) =~= emitted(*old(builder)) + drops(0));
    }
    while i < count
        invariant
            i <= count,
            emitted(*builder) == emitted(*old(builder)) + drops(i as nat),
        decreases count - i,
    {
        push_drop(builder);
        proof {
            assert(drops((i + 1) as nat) =~= drops(i as nat).push(Instr::Drop));
            assert(emitted(*builder) =~= emitted(*old(builder)) + drops((i + 1) as nat));
        }
        i += 1;
    }
}

/// Generates the code of `statement` by the rules of [`generate`]: appends
/// the instructions to `builder`, adds the storage slots that the statement
/// allocates to `module_locals`, and keeps the symbol table `func_locals` up
/// to date. Returns the type of the value that the code leaves on the stack,
/// if it leaves one, or the first fault. After a fault, what was emitted,
/// allocated and bound up to then stays.
pub fn compile_statement_wasm(
    builder: &mut InstrSeqBuilder,
    func_locals: &mut LocalMap<LocalId>,
    module_locals: &mut ModuleLocals,
    statement: &Statement,
) -> (result: Result<Option<ChipType>, WasmCodegenError>)
    ensures
        outcome_of(result) == generate(
            *statement,
            emission(*old(builder), *old(func_locals), *old(module_locals)),
            ids_of(*old(module_locals)),
        ).outcome,
        emission(*final(builder), *final(func_locals), *final(module_locals)) == generate(
            *statement,
            emission(*old(builder), *old(func_locals), *old(module_locals)),
            ids_of(*old(module_locals)),
        ).state,
        ids_of(*final(module_locals)) == ids_of(*old(module_locals)),
        local_types(*old(module_locals)).len() <= local_types(*final(module_locals)).len(),
        fresh_between(
            *old(module_locals),
            local_types(*old(module_locals)).len(),
            local_types(*final(module_locals)).len(),
        ),
    decreases statement,
{
    match statement {
        Statement::Number(number, _) => {
            match number.primitive() {
                Some(kind) => {
                    push_const(
                        builder,
                        match number {
                            Number::Int(value) => Value::I64(*value),
                            Number::Float(value) => *value,
                        },
                    );
                    Ok(Some(ChipType::Primitive(kind)))
                },
                None => Err(WasmCodegenError::Unsupported(statement.render())),
            }
        },
        Statement::Op(left, op, right, _) => {
            let left_type = match compile_statement_wasm(builder, func_locals, module_locals, left) {
                Err(error) => {
                    return Err(error);
                },
                Ok(None) => {
                    return Err(WasmCodegenError::MustHaveReturnValue(left.render()));
                },
                Ok(Some(left_type)) => left_type,
            };
            let ghost middle = *module_locals;
            let right_result = compile_statement_wasm(builder, func_locals, module_locals, right);
            proof {
                lemma_fresh_joined(
                    *old(module_locals),
                    middle,
                    local_types(*old(module_locals)).len(),
                    local_types(middle).len(),
                    local_types(*module_locals).len(),
                );
            }
            let right_type = match right_result {
                Err(error) => {
                    return Err(error);
                },
                Ok(None) => {
                    return Err(WasmCodegenError::MustHaveReturnValue(right.render()));
                },
                Ok(Some(right_type)) => right_type,
            };
            let left_kind = match left_type {
                ChipType::Struct(_) => {
                    return Err(WasmCodegenError::NoStructInOp(left.render()));
                },
                ChipType::Primitive(kind) => kind,
            };
            let right_kind = match right_type {
                ChipType::Struct(_) => {
                    return Err(WasmCodegenError::NoStructInOp(right.render()));
                },
                ChipType::Primitive(kind) => kind,
            };
            if left_kind != right_kind {
                return Err(WasmCodegenError::CompNonEqualType(left_kind, right_kind));
            }
            push_binop(builder, select_op(*op, left_kind));
            Ok(Some(right_type))
        },
        Statement::Ident(ident, _) => {
            let chip_type = match func_locals.lookup(ident.0) {
                None => {
                    return Err(WasmCodegenError::UndeclaredLocal(String::from_str(ident.0)));
                },
                Some(local) => local.1.clone(),
            };
            let leaves = path_map_entries(&chip_type.flatten(ident.0));
            let slots = match resolve_slots(func_locals, &leaves) {
                Err(error) => {
                    return Err(error);
                },
                Ok(slots) => slots,
            };
            push_loads(builder, &slots);
            Ok(Some(chip_type))
        },
        Statement::Assign(target, value, _) => {
            let statement_type = match compile_statement_wasm(
                builder,
                func_locals,
                module_locals,
                value,
            ) {
                Err(error) => {
                    return Err(error);
                },
                Ok(None) => {
                    return Err(WasmCodegenError::MustHaveReturnValue(value.render()));
                },
                Ok(Some(statement_type)) => statement_type,
            };
            let left_name = target.path();
            let leaves = match func_locals.lookup(left_name.as_str()) {
                None => {
                    return Err(WasmCodegenError::UndeclaredLocal(left_name));
                },
                Some(local) => {
                    if !local.1.same_type(&statement_type) {
                        return Err(WasmCodegenError::AssignNonEqualType(statement.render()));
                    }
                    path_map_entries(&local.1.flatten(left_name.as_str()))
                },
            };
            let slots = match resolve_slots(func_locals, &leaves) {
                Err(error) => {
                    return Err(error);
                },
                Ok(slots) => slots,
            };
            push_stores(builder, &slots);
            Ok(None)
        },
        Statement::LetAssign(ident, value, _) => {
            let chip_type = match compile_statement_wasm(
                builder,
                func_locals,
                module_locals,
                value,
            ) {
                Err(error) => {
                    return Err(error);
                },
                Ok(None) => {
                    return Err(WasmCodegenError::MustHaveReturnValue(value.render()));
                },
                Ok(Some(chip_type)) => chip_type,
            };
            let leaves = path_map_entries(&chip_type.flatten(ident.0));
            func_locals.insert(String::from_str(ident.0), None, chip_type);
            let ghost ids = ids_of(*old(module_locals));
            let ghost items = leaf_views(leaves@);
            let ghost goal = allocated(
                emission(*builder, *func_locals, *module_locals),
                items,
                ids,
            );
            let ghost first = local_types(*old(module_locals)).len();
            let mut i: usize = leaves.len();
            proof {
                assert(items.take(i as int) =~= items);
            }
            while i > 0
                invariant
                    i <= leaves.len(),
                    items == leaf_views(leaves@),
                    ids_of(*module_locals) == ids,
                    ids == ids_of(*old(module_locals)),
                    first == local_types(*old(module_locals)).len(),
                    first <= local_types(*module_locals).len(),
                    fresh_between(*old(module_locals), first, local_types(*module_locals).len()),
                    allocated(
                        emission(*builder, *func_locals, *module_locals),
                        items.take(i as int),
                        ids,
                    ) == goal,
                decreases i,
            {
                i -= 1;
                proof {
                    assert(items.take(i + 1).drop_last() =~= items.take(i as int));
                    assert(items.take(i + 1).last() == items[i as int]);
                }
                let ghost before = *module_locals;
                let kind = leaves[i].1;
                let local = add_local(
                    module_locals,
                    match kind {
                        Primitive::F64 => ValType::F64,
                        Primitive::I64 => ValType::I64,
                    },
                );
                proof {
                    lemma_same_ids(before, *module_locals);
                    lemma_fresh_joined(
                        *old(module_locals),
                        before,
                        first,
                        local_types(before).len(),
                        local_types(*module_locals).len(),
                    );
                }
                func_locals.insert(leaves[i].0.clone(), Some(local), ChipType::Primitive(kind));
                push_local_set(builder, local);
            }
            proof {
                assert(items.take(0) =~= Seq::empty());
            }
            Ok(None)
        },
        Statement::Block(statements, _) => {
            let list = &statements.0;
            let mut last: Option<ChipType> = None;
            let ghost start = emission(*old(builder), *old(func_locals), *old(module_locals));
            let ghost ids = ids_of(*old(module_locals));
            let mut i: usize = 0;
            proof {
                assert(list@.take(0) =~= Seq::empty());
            }
            while i < list.len()
                invariant
                    i <= list.len(),
                    list == &statements.0,
                    statement == Statement::Block(*statements, statement.span()),
                    start == emission(*old(builder), *old(func_locals), *old(module_locals)),
                    ids == ids_of(*old(module_locals)),
                    ids_of(*module_locals) == ids,
                    local_types(*old(module_locals)).len() <= local_types(*module_locals).len(),
                    fresh_between(
                        *old(module_locals),
                        local_types(*old(module_locals)).len(),
                        local_types(*module_locals).len(),
                    ),
                    generate_all(list@.take(i as int), start, ids) == (Generated {
                        outcome: outcome_of(Ok(last)),
                        state: emission(*builder, *func_locals, *module_locals),
                    }),
                decreases list.len() - i,
            {
                proof {
                    assert(list@.take(i + 1).drop_last() =~= list@.take(i as int));
                    assert(list@.take(i + 1).last() == list@[i as int]);
                    assert(decreases_to!(statement => statements));
                    assert(decreases_to!(statements => statements.0));
                    assert(decreases_to!(statements.0 => statements.0@));
                    assert(decreases_to!(statements.0@ => statements.0@[i as int]));
                }
                match &last {
                    Some(yielded) => {
                        let values = path_map_entries(&yielded.flatten(""));
                        proof {
                            reveal_strlit("");
                            assert(""@ =~= Seq::<char>::empty());
                        }
                        push_drops(builder, values.len());
                    },
                    None => {},
                }
                let ghost middle = *module_locals;
                let result = compile_statement_wasm(builder, func_locals, module_locals, &list[i]);
                proof {
                    lemma_fresh_joined(
                        *old(module_locals),
                        middle,
                        local_types(*old(module_locals)).len(),
                        local_types(middle).len(),
                        local_types(*module_locals).len(),
                    );
                }
                match result {
                    Ok(yielded) => {
                        last = yielded;
                    },
                    Err(error) => {
                        proof {
                            let run = generate_all(list@.take(i + 1), start, ids);
                            assert(run.outcome == Err::<Option<TypeShape>, Fault>(error@));
                            assert(run.state == emission(*builder, *func_locals, *module_locals));
                            lemma_failed_block(list@, start, ids, i + 1);
                        }
                        return Err(error);
                    },
                }
                i += 1;
            }
            proof {
                assert(list@.take(list.len() as int) =~= list@);
            }
            Ok(last)
        },
        _ => Err(WasmCodegenError::Unsupported(statement.render())),
    }
}

} // verus!
