use chip::ast::{Ident, IdentList, Number, Opcode, Statement, StatementList};
use chip::checking::type_check_statement;
use chip::locals::LocalMap;
use chip::types::{ChipType, Primitive};
use chip::wasm::{compile_statement_wasm, resolve_slots, select_op, WasmCodegenError};
use std::rc::Rc;
use walrus::ir::{BinaryOp, Instr, Value};
use walrus::{FunctionBuilder, LocalId, Module, ValType};

const NOWHERE: (usize, usize) = (0, 0);

fn whole(value: i64) -> Statement<'static> {
    Statement::Number(Number::Int(value), NOWHERE)
}

fn fraction(value: f64) -> Statement<'static> {
    Statement::Number(Number::Float(Value::F64(value)), NOWHERE)
}

fn reference(text: &'static str) -> Statement<'static> {
    Statement::Ident(Ident(text), NOWHERE)
}

fn operation(
    left: Statement<'static>,
    opcode: Opcode,
    right: Statement<'static>,
) -> Statement<'static> {
    Statement::Op(Box::new(left), opcode, Box::new(right), NOWHERE)
}

fn block(statements: Vec<Statement<'static>>) -> Statement<'static> {
    Statement::Block(StatementList(statements.into_iter().map(Box::new).collect()), NOWHERE)
}

fn let_assign(target: &'static str, value: Statement<'static>) -> Statement<'static> {
    Statement::LetAssign(Ident(target), Box::new(value), NOWHERE)
}

fn assign(path: Vec<&'static str>, value: Statement<'static>) -> Statement<'static> {
    Statement::Assign(
        IdentList(path.into_iter().map(Ident).collect()),
        Box::new(value),
        NOWHERE,
    )
}

fn five_field_struct() -> ChipType {
    ChipType::Struct(Rc::new((
        "TestStruct".to_string(),
        (0..5)
            .map(|index| (format!("field_{}", index), ChipType::Primitive(Primitive::I64)))
            .collect(),
    )))
}

/// The instructions of a function body, one line each.
fn listing(func: &mut FunctionBuilder) -> Vec<String> {
    func.func_body()
        .instrs()
        .iter()
        .map(|(instr, _)| match instr {
            Instr::Const(constant) => match constant.value {
                Value::I64(value) => format!("i64.const {}", value),
                Value::F64(value) => format!("f64.const {}", value),
                other => format!("const {:?}", other),
            },
            Instr::Binop(binop) => format!("{:?}", binop.op),
            Instr::LocalGet(get) => format!("local.get {}", get.local.index()),
            Instr::LocalSet(set) => format!("local.set {}", set.local.index()),
            Instr::Drop(_) => "drop".to_string(),
            other => format!("{:?}", other),
        })
        .collect()
}

/// A module, a function in it and a table in which `test_struct` is bound
/// to a structure of five integers, with a slot for each.
fn with_test_struct() -> (Module, FunctionBuilder, LocalMap<LocalId>) {
    let mut module = Module::default();
    let func = FunctionBuilder::new(&mut module.types, &[], &[ValType::I64]);
    let mut func_locals = LocalMap { names: Default::default() };
    (0..5).for_each(|index| {
        let test_field_local = module.locals.add(ValType::I64);
        func_locals.insert(
            format!("test_struct.field_{}", index),
            Some(test_field_local),
            ChipType::Primitive(Primitive::I64),
        );
    });
    func_locals.insert("test_struct".into(), None, five_field_struct());
    (module, func, func_locals)
}

fn fresh() -> (Module, FunctionBuilder, LocalMap<LocalId>) {
    let mut module = Module::default();
    let func = FunctionBuilder::new(&mut module.types, &[], &[ValType::I64]);
    (module, func, LocalMap::new())
}

// {   let a = test_struct;
//     a.field_1 = test_struct;
// }
#[test]
fn wasm_let_binding() {
    let (mut module, mut func, mut func_locals) = with_test_struct();
    let statement = block(vec![
        let_assign("a", reference("test_struct")),
        assign(vec!["field_1", "a"], reference("test_struct")),
    ]);
    let result = compile_statement_wasm(
        &mut func.func_body(),
        &mut func_locals,
        &mut module.locals,
        &statement,
    );
    println!("{:?}", result);
    println!("{:?}", listing(&mut func));
    assert!(matches!(
        result,
        Err(WasmCodegenError::AssignNonEqualType(text)) if text == "field_1.a = test_struct"
    ));
    assert_eq!(
        listing(&mut func),
        vec![
            "local.get 0",
            "local.get 1",
            "local.get 2",
            "local.get 3",
            "local.get 4",
            "local.set 5",
            "local.set 6",
            "local.set 7",
            "local.set 8",
            "local.set 9",
            "local.get 0",
            "local.get 1",
            "local.get 2",
            "local.get 3",
            "local.get 4",
        ]
    );
    assert_eq!(module.locals.iter().count(), 10);
}

// let a = 3; a
#[test]
fn let_then_use_stores_and_loads_one_slot() {
    let (mut module, mut func, mut func_locals) = fresh();
    let statement = block(vec![let_assign("a", whole(3)), reference("a")]);
    let result = compile_statement_wasm(
        &mut func.func_body(),
        &mut func_locals,
        &mut module.locals,
        &statement,
    );
    assert_eq!(result.unwrap(), Some(ChipType::Primitive(Primitive::I64)));
    assert_eq!(listing(&mut func), vec!["i64.const 3", "local.set 0", "local.get 0"]);
    let locals: Vec<ValType> = module.locals.iter().map(|local| local.ty()).collect();
    assert_eq!(locals, vec![ValType::I64]);
    let bound = func_locals.lookup("a").unwrap();
    assert_eq!(bound.0.map(|id| id.index()), Some(0));
    assert_eq!(bound.1, ChipType::Primitive(Primitive::I64));
}

// 3 * 2 + 7
#[test]
fn operands_come_before_their_operation() {
    let (mut module, mut func, mut func_locals) = fresh();
    let statement = operation(operation(whole(3), Opcode::Mul, whole(2)), Opcode::Add, whole(7));
    let result = compile_statement_wasm(
        &mut func.func_body(),
        &mut func_locals,
        &mut module.locals,
        &statement,
    );
    assert_eq!(result.unwrap(), Some(ChipType::Primitive(Primitive::I64)));
    assert_eq!(
        listing(&mut func),
        vec!["i64.const 3", "i64.const 2", "I64Mul", "i64.const 7", "I64Add"]
    );
    assert_eq!(module.locals.iter().count(), 0);
}

#[test]
fn float_operands_take_the_float_instruction() {
    let (mut module, mut func, mut func_locals) = fresh();
    let statement = operation(fraction(1.5), Opcode::Div, fraction(0.25));
    let result = compile_statement_wasm(
        &mut func.func_body(),
        &mut func_locals,
        &mut module.locals,
        &statement,
    );
    assert_eq!(result.unwrap(), Some(ChipType::Primitive(Primitive::F64)));
    assert_eq!(listing(&mut func), vec!["f64.const 1.5", "f64.const 0.25", "F64Div"]);
}

#[test]
fn each_operator_has_an_instruction_per_kind() {
    let table = [
        (Opcode::Mul, BinaryOp::I64Mul, BinaryOp::F64Mul),
        (Opcode::Div, BinaryOp::I64DivS, BinaryOp::F64Div),
        (Opcode::Add, BinaryOp::I64Add, BinaryOp::F64Add),
        (Opcode::Sub, BinaryOp::I64Sub, BinaryOp::F64Sub),
        (Opcode::Gt, BinaryOp::I64GtS, BinaryOp::F64Gt),
        (Opcode::Ge, BinaryOp::I64GeS, BinaryOp::F64Ge),
        (Opcode::Lt, BinaryOp::I64LtS, BinaryOp::F64Lt),
        (Opcode::Le, BinaryOp::I64LeS, BinaryOp::F64Le),
        (Opcode::Eq, BinaryOp::I64Eq, BinaryOp::F64Eq),
        (Opcode::Ne, BinaryOp::I64Ne, BinaryOp::F64Ne),
    ];
    for (opcode, for_ints, for_floats) in table {
        assert_eq!(
            format!("{:?}", select_op(opcode, Primitive::I64)),
            format!("{:?}", for_ints)
        );
        assert_eq!(
            format!("{:?}", select_op(opcode, Primitive::F64)),
            format!("{:?}", for_floats)
        );
    }
}

// s = s
#[test]
fn self_assignment_loads_forward_and_stores_backward() {
    let (mut module, mut func, mut func_locals) = with_test_struct();
    let statement = assign(vec!["test_struct"], reference("test_struct"));
    let result = compile_statement_wasm(
        &mut func.func_body(),
        &mut func_locals,
        &mut module.locals,
        &statement,
    );
    assert_eq!(result.unwrap(), None);
    assert_eq!(
        listing(&mut func),
        vec![
            "local.get 0",
            "local.get 1",
            "local.get 2",
            "local.get 3",
            "local.get 4",
            "local.set 4",
            "local.set 3",
            "local.set 2",
            "local.set 1",
            "local.set 0",
        ]
    );
    assert_eq!(module.locals.iter().count(), 5);
}

#[test]
fn let_of_a_struct_allocates_a_slot_per_leaf_of_its_kind() {
    let (mut module, mut func, mut func_locals) = fresh();
    let pair = ChipType::Struct(Rc::new((
        "Pair".to_string(),
        vec![
            ("x".to_string(), ChipType::Primitive(Primitive::I64)),
            ("y".to_string(), ChipType::Primitive(Primitive::F64)),
        ],
    )));
    let x = module.locals.add(ValType::I64);
    let y = module.locals.add(ValType::F64);
    func_locals.insert("p".to_string(), None, pair.clone());
    func_locals.insert("p.x".to_string(), Some(x), ChipType::Primitive(Primitive::I64));
    func_locals.insert("p.y".to_string(), Some(y), ChipType::Primitive(Primitive::F64));
    let result = compile_statement_wasm(
        &mut func.func_body(),
        &mut func_locals,
        &mut module.locals,
        &let_assign("q", reference("p")),
    );
    assert_eq!(result.unwrap(), None);
    assert_eq!(
        listing(&mut func),
        vec!["local.get 0", "local.get 1", "local.set 2", "local.set 3"]
    );
    let locals: Vec<ValType> = module.locals.iter().map(|local| local.ty()).collect();
    assert_eq!(locals, vec![ValType::I64, ValType::F64, ValType::F64, ValType::I64]);
    assert_eq!(func_locals.lookup("q").unwrap(), &(None, pair));
    assert_eq!(func_locals.lookup("q.y").unwrap().0.map(|id| id.index()), Some(2));
    assert_eq!(func_locals.lookup("q.x").unwrap().0.map(|id| id.index()), Some(3));
}

#[test]
fn values_of_statements_that_are_not_last_are_dropped() {
    let (mut module, mut func, mut func_locals) = with_test_struct();
    let statement = block(vec![whole(1), reference("test_struct"), whole(2)]);
    let result = compile_statement_wasm(
        &mut func.func_body(),
        &mut func_locals,
        &mut module.locals,
        &statement,
    );
    assert_eq!(result.unwrap(), Some(ChipType::Primitive(Primitive::I64)));
    assert_eq!(
        listing(&mut func),
        vec![
            "i64.const 1",
            "drop",
            "local.get 0",
            "local.get 1",
            "local.get 2",
            "local.get 3",
            "local.get 4",
            "drop",
            "drop",
            "drop",
            "drop",
            "drop",
            "i64.const 2",
        ]
    );
}

#[test]
fn empty_block_emits_nothing() {
    let (mut module, mut func, mut func_locals) = fresh();
    let result = compile_statement_wasm(
        &mut func.func_body(),
        &mut func_locals,
        &mut module.locals,
        &block(vec![]),
    );
    assert_eq!(result.unwrap(), None);
    assert!(listing(&mut func).is_empty());
}

fn failure(statement: Statement<'static>) -> (WasmCodegenError, Vec<String>) {
    let (mut module, mut func, mut func_locals) = with_test_struct();
    func_locals.insert("unplaced".to_string(), None, ChipType::Primitive(Primitive::I64));
    let result = compile_statement_wasm(
        &mut func.func_body(),
        &mut func_locals,
        &mut module.locals,
        &statement,
    );
    (result.unwrap_err(), listing(&mut func))
}

#[test]
fn operand_without_value_must_have_one() {
    let (error, emitted) = failure(operation(
        assign(vec!["test_struct"], reference("test_struct")),
        Opcode::Add,
        whole(1),
    ));
    assert!(matches!(
        error,
        WasmCodegenError::MustHaveReturnValue(text) if text == "test_struct = test_struct"
    ));
    assert_eq!(emitted.len(), 10);

    let (error, emitted) =
        failure(operation(whole(1), Opcode::Add, let_assign("b", whole(2))));
    assert!(matches!(
        error,
        WasmCodegenError::MustHaveReturnValue(text) if text == "let b = 2"
    ));
    assert_eq!(emitted, vec!["i64.const 1", "i64.const 2", "local.set 5"]);
}

#[test]
fn struct_operand_is_no_operand() {
    let (error, emitted) = failure(operation(reference("test_struct"), Opcode::Add, whole(1)));
    assert!(matches!(error, WasmCodegenError::NoStructInOp(text) if text == "test_struct"));
    assert_eq!(emitted.len(), 6);

    let (error, _) = failure(operation(
        whole(1),
        Opcode::Add,
        block(vec![reference("test_struct")]),
    ));
    assert!(matches!(
        error,
        WasmCodegenError::NoStructInOp(text) if text == "{ \ntest_struct;\n }"
    ));
}

#[test]
fn operands_of_two_kinds_do_not_compare() {
    let (error, emitted) = failure(operation(whole(1), Opcode::Lt, fraction(1.5)));
    assert!(matches!(
        error,
        WasmCodegenError::CompNonEqualType(Primitive::I64, Primitive::F64)
    ));
    assert_eq!(emitted, vec!["i64.const 1", "f64.const 1.5"]);
}

#[test]
fn unbound_names_are_undeclared() {
    let (error, emitted) = failure(reference("nobody"));
    assert!(matches!(error, WasmCodegenError::UndeclaredLocal(path) if path == "nobody"));
    assert!(emitted.is_empty());

    let (error, emitted) = failure(assign(vec!["field_9", "test_struct"], whole(1)));
    assert!(matches!(
        error,
        WasmCodegenError::UndeclaredLocal(path) if path == "test_struct.field_9"
    ));
    assert_eq!(emitted, vec!["i64.const 1"]);
}

#[test]
fn names_without_a_slot_have_no_storage() {
    let (error, emitted) = failure(reference("unplaced"));
    assert!(matches!(error, WasmCodegenError::NoStorage(path) if path == "unplaced"));
    assert!(emitted.is_empty());

    let (error, emitted) = failure(assign(vec!["unplaced"], whole(1)));
    assert!(matches!(error, WasmCodegenError::NoStorage(path) if path == "unplaced"));
    assert_eq!(emitted, vec!["i64.const 1"]);
}

#[test]
fn assigned_and_bound_values_must_exist() {
    let (error, _) = failure(assign(vec!["unplaced"], block(vec![])));
    assert!(matches!(error, WasmCodegenError::MustHaveReturnValue(text) if text.is_empty()));
    let (error, _) = failure(let_assign("c", block(vec![])));
    assert!(matches!(error, WasmCodegenError::MustHaveReturnValue(text) if text.is_empty()));
}

#[test]
fn assigned_value_must_have_the_bound_type() {
    let (error, emitted) = failure(assign(vec!["field_0", "test_struct"], fraction(1.5)));
    assert!(matches!(
        error,
        WasmCodegenError::AssignNonEqualType(text) if text == "field_0.test_struct = 1.5"
    ));
    assert_eq!(emitted, vec!["f64.const 1.5"]);

    let (mut module, mut func, mut func_locals) = with_test_struct();
    let result = compile_statement_wasm(
        &mut func.func_body(),
        &mut func_locals,
        &mut module.locals,
        &assign(vec!["field_3", "test_struct"], whole(8)),
    );
    assert_eq!(result.unwrap(), None);
    assert_eq!(listing(&mut func), vec!["i64.const 8", "local.set 3"]);
}

#[test]
fn float_literal_must_hold_a_float() {
    let (error, emitted) =
        failure(Statement::Number(Number::Float(Value::I32(7)), NOWHERE));
    assert!(matches!(error, WasmCodegenError::Unsupported(text) if text == "7"));
    assert!(emitted.is_empty());
}

#[test]
fn forms_without_code_are_unsupported() {
    let (error, emitted) = failure(Statement::Let(Ident("x"), NOWHERE));
    assert!(matches!(error, WasmCodegenError::Unsupported(text) if text == "let x"));
    assert!(emitted.is_empty());
    let (error, _) = failure(Statement::Error);
    assert!(matches!(error, WasmCodegenError::Unsupported(text) if text == "error"));
    let (error, emitted) = failure(block(vec![
        whole(1),
        Statement::If(Box::new(whole(1)), StatementList(vec![]), NOWHERE),
    ]));
    assert!(matches!(error, WasmCodegenError::Unsupported(text) if text == "if 1 "));
    assert_eq!(emitted, vec!["i64.const 1", "drop"]);
}

#[test]
fn slots_resolve_in_leaf_order_or_fail_at_the_first_gap() {
    let (_, _, mut func_locals) = with_test_struct();
    let leaves = vec![
        ("test_struct.field_3".to_string(), Primitive::I64),
        ("test_struct.field_0".to_string(), Primitive::I64),
    ];
    let slots = resolve_slots(&func_locals, &leaves).unwrap();
    assert_eq!(slots.iter().map(|id| id.index()).collect::<Vec<_>>(), vec![3, 0]);

    func_locals.insert("late".to_string(), None, ChipType::Primitive(Primitive::I64));
    let leaves = vec![
        ("test_struct.field_3".to_string(), Primitive::I64),
        ("late".to_string(), Primitive::I64),
        ("gone".to_string(), Primitive::I64),
    ];
    let error = resolve_slots(&func_locals, &leaves).unwrap_err();
    assert!(matches!(error, WasmCodegenError::NoStorage(path) if path == "late"));
}

#[test]
fn faults_have_messages() {
    assert_eq!(
        WasmCodegenError::MustHaveReturnValue("let a = \"x\"".to_string()).message(),
        "Statement \"let a = \\\"x\\\"\" must have a return value"
    );
    assert_eq!(
        WasmCodegenError::NoStructInOp("s".to_string()).message(),
        "Cannot use struct in operation: \"s\""
    );
    assert_eq!(
        WasmCodegenError::CompNonEqualType(Primitive::I64, Primitive::F64).message(),
        "Comparison must have the same type on both sides: I64 F64"
    );
    assert_eq!(
        WasmCodegenError::AssignNonEqualType("a = 1.5".to_string()).message(),
        "Assignment `a = 1.5` must have same type on left and right hand side"
    );
    assert_eq!(
        WasmCodegenError::UndeclaredLocal("a.b".to_string()).message(),
        "Undeclared local variable a.b"
    );
    assert_eq!(
        WasmCodegenError::NoStorage("a.b".to_string()).message(),
        "Local variable a.b has no storage slot yet"
    );
    assert_eq!(
        WasmCodegenError::Unsupported("if x ".to_string()).message(),
        "Cannot generate code for statement \"if x \""
    );
}

/// What the instructions of a function body add to the depth of the stack.
fn stack_growth(func: &mut FunctionBuilder) -> i64 {
    func.func_body()
        .instrs()
        .iter()
        .map(|(instr, _)| match instr {
            Instr::Const(_) | Instr::LocalGet(_) => 1,
            Instr::Binop(_) | Instr::LocalSet(_) | Instr::Drop(_) => -1,
            other => panic!("unexpected instruction {:?}", other),
        })
        .sum()
}

fn program() -> Statement<'static> {
    block(vec![
        let_assign("a", reference("test_struct")),
        whole(5),
        assign(vec!["field_2", "a"], operation(whole(1), Opcode::Add, whole(2))),
        reference("a"),
        assign(vec!["a"], reference("test_struct")),
        block(vec![fraction(0.5), reference("a")]),
    ])
}

#[test]
fn generated_code_keeps_the_stack_in_balance() {
    let (mut module, mut func, mut func_locals) = with_test_struct();
    let result = compile_statement_wasm(
        &mut func.func_body(),
        &mut func_locals,
        &mut module.locals,
        &program(),
    );
    assert_eq!(result.unwrap(), Some(five_field_struct()));
    assert_eq!(stack_growth(&mut func), 5);

    let (mut module, mut func, mut func_locals) = with_test_struct();
    let result = compile_statement_wasm(
        &mut func.func_body(),
        &mut func_locals,
        &mut module.locals,
        &block(vec![program(), let_assign("b", whole(1))]),
    );
    assert_eq!(result.unwrap(), None);
    assert_eq!(stack_growth(&mut func), 0);
}

#[test]
fn checker_and_generator_agree() {
    let (mut module, mut func, mut func_locals) = with_test_struct();
    let mut checked_locals: LocalMap<LocalId> = LocalMap::new();
    checked_locals.declare("test_struct", &five_field_struct());
    let (checked, _) = type_check_statement(&mut checked_locals, &program()).unwrap();
    let generated = compile_statement_wasm(
        &mut func.func_body(),
        &mut func_locals,
        &mut module.locals,
        &program(),
    )
    .unwrap();
    assert_eq!(checked, generated);
    for path in ["a", "a.field_0", "a.field_4", "test_struct", "test_struct.field_3"] {
        assert_eq!(
            checked_locals.lookup(path).unwrap().1,
            func_locals.lookup(path).unwrap().1
        );
    }
    assert!(checked_locals.lookup("b").is_none());
    assert!(func_locals.lookup("b").is_none());
}

#[test]
fn allocated_slots_are_new_ones() {
    let (mut module, mut func, mut func_locals) = with_test_struct();
    compile_statement_wasm(
        &mut func.func_body(),
        &mut func_locals,
        &mut module.locals,
        &block(vec![
            let_assign("a", reference("test_struct")),
            let_assign("b", reference("a")),
        ]),
    )
    .unwrap();
    let ids: Vec<LocalId> = module.locals.iter().map(|local| local.id()).collect();
    assert_eq!(ids.len(), 15);
    for (place, id) in ids.iter().enumerate() {
        assert!(!ids[..place].contains(id));
    }
    let mut bound: Vec<usize> = (0..5)
        .flat_map(|index| {
            ["test_struct", "a", "b"].map(|name| {
                let path = format!("{}.field_{}", name, index);
                func_locals.lookup(&path).unwrap().0.unwrap().index()
            })
        })
        .collect();
    bound.sort();
    assert_eq!(bound, (0..15).collect::<Vec<_>>());
}
