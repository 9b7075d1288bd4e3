use gold::analysis::Analysis;
use gold::codegen::{compile, CompileError, Compilation, LowerFault};
use gold::frontend::{Expr, Parameter, Span, Type};
use gold::lir::{BinaryOp, Instruction, Terminator};
use gold::mir::{ScalarType, Type as BackendType};

fn sp(start: usize, end: usize) -> Span {
    Span::new(start, end)
}

fn var(name: &str) -> Expr {
    Expr::Var(name.to_string(), sp(0, name.len()))
}

fn param(name: &str, ty: Type) -> (Parameter, Span) {
    (Parameter { name: name.to_string(), typename: ty }, sp(0, 3))
}

fn func(name: &str, params: Vec<(Parameter, Span)>, ret: Type, body: Vec<Expr>) -> Expr {
    Expr::Function(name.to_string(), params, ret, body, sp(3, 3 + name.len()))
}

fn add_function() -> Expr {
    func(
        "add",
        vec![param("a", Type::Int), param("b", Type::Int)],
        Type::Int,
        vec![Expr::Addition(Box::new(var("a")), Box::new(var("b")))],
    )
}

fn lowering_for(program: &Vec<Expr>) -> Compilation {
    let mut a = Analysis::new(String::new(), String::new());
    a.analyze_program(program);
    assert_eq!(a.error_count(), 0);
    Compilation::new(a)
}

#[test]
fn add_lowers_to_signature_parameters_and_return() {
    let program = vec![add_function()];
    let mut c = lowering_for(&program);
    let f = c.gen_fn(&program[0]).expect("add lowers");
    let int = BackendType::Scalar(ScalarType::Int);
    assert_eq!(f.signature.name, "add");
    assert_eq!(f.signature.args, vec![BackendType::Scalar(ScalarType::Int), BackendType::Scalar(ScalarType::Int)]);
    assert_eq!(f.signature.return_type, int);
    assert_eq!(f.variables[0].ident, "a");
    assert_eq!(f.variables[1].ident, "b");
    let entry = &f.blocks[0];
    assert!(matches!(entry.instructions[0], Instruction::Param(0, 0)));
    assert!(matches!(entry.instructions[1], Instruction::Param(1, 1)));
    assert_eq!(entry.terminator, Some(Terminator::Jump(1)));
    let body = &f.blocks[1];
    let sum = body
        .instructions
        .iter()
        .find_map(|i| match i {
            Instruction::Binary(BinaryOp::Add, d, 0, 1) => Some(*d),
            _ => None,
        })
        .expect("a + b is one add of the two parameter variables");
    let ret = f.variables.len() - 1;
    assert_eq!(ret, 3);
    assert_eq!(f.variables[ret].type_sig, int);
    assert!(matches!(body.instructions.last(), Some(Instruction::Copy(r, s)) if *r == ret && *s == sum));
    assert_eq!(body.terminator, Some(Terminator::Return(Some(ret))));
}

#[test]
fn whole_program_compiles_when_analysis_is_clean() {
    let main = func(
        "main",
        vec![],
        Type::Int,
        vec![Expr::Call(
            "add".to_string(),
            vec![Expr::Number(3, sp(0, 1)), Expr::Number(4, sp(3, 4))],
            sp(0, 3),
            sp(4, 8),
        )],
    );
    let program = vec![main, add_function()];
    let p = compile(String::new(), String::new(), &program).expect("compiles");
    assert_eq!(p.functions.len(), 2);
    let calls: Vec<&Instruction> = p.functions[0].blocks[1]
        .instructions
        .iter()
        .filter(|i| matches!(i, Instruction::Call(_, n, args) if n == "add" && args.len() == 2))
        .collect();
    assert_eq!(calls.len(), 1);
}

#[test]
fn reassigning_a_name_never_lowered_is_an_internal_fault() {
    let f = func(
        "main",
        vec![],
        Type::Int,
        vec![Expr::Reassign("z".to_string(), Box::new(Expr::Number(1, sp(4, 5))), sp(0, 1))],
    );
    let mut c = Compilation::new(Analysis::new(String::new(), String::new()));
    assert_eq!(c.gen_fn(&f).err(), Some(LowerFault::UnmappedVariable("z".to_string())));
}

#[test]
fn call_to_unknown_function_is_an_internal_fault() {
    let f = func(
        "main",
        vec![],
        Type::Int,
        vec![Expr::Call("nope".to_string(), vec![], sp(0, 4), sp(5, 5))],
    );
    let mut c = Compilation::new(Analysis::new(String::new(), String::new()));
    assert_eq!(c.gen_fn(&f).err(), Some(LowerFault::UnknownFunction("nope".to_string())));
}

#[test]
fn string_literal_is_unsupported_and_non_function_is_refused() {
    let f = func("main", vec![], Type::String, vec![Expr::String("hi".to_string(), sp(10, 14))]);
    let mut c = Compilation::new(Analysis::new(String::new(), String::new()));
    assert_eq!(c.gen_fn(&f).err(), Some(LowerFault::Unsupported(sp(10, 14))));
    assert_eq!(c.gen_fn(&Expr::Number(1, sp(0, 1))).err(), Some(LowerFault::NotAFunction));
}

#[test]
fn semantic_errors_stop_compilation() {
    let f = func("main", vec![], Type::Int, vec![var("c")]);
    match compile(String::new(), String::new(), &vec![f]) {
        Err(CompileError::Semantic(ds)) => assert_eq!(ds.len(), 1),
        other => panic!("expected semantic errors, got {:?}", other),
    }
}

#[test]
fn if_and_while_lower_to_branching_blocks() {
    let cond = Expr::LessThan(Box::new(var("n")), Box::new(Expr::Number(10, sp(0, 2))));
    let step = Expr::Reassign(
        "n".to_string(),
        Box::new(Expr::Addition(Box::new(var("n")), Box::new(Expr::Number(1, sp(0, 1))))),
        sp(0, 1),
    );
    let looped = Expr::While(Box::new(cond), vec![step], sp(0, 20));
    let choice = Expr::If(
        Box::new(Expr::GreaterThan(Box::new(var("n")), Box::new(Expr::Number(5, sp(0, 1))))),
        vec![Expr::Number(1, sp(0, 1))],
        None,
        Some(Box::new(Expr::Else(vec![Expr::Number(0, sp(0, 1))], sp(0, 9)))),
        sp(0, 30),
    );
    let f = func("count", vec![param("n", Type::Int)], Type::Int, vec![looped, choice]);
    let program = vec![f];
    let mut c = lowering_for(&program);
    let lowered = c.gen_fn(&program[0]).expect("lowers");
    let branches = lowered
        .blocks
        .iter()
        .filter(|b| matches!(b.terminator, Some(Terminator::Branch(_, _, _))))
        .count();
    assert_eq!(branches, 2);
    for b in lowered.blocks.iter() {
        match b.terminator {
            Some(Terminator::Jump(t)) => assert!(t > 0 && t < lowered.blocks.len()),
            Some(Terminator::Branch(_, x, y)) => {
                assert!(x > 0 && y > 0 && x < lowered.blocks.len() && y < lowered.blocks.len())
            },
            _ => {},
        }
    }
}

#[test]
fn accepted_program_with_unsupported_node_is_an_internal_fault() {
    let f = func("main", vec![], Type::String, vec![Expr::String("hi".to_string(), sp(20, 24))]);
    match compile(String::new(), String::new(), &vec![f]) {
        Err(CompileError::Internal(fault)) => assert_eq!(fault, LowerFault::Unsupported(sp(20, 24))),
        other => panic!("expected an internal fault, got {:?}", other),
    }
}

#[test]
fn return_variable_is_not_shared_with_a_source_name() {
    let f = func(
        "f",
        vec![],
        Type::Int,
        vec![
            Expr::Assign("why".to_string(), Box::new(Expr::Number(5, sp(10, 11))), sp(4, 7)),
            Expr::Number(9, sp(20, 21)),
        ],
    );
    let program = vec![f];
    let mut c = lowering_for(&program);
    let lowered = c.gen_fn(&program[0]).expect("lowers");
    let ret = lowered.variables.len() - 1;
    let writes_ret: Vec<&Instruction> = lowered
        .blocks
        .iter()
        .flat_map(|b| b.instructions.iter())
        .filter(|i| match i {
            Instruction::Const(d, _) | Instruction::Copy(d, _) | Instruction::Param(d, _) => *d == ret,
            Instruction::Binary(_, d, _, _) | Instruction::Call(d, _, _) => *d == ret,
        })
        .collect();
    assert_eq!(writes_ret.len(), 2);
    let nine = lowered.blocks[1]
        .instructions
        .iter()
        .find_map(|i| match i {
            Instruction::Const(d, 9) => Some(*d),
            _ => None,
        })
        .expect("the literal 9 is emitted");
    assert!(matches!(lowered.blocks[1].instructions.last(), Some(Instruction::Copy(r, s)) if *r == ret && *s == nine));
}

#[test]
fn assigning_a_bound_name_reuses_its_variable() {
    let body = vec![
        Expr::Assign("x".to_string(), Box::new(Expr::Number(1, sp(8, 9))), sp(4, 5)),
        Expr::If(
            Box::new(Expr::GreaterThan(Box::new(var("n")), Box::new(Expr::Number(0, sp(0, 1))))),
            vec![Expr::Assign("x".to_string(), Box::new(Expr::Number(2, sp(0, 1))), sp(0, 1))],
            None,
            None,
            sp(0, 20),
        ),
        var("x"),
    ];
    let program = vec![func("f", vec![param("n", Type::Int)], Type::Int, body)];
    let mut c = lowering_for(&program);
    let lowered = c.gen_fn(&program[0]).expect("lowers");
    let x_vars: Vec<usize> = lowered
        .variables
        .iter()
        .enumerate()
        .filter(|(_, d)| d.ident == "x")
        .map(|(i, _)| i)
        .collect();
    assert_eq!(x_vars.len(), 1);
    let x = x_vars[0];
    let writes_x = lowered
        .blocks
        .iter()
        .flat_map(|b| b.instructions.iter())
        .filter(|i| matches!(i, Instruction::Copy(d, _) if *d == x))
        .count();
    assert_eq!(writes_x, 2);
    let ret = lowered.variables.len() - 1;
    assert!(lowered
        .blocks
        .iter()
        .any(|b| matches!(b.instructions.last(), Some(Instruction::Copy(r, s)) if *r == ret && *s == x)));
}
