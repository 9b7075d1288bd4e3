use gold::analysis::{check_expr, infer_type, Analysis, Lower};
use gold::codegen::{compile, CompileError};
use gold::error::TypeError;
use gold::frontend::{Expr, Parameter, Span, Type};

fn sp(start: usize, end: usize) -> Span {
    Span::new(start, end)
}

fn num(n: u64, start: usize) -> Expr {
    Expr::Number(n, sp(start, start + 1))
}

fn text(s: &str, start: usize) -> Expr {
    Expr::String(s.to_string(), sp(start, start + s.len() + 2))
}

fn var(name: &str, start: usize) -> Expr {
    Expr::Var(name.to_string(), sp(start, start + name.len()))
}

fn param(name: &str, ty: Type, start: usize) -> (Parameter, Span) {
    (Parameter { name: name.to_string(), typename: ty }, sp(start, start + 3))
}

fn func(name: &str, params: Vec<(Parameter, Span)>, ret: Type, body: Vec<Expr>) -> Expr {
    Expr::Function(name.to_string(), params, ret, body, sp(3, 3 + name.len()))
}

fn call(name: &str, args: Vec<Expr>, start: usize, args_span: Span) -> Expr {
    Expr::Call(name.to_string(), args, sp(start, start + name.len()), args_span)
}

fn add(l: Expr, r: Expr) -> Expr {
    Expr::Addition(Box::new(l), Box::new(r))
}

/// `add(a: Int, b: Int) -> Int { a + b }`, with the spans its source text has.
fn add_function() -> Expr {
    func(
        "add",
        vec![param("a", Type::Int, 51), param("b", Type::Int, 74)],
        Type::Int,
        vec![add(var("a", 102), var("b", 106))],
    )
}

fn analyze(program: Vec<Expr>) -> (Analysis, Vec<Expr>) {
    let mut a = Analysis::new(String::new(), "test.gold".to_string());
    a.analyze_program(&program);
    (a, program)
}

#[test]
fn add_declaration_records_signature_and_no_diagnostics() {
    let (a, _) = analyze(vec![add_function()]);
    assert_eq!(a.error_count(), 0);
    let sig = a.function(&"add".to_string()).expect("add is registered");
    assert_eq!(sig.return_type, Type::Int);
    assert_eq!(sig.param_types, vec![(Type::Int, sp(51, 54)), (Type::Int, sp(74, 77))]);
    assert_eq!(sig.error_metadata, sp(3, 6));
}

#[test]
fn unassigned_reference_is_one_unbound_variable_and_nothing_is_lowered() {
    let f = func("main", vec![], Type::Int, vec![var("c", 40)]);
    let (a, _) = analyze(vec![f]);
    assert_eq!(a.diagnostics(), &vec![TypeError::UnboundVariable(sp(40, 41))]);

    let program = vec![func("main", vec![], Type::Int, vec![var("c", 40)])];
    match compile(String::new(), "test.gold".to_string(), &program) {
        Err(CompileError::Semantic(ds)) => {
            assert_eq!(ds, vec![TypeError::UnboundVariable(sp(40, 41))])
        },
        other => panic!("expected a semantic error, got {:?}", other),
    }
}

#[test]
fn call_with_too_few_arguments_is_one_arity_mismatch() {
    let main = func("main", vec![], Type::Int, vec![call("add", vec![num(1, 204)], 200, sp(204, 205))]);
    let (a, _) = analyze(vec![add_function(), main]);
    assert_eq!(a.diagnostics(), &vec![TypeError::ArityMismatch(sp(204, 205), 2, 1)]);
}

#[test]
fn call_with_string_argument_is_one_argument_type_mismatch() {
    let main = func(
        "main",
        vec![],
        Type::Int,
        vec![call("add", vec![num(1, 204), text("x", 207)], 200, sp(204, 210))],
    );
    let (a, _) = analyze(vec![add_function(), main]);
    assert_eq!(
        a.diagnostics(),
        &vec![TypeError::ArgumentTypeMismatch(sp(74, 77), sp(207, 210), Type::Int, Type::String)]
    );
}

#[test]
fn call_with_matching_arguments_has_no_diagnostics() {
    let main = func(
        "main",
        vec![],
        Type::Int,
        vec![call("add", vec![num(3, 204), num(4, 207)], 200, sp(204, 208))],
    );
    let (a, _) = analyze(vec![add_function(), main]);
    assert_eq!(a.error_count(), 0);
}

#[test]
fn call_to_undeclared_function_is_reported_once_at_its_name() {
    let main = func("main", vec![], Type::Int, vec![call("f", vec![num(1, 52)], 50, sp(52, 53))]);
    let (a, _) = analyze(vec![main]);
    assert_eq!(
        a.diagnostics(),
        &vec![TypeError::FunctionDoesNotExist("f".to_string(), sp(50, 51))]
    );
}

#[test]
fn call_with_extra_argument_reports_only_arity() {
    let main = func(
        "main",
        vec![],
        Type::Int,
        vec![call("add", vec![num(1, 204), num(2, 207), text("z", 210)], 200, sp(204, 213))],
    );
    let (a, _) = analyze(vec![add_function(), main]);
    assert_eq!(a.diagnostics(), &vec![TypeError::ArityMismatch(sp(204, 213), 2, 3)]);
}

#[test]
fn call_with_wrong_count_still_checks_shared_positions() {
    let main = func("main", vec![], Type::Int, vec![call("add", vec![text("x", 204)], 200, sp(204, 207))]);
    let (a, _) = analyze(vec![add_function(), main]);
    assert_eq!(
        a.diagnostics(),
        &vec![
            TypeError::ArityMismatch(sp(204, 207), 2, 1),
            TypeError::ArgumentTypeMismatch(sp(51, 54), sp(204, 207), Type::Int, Type::String),
        ]
    );
}

#[test]
fn reference_after_assignment_is_bound() {
    let body = vec![
        Expr::Assign("x".to_string(), Box::new(num(1, 20)), sp(10, 11)),
        var("x", 30),
        Expr::Reassign("x".to_string(), Box::new(num(2, 44)), sp(40, 41)),
    ];
    let (a, _) = analyze(vec![func("main", vec![], Type::Int, body)]);
    assert_eq!(a.error_count(), 0);
}

#[test]
fn reference_before_assignment_is_unbound() {
    let body = vec![var("x", 30), Expr::Assign("x".to_string(), Box::new(num(1, 40)), sp(36, 37))];
    let (a, _) = analyze(vec![func("main", vec![], Type::Int, body)]);
    assert_eq!(a.diagnostics(), &vec![TypeError::UnboundVariable(sp(30, 31))]);
}

#[test]
fn reassignment_of_unbound_name_is_reported() {
    let body = vec![Expr::Reassign("y".to_string(), Box::new(num(2, 44)), sp(40, 41))];
    let (a, _) = analyze(vec![func("main", vec![], Type::Int, body)]);
    assert_eq!(a.diagnostics(), &vec![TypeError::UnboundVariable(sp(40, 41))]);
}

#[test]
fn operand_mismatch_is_reported_with_both_sides() {
    let e = add(num(1, 10), text("s", 14));
    let mut a = Analysis::new(String::new(), String::new());
    check_expr(&e, &mut a);
    assert_eq!(
        a.diagnostics(),
        &vec![TypeError::OperandTypeMismatch(sp(10, 11), sp(14, 17), Type::Int, Type::String)]
    );
}

#[test]
fn operand_mismatch_does_not_depend_on_side() {
    let swapped = add(text("s", 10), num(1, 14));
    let mut a = Analysis::new(String::new(), String::new());
    check_expr(&swapped, &mut a);
    assert_eq!(
        a.diagnostics(),
        &vec![TypeError::OperandTypeMismatch(sp(10, 13), sp(14, 15), Type::String, Type::Int)]
    );
    let same = Expr::LessThan(Box::new(num(1, 10)), Box::new(num(2, 14)));
    let mut b = Analysis::new(String::new(), String::new());
    check_expr(&same, &mut b);
    assert_eq!(b.error_count(), 0);
}

#[test]
fn later_function_is_callable_before_its_declaration() {
    let main = func(
        "main",
        vec![],
        Type::Int,
        vec![call("add", vec![num(3, 24), num(4, 27)], 20, sp(24, 28))],
    );
    let (a, _) = analyze(vec![main, add_function()]);
    assert_eq!(a.error_count(), 0);
}

#[test]
fn rebinding_changes_the_recorded_type() {
    let body = vec![
        Expr::Assign("x".to_string(), Box::new(num(1, 20)), sp(10, 11)),
        Expr::Assign("x".to_string(), Box::new(text("s", 40)), sp(30, 31)),
    ];
    let f = func("main", vec![], Type::Int, body);
    let mut a = Analysis::new(String::new(), String::new());
    if let Expr::Function(_, _, _, body, _) = &f {
        for stmt in body {
            stmt.lower_expr(&mut a);
        }
    }
    assert_eq!(a.variable(&"x".to_string()).map(|v| v.ty), Some(Type::String));
    assert_eq!(var("x", 50).get_type(&a), Type::String);
}

#[test]
fn function_variables_do_not_leak_into_the_next_function() {
    let first = func(
        "first",
        vec![],
        Type::Int,
        vec![Expr::Assign("x".to_string(), Box::new(num(1, 20)), sp(10, 11))],
    );
    let second = func("second", vec![], Type::Int, vec![var("x", 60)]);
    let (a, _) = analyze(vec![first, second]);
    assert_eq!(a.diagnostics(), &vec![TypeError::UnboundVariable(sp(60, 61))]);
}

#[test]
fn empty_blocks_and_lists_have_void_type() {
    let a = Analysis::new(String::new(), String::new());
    let empty_while = Expr::While(Box::new(num(1, 6)), vec![], sp(0, 10));
    let empty_list = Expr::List(vec![], sp(0, 2));
    assert_eq!(infer_type(&empty_while, &a), Type::Void);
    assert_eq!(infer_type(&empty_list, &a), Type::Void);
    let list = Expr::List(vec![text("a", 1), num(2, 6)], sp(0, 8));
    assert_eq!(infer_type(&list, &a), Type::String);
}

#[test]
fn expression_types_follow_the_inference_rules() {
    let (a, _) = analyze(vec![add_function()]);
    assert_eq!(infer_type(&num(1, 0), &a), Type::Int);
    assert_eq!(infer_type(&text("s", 0), &a), Type::String);
    assert_eq!(infer_type(&add(num(1, 0), num(2, 4)), &a), Type::Number);
    let cmp = Expr::GreaterThanEqual(Box::new(num(1, 0)), Box::new(num(2, 5)));
    assert_eq!(infer_type(&cmp, &a), Type::Bool);
    let c = call("add", vec![num(1, 4), num(2, 7)], 0, sp(4, 8));
    assert_eq!(infer_type(&c, &a), Type::Int);
    let unknown = call("nope", vec![], 0, sp(5, 5));
    assert_eq!(infer_type(&unknown, &a), Type::Void);
    let p = Expr::Parameter(Parameter { name: "p".to_string(), typename: Type::Bool }, sp(0, 1));
    assert_eq!(infer_type(&p, &a), Type::Bool);
    let block = Expr::If(Box::new(num(1, 3)), vec![num(1, 6), text("t", 9)], None, None, sp(0, 13));
    assert_eq!(infer_type(&block, &a), Type::String);
}

#[test]
fn diagnostics_accumulate_across_the_walk() {
    let body = vec![
        var("u", 10),
        call("missing", vec![], 20, sp(28, 28)),
        add(num(1, 40), text("s", 44)),
    ];
    let (a, _) = analyze(vec![func("main", vec![], Type::Int, body)]);
    assert_eq!(
        a.diagnostics(),
        &vec![
            TypeError::UnboundVariable(sp(10, 11)),
            TypeError::FunctionDoesNotExist("missing".to_string(), sp(20, 27)),
            TypeError::OperandTypeMismatch(sp(40, 41), sp(44, 47), Type::Int, Type::String),
        ]
    );
}

#[test]
fn nested_operands_and_arguments_are_checked() {
    let inner = call("g", vec![], 12, sp(14, 14));
    let outer = call("add", vec![inner, num(1, 17)], 8, sp(12, 18));
    let (a, _) = analyze(vec![add_function(), func("main", vec![], Type::Int, vec![outer])]);
    assert_eq!(
        a.diagnostics(),
        &vec![
            TypeError::FunctionDoesNotExist("g".to_string(), sp(12, 13)),
            TypeError::ArgumentTypeMismatch(sp(51, 54), sp(12, 13), Type::Int, Type::Void),
        ]
    );
}

#[test]
fn analyzer_keeps_source_and_file_name() {
    let a = Analysis::new("fn {}".to_string(), "main.gold".to_string());
    assert_eq!(a.source_text(), "fn {}");
    assert_eq!(a.file_name(), "main.gold");
    assert_eq!(a.into_diagnostics(), vec![]);
}
