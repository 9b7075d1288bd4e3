use gold::analysis::Analysis;
use gold::codegen::compile;
use gold::error::TypeError;
use gold::frontend::{Expr, Span, Type};
use gold::lir::{BinaryOp, Instruction, Terminator};
use gold::parser::{parse_program, ParseError};

const ADD: &str = "// add is a function.
// Params:
// 'a' is of type Int.
// 'b' is of type Int.
// Returns: Int
fn {
  a + b
}
";

fn body_of(e: &Expr) -> &Vec<Expr> {
    match e {
        Expr::Function(_, _, _, body, _) => body,
        _ => panic!("not a function"),
    }
}

#[test]
fn add_source_parses_with_source_spans() {
    let program = parse_program(ADD).expect("parses");
    assert_eq!(program.len(), 1);
    match &program[0] {
        Expr::Function(name, params, ret, body, span) => {
            assert_eq!(name, "add");
            assert_eq!(*span, Span::new(3, 6));
            assert_eq!(*ret, Type::Int);
            assert_eq!(params.len(), 2);
            assert_eq!(params[0].0.name, "a");
            assert_eq!(params[0].1, Span::new(51, 54));
            assert_eq!(params[1].0.name, "b");
            assert_eq!(params[1].1, Span::new(74, 77));
            assert_eq!(body.len(), 1);
            match &body[0] {
                Expr::Addition(l, r) => {
                    assert!(matches!(&**l, Expr::Var(n, s) if n == "a" && *s == Span::new(102, 103)));
                    assert!(matches!(&**r, Expr::Var(n, s) if n == "b" && *s == Span::new(106, 107)));
                },
                other => panic!("expected an addition, got {:?}", other),
            }
        },
        other => panic!("expected a function, got {:?}", other),
    }
}

#[test]
fn add_round_trip_analyzes_clean_and_lowers_to_one_add() {
    let program = parse_program(ADD).expect("parses");
    let mut a = Analysis::new(ADD.to_string(), "add.gold".to_string());
    a.analyze_program(&program);
    assert_eq!(a.error_count(), 0);
    let sig = a.function(&"add".to_string()).expect("registered");
    assert_eq!(sig.return_type, Type::Int);
    assert_eq!(sig.param_types, vec![(Type::Int, Span::new(51, 54)), (Type::Int, Span::new(74, 77))]);

    let lowered = compile(ADD.to_string(), "add.gold".to_string(), &program).expect("compiles");
    let f = &lowered.functions[0];
    assert_eq!(f.signature.name, "add");
    assert_eq!(f.signature.args.len(), 2);
    let adds = f.blocks[1]
        .instructions
        .iter()
        .filter(|i| matches!(i, Instruction::Binary(BinaryOp::Add, _, 0, 1)))
        .count();
    assert_eq!(adds, 1);
    assert_eq!(f.blocks[1].terminator, Some(Terminator::Return(Some(f.variables.len() - 1))));
}

#[test]
fn arity_scenario_from_source() {
    let src = format!(
        "{}// main is a function.\n// Params:\n// Returns: Int\nfn {{\n  add(1)\n}}\n",
        ADD
    );
    let program = parse_program(&src).expect("parses");
    let mut a = Analysis::new(src.clone(), String::new());
    a.analyze_program(&program);
    let at = src.find("add(1)").unwrap() + 4;
    assert_eq!(a.diagnostics(), &vec![TypeError::ArityMismatch(Span::new(at, at + 1), 2, 1)]);
}

#[test]
fn argument_type_scenario_from_source() {
    let src = format!(
        "{}// main is a function.\n// Params:\n// Returns: Int\nfn {{\n  add(1, \"x\")\n}}\n",
        ADD
    );
    let program = parse_program(&src).expect("parses");
    let mut a = Analysis::new(src.clone(), String::new());
    a.analyze_program(&program);
    let at = src.find("\"x\"").unwrap();
    assert_eq!(
        a.diagnostics(),
        &vec![TypeError::ArgumentTypeMismatch(Span::new(74, 77), Span::new(at, at + 3), Type::Int, Type::String)]
    );
}

#[test]
fn precedence_and_associativity() {
    let src = "// f is a function.\n// Params:\n// Returns: Int\nfn {\n  1 + 2 * 3 - 4\n  2 ^ 3 ^ 2\n  1 is not 2\n  3 <= 4\n}\n";
    let program = parse_program(src).expect("parses");
    let body = body_of(&program[0]);
    assert_eq!(body.len(), 4);
    match &body[0] {
        Expr::Subtraction(l, r) => {
            assert!(matches!(&**r, Expr::Number(4, _)));
            match &**l {
                Expr::Addition(one, prod) => {
                    assert!(matches!(&**one, Expr::Number(1, _)));
                    assert!(matches!(&**prod, Expr::Multiplication(_, _)));
                },
                other => panic!("expected an addition, got {:?}", other),
            }
        },
        other => panic!("expected a subtraction, got {:?}", other),
    }
    match &body[1] {
        Expr::Power(l, r) => {
            assert!(matches!(&**l, Expr::Number(2, _)));
            assert!(matches!(&**r, Expr::Power(_, _)));
        },
        other => panic!("expected a power, got {:?}", other),
    }
    assert!(matches!(&body[2], Expr::NotEqual(_, _)));
    assert!(matches!(&body[3], Expr::LessThanEqual(_, _)));
}

#[test]
fn statements_and_control_flow_parse() {
    let src = "// f is a function.\n// Params:\n// 'n' is of type Int.\n// Returns: Int\nfn {\n  let x = [1, 2]\n  x = n\n  if n > 1 { 1 } elif n is 1 { 2 } else { 3 }\n  while n < 3 { n = n + 1 }\n  g(n, \"s\")\n}\n";
    let program = parse_program(src).expect("parses");
    let body = body_of(&program[0]);
    assert_eq!(body.len(), 5);
    assert!(matches!(&body[0], Expr::Assign(n, v, _) if n == "x" && matches!(&**v, Expr::List(items, _) if items.len() == 2)));
    assert!(matches!(&body[1], Expr::Reassign(n, _, _) if n == "x"));
    assert!(matches!(&body[2], Expr::If(_, _, Some(elifs), Some(els), _) if elifs.len() == 1 && matches!(&**els, Expr::Else(_, _))));
    assert!(matches!(&body[3], Expr::While(_, b, _) if b.len() == 1));
    assert!(matches!(&body[4], Expr::Call(n, args, _, _) if n == "g" && args.len() == 2));
}

#[test]
fn unknown_type_name_is_a_parse_error() {
    let src = "// f is a function.\n// Params:\n// 'n' is of type Integer.\n// Returns: Int\nfn {\n}\n";
    let err = parse_program(src).err().expect("refused");
    assert_eq!(err.offset, src.find("Integer").unwrap());
    assert!(err.unknown_type_name);
}

#[test]
fn malformed_sources_are_refused_at_their_offset() {
    assert_eq!(parse_program("fn {}").err(), Some(ParseError { offset: 0, expected: "//", unknown_type_name: false }));
    let src = "// f is a function.\n// Params:\n// Returns: Int\nfn {\n  (1 + \n}\n";
    let err = parse_program(src).err().expect("refused");
    assert!(err.offset <= src.len());
    let big = "// f is a function.\n// Params:\n// Returns: Int\nfn {\n  99999999999999999999\n}\n";
    let err = parse_program(big).err().expect("refused");
    assert_eq!(err.expected, "an integer that fits in 64 bits");
}

#[test]
fn empty_source_is_an_empty_program() {
    assert_eq!(parse_program("").map(|p| p.len()), Ok(0));
    assert_eq!(parse_program("  \n\t").map(|p| p.len()), Ok(0));
}

#[test]
fn declarations_with_empty_bodies_parse_as_written() {
    let src = "// f is a function.\n// Params:\n// 'x' is of type Bool.\n// Returns: Void\nfn {\n}\n\n// g is a function.\n// Params:\n// Returns: Float\nfn { }";
    let program = parse_program(src).expect("parses");
    assert_eq!(program.len(), 2);
    match &program[0] {
        Expr::Function(name, params, ret, body, span) => {
            assert_eq!(name, "f");
            assert_eq!(*span, Span::new(3, 4));
            assert_eq!(params.len(), 1);
            assert_eq!(params[0].0.name, "x");
            assert_eq!(params[0].0.typename, Type::Bool);
            let at = src.find("Bool").unwrap();
            assert_eq!(params[0].1, Span::new(at, at + 4));
            assert_eq!(*ret, Type::Void);
            assert!(body.is_empty());
        },
        other => panic!("expected a function, got {:?}", other),
    }
    assert!(matches!(&program[1], Expr::Function(n, p, Type::Float, b, _) if n == "g" && p.is_empty() && b.is_empty()));
}

#[test]
fn unknown_return_type_is_reported_at_its_name() {
    let src = "// f is a function.\n// Params:\n// Returns: Number\nfn {\n}\n";
    let err = parse_program(src).err().expect("refused");
    assert!(err.unknown_type_name);
    assert_eq!(err.offset, src.find("Number").unwrap());
}
