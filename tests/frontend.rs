use gold::frontend::{Expr, Span, Type};
use gold::mir::{backend_type, ScalarType, Type as BackendType};

#[test]
fn type_names_round_trip() {
    for t in [Type::Int, Type::Float, Type::String, Type::Bool, Type::Void] {
        assert_eq!(Type::from_name(t.as_str()), Some(t));
    }
    assert_eq!(Type::Number.as_str(), "Number");
    assert_eq!(Type::Int.as_str(), "Int");
}

#[test]
fn unknown_type_name_is_rejected() {
    assert_eq!(Type::from_name("Integer"), None);
    assert_eq!(Type::from_name("Number"), None);
    assert_eq!(Type::from_name(""), None);
}

#[test]
fn binary_expression_range_spans_both_operands() {
    let e = Expr::Multiplication(
        Box::new(Expr::Number(2, Span::new(4, 5))),
        Box::new(Expr::Var("abc".to_string(), Span::new(8, 11))),
    );
    assert_eq!(e.expression_range(), Span::new(4, 11));
    let nested = Expr::Subtraction(Box::new(e), Box::new(Expr::Number(1, Span::new(14, 15))));
    assert_eq!(nested.expression_range(), Span::new(4, 15));
}

#[test]
fn call_range_is_its_name() {
    let c = Expr::Call("f".to_string(), vec![], Span::new(7, 8), Span::new(9, 9));
    assert_eq!(c.expression_range(), Span::new(7, 8));
}

#[test]
fn backend_types_map_one_to_one() {
    assert_eq!(backend_type(Type::Int), BackendType::Scalar(ScalarType::Int));
    assert_eq!(backend_type(Type::Number), BackendType::Scalar(ScalarType::Int));
    assert_eq!(backend_type(Type::Float), BackendType::Scalar(ScalarType::Float));
    assert_eq!(backend_type(Type::Bool), BackendType::Scalar(ScalarType::Char));
    assert_eq!(
        backend_type(Type::String),
        BackendType::Array(Box::new(BackendType::Scalar(ScalarType::Char)))
    );
    assert_eq!(backend_type(Type::Void), BackendType::Void);
}

#[test]
fn backend_type_helpers() {
    let s = BackendType::Array(Box::new(BackendType::Scalar(ScalarType::Char)));
    assert_eq!(s.as_scalar(), None);
    assert_eq!(BackendType::Scalar(ScalarType::Int).as_scalar(), Some(&ScalarType::Int));
    assert_eq!(s.duplicate(), s);
    assert!(s.same(&s.duplicate()));
    assert!(!s.same(&BackendType::Void));
}
