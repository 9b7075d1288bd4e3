use vstd::prelude::*;

use crate::frontend::{has_span, span_of, Expr, Span, Type};

verus! {

impl Expr {
    /// The span that a diagnostic about this node points at.
    pub fn expression_range(&self) -> (r: Span)
        requires
            has_span(*self),
        ensures
            r == span_of(*self),
        decreases self,
    {
        match self {
            Expr::NoExpr => Span { start: 0, end: 0 },
            Expr::Number(_, r) => *r,
            Expr::String(_, r) => *r,
            Expr::Parameter(_, r) => *r,
            Expr::Function(_, _, _, _, r) => *r,
            Expr::Else(_, r) => *r,
            Expr::Elif(_, _, r) => *r,
            Expr::If(_, _, _, _, r) => *r,
            Expr::Call(_, _, r, _) => *r,
            Expr::While(_, _, r) => *r,
            Expr::List(_, r) => *r,
            Expr::Var(_, r) => *r,
            Expr::Assign(_, _, r) => *r,
            Expr::Reassign(_, _, r) => *r,
            Expr::Equality(l, r) => Span::new(l.expression_range().start, r.expression_range().end),
            Expr::NotEqual(l, r) => Span::new(l.expression_range().start, r.expression_range().end),
            Expr::GreaterThan(l, r) => Span::new(l.expression_range().start, r.expression_range().end),
            Expr::LessThan(l, r) => Span::new(l.expression_range().start, r.expression_range().end),
            Expr::GreaterThanEqual(l, r) => Span::new(l.expression_range().start, r.expression_range().end),
            Expr::LessThanEqual(l, r) => Span::new(l.expression_range().start, r.expression_range().end),
            Expr::Addition(l, r) => Span::new(l.expression_range().start, r.expression_range().end),
            Expr::Subtraction(l, r) => Span::new(l.expression_range().start, r.expression_range().end),
            Expr::Multiplication(l, r) => Span::new(l.expression_range().start, r.expression_range().end),
            Expr::Division(l, r) => Span::new(l.expression_range().start, r.expression_range().end),
            Expr::Power(l, r) => Span::new(l.expression_range().start, r.expression_range().end),
        }
    }
}

/// A semantic error found by the analyzer, with the spans it points at.
#[derive(Clone, Debug, PartialEq, Eq)]
pub enum TypeError {
    /// A reference to a name that no assignment or parameter has bound.
    UnboundVariable(Span),
    /// A call to a name with no registered signature: the name and the span of the name.
    FunctionDoesNotExist(String, Span),
    /// The span of the arguments, the declared parameter count and the given argument count.
    ArityMismatch(Span, usize, usize),
    /// The span of the parameter's type annotation, the span of the argument, the declared
    /// type and the argument's type.
    ArgumentTypeMismatch(Span, Span, Type, Type),
    /// The spans of both operands and their types, left first.
    OperandTypeMismatch(Span, Span, Type, Type),
}

} // verus!
