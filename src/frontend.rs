use vstd::prelude::*;

verus! {

/// A half-open byte range `[start, end)` into the source text.
#[derive(Clone, Copy, PartialEq, Eq, Structural, Debug)]
pub struct Span {
    pub start: usize,
    pub end: usize,
}

impl Span {
    pub fn new(start: usize, end: usize) -> (r: Span)
        ensures
            r == (Span { start, end }),
    {
        Span { start, end }
    }
}

/// The types of the source language.
#[derive(Clone, Copy, PartialEq, Eq, Structural, Debug)]
pub enum Type {
    Int,
    Float,
    /// The generic numeric type that arithmetic operators yield.
    Number,
    String,
    Bool,
    Void,
}

impl Type {
    /// The name under which the type is written in source text.
    pub open spec fn name(self) -> Seq<char> {
        match self {
            Type::Int => "Int"@,
            Type::Float => "Float"@,
            Type::Number => "Number"@,
            Type::String => "String"@,
            Type::Bool => "Bool"@,
            Type::Void => "Void"@,
        }
    }

    /// The type that a type annotation of the given name denotes, if the name is one the
    /// source language recognizes (`Number` cannot be written).
    pub open spec fn named(name: Seq<char>) -> Option<Type> {
        if name == "Int"@ {
            Some(Type::Int)
        } else if name == "Float"@ {
            Some(Type::Float)
        } else if name == "String"@ {
            Some(Type::String)
        } else if name == "Bool"@ {
            Some(Type::Bool)
        } else if name == "Void"@ {
            Some(Type::Void)
        } else {
            None
        }
    }

    pub fn as_str(&self) -> (r: &'static str)
        ensures
            r@ == self.name(),
    {
        match self {
            Type::Int => "Int",
            Type::Float => "Float",
            Type::Number => "Number",
            Type::String => "String",
            Type::Bool => "Bool",
            Type::Void => "Void",
        }
    }

    /// Reads a type annotation; an unrecognized name gives `None`.
    pub fn from_name(name: &str) -> (r: Option<Type>)
        ensures
            r == Type::named(name@),
    {
        let s = name.to_owned();
        proof {
            reveal_strlit("Int");
            reveal_strlit("Float");
            reveal_strlit("String");
            reveal_strlit("Bool");
            reveal_strlit("Void");
        }
        if s == "Int".to_owned() {
            Some(Type::Int)
        } else if s == "Float".to_owned() {
            Some(Type::Float)
        } else if s == "String".to_owned() {
            Some(Type::String)
        } else if s == "Bool".to_owned() {
            Some(Type::Bool)
        } else if s == "Void".to_owned() {
            Some(Type::Void)
        } else {
            None
        }
    }
}

/// A declared function parameter.
#[derive(Clone, Debug)]
pub struct Parameter {
    pub name: String,
    pub typename: Type,
}

/// The abstract syntax tree. Spans are half-open byte ranges into the source text.
#[derive(Debug)]
pub enum Expr {
    /// The degenerate empty node; a parser never produces it.
    NoExpr,
    Number(u64, Span),
    String(String, Span),
    Parameter(Parameter, Span),
    /// Name, parameters with the spans of their type annotations, return type, body, and
    /// the span of the name.
    Function(String, Vec<(Parameter, Span)>, Type, Vec<Expr>, Span),
    Else(Vec<Expr>, Span),
    Elif(Box<Expr>, Vec<Expr>, Span),
    If(Box<Expr>, Vec<Expr>, Option<Vec<Expr>>, Option<Box<Expr>>, Span),
    /// Callee name, arguments, the span of the name and the span of the arguments.
    Call(String, Vec<Expr>, Span, Span),
    While(Box<Expr>, Vec<Expr>, Span),
    List(Vec<Expr>, Span),
    /// `is`
    Equality(Box<Expr>, Box<Expr>),
    /// `is not`
    NotEqual(Box<Expr>, Box<Expr>),
    /// `>`
    GreaterThan(Box<Expr>, Box<Expr>),
    /// `<`
    LessThan(Box<Expr>, Box<Expr>),
    /// `>=`
    GreaterThanEqual(Box<Expr>, Box<Expr>),
    /// `<=`
    LessThanEqual(Box<Expr>, Box<Expr>),
    /// `+`
    Addition(Box<Expr>, Box<Expr>),
    /// `-`
    Subtraction(Box<Expr>, Box<Expr>),
    /// `*`
    Multiplication(Box<Expr>, Box<Expr>),
    /// `/`
    Division(Box<Expr>, Box<Expr>),
    /// `^`
    Power(Box<Expr>, Box<Expr>),
    /// A reference to a variable.
    Var(String, Span),
    /// The first binding of a name.
    Assign(String, Box<Expr>, Span),
    /// A new value for a name that is already bound.
    Reassign(String, Box<Expr>, Span),
}

/// The two operands of a binary operator node.
pub open spec fn operands(e: Expr) -> Option<(Expr, Expr)> {
    match e {
        Expr::Equality(l, r) => Some((*l, *r)),
        Expr::NotEqual(l, r) => Some((*l, *r)),
        Expr::GreaterThan(l, r) => Some((*l, *r)),
        Expr::LessThan(l, r) => Some((*l, *r)),
        Expr::GreaterThanEqual(l, r) => Some((*l, *r)),
        Expr::LessThanEqual(l, r) => Some((*l, *r)),
        Expr::Addition(l, r) => Some((*l, *r)),
        Expr::Subtraction(l, r) => Some((*l, *r)),
        Expr::Multiplication(l, r) => Some((*l, *r)),
        Expr::Division(l, r) => Some((*l, *r)),
        Expr::Power(l, r) => Some((*l, *r)),
        _ => None,
    }
}

/// Comparison operators yield `Bool`.
pub open spec fn is_comparison(e: Expr) -> bool {
    ||| e is Equality
    ||| e is NotEqual
    ||| e is GreaterThan
    ||| e is LessThan
    ||| e is GreaterThanEqual
    ||| e is LessThanEqual
}

/// The node carries a span: it is not the empty node, and neither is any operand of a
/// binary operator in it.
pub open spec fn has_span(e: Expr) -> bool
    decreases e,
{
    match e {
        Expr::NoExpr => false,
        Expr::Equality(l, r) => has_span(*l) && has_span(*r),
        Expr::NotEqual(l, r) => has_span(*l) && has_span(*r),
        Expr::GreaterThan(l, r) => has_span(*l) && has_span(*r),
        Expr::LessThan(l, r) => has_span(*l) && has_span(*r),
        Expr::GreaterThanEqual(l, r) => has_span(*l) && has_span(*r),
        Expr::LessThanEqual(l, r) => has_span(*l) && has_span(*r),
        Expr::Addition(l, r) => has_span(*l) && has_span(*r),
        Expr::Subtraction(l, r) => has_span(*l) && has_span(*r),
        Expr::Multiplication(l, r) => has_span(*l) && has_span(*r),
        Expr::Division(l, r) => has_span(*l) && has_span(*r),
        Expr::Power(l, r) => has_span(*l) && has_span(*r),
        _ => true,
    }
}

/// The span of a node: its own, or for a binary operator from the start of its left
/// operand to the end of its right one. A call is located by its name.
pub open spec fn span_of(e: Expr) -> Span
    decreases e,
{
    match e {
        Expr::NoExpr => Span { start: 0, end: 0 },
        Expr::Number(_, r) => r,
        Expr::String(_, r) => r,
        Expr::Parameter(_, r) => r,
        Expr::Function(_, _, _, _, r) => r,
        Expr::Else(_, r) => r,
        Expr::Elif(_, _, r) => r,
        Expr::If(_, _, _, _, r) => r,
        Expr::Call(_, _, r, _) => r,
        Expr::While(_, _, r) => r,
        Expr::List(_, r) => r,
        Expr::Var(_, r) => r,
        Expr::Assign(_, _, r) => r,
        Expr::Reassign(_, _, r) => r,
        Expr::Equality(l, r) => Span { start: span_of(*l).start, end: span_of(*r).end },
        Expr::NotEqual(l, r) => Span { start: span_of(*l).start, end: span_of(*r).end },
        Expr::GreaterThan(l, r) => Span { start: span_of(*l).start, end: span_of(*r).end },
        Expr::LessThan(l, r) => Span { start: span_of(*l).start, end: span_of(*r).end },
        Expr::GreaterThanEqual(l, r) => Span { start: span_of(*l).start, end: span_of(*r).end },
        Expr::LessThanEqual(l, r) => Span { start: span_of(*l).start, end: span_of(*r).end },
        Expr::Addition(l, r) => Span { start: span_of(*l).start, end: span_of(*r).end },
        Expr::Subtraction(l, r) => Span { start: span_of(*l).start, end: span_of(*r).end },
        Expr::Multiplication(l, r) => Span { start: span_of(*l).start, end: span_of(*r).end },
        Expr::Division(l, r) => Span { start: span_of(*l).start, end: span_of(*r).end },
        Expr::Power(l, r) => Span { start: span_of(*l).start, end: span_of(*r).end },
    }
}

/// Every node of the tree is spanned: the empty node occurs nowhere in it.
pub open spec fn well_formed(e: Expr) -> bool
    decreases e,
{
    match e {
        Expr::NoExpr => false,
        Expr::Function(_, _, _, body, _) => all_well_formed(body@),
        Expr::Else(body, _) => all_well_formed(body@),
        Expr::Elif(c, body, _) => well_formed(*c) && all_well_formed(body@),
        Expr::If(c, body, elifs, els, _) => {
            &&& well_formed(*c)
            &&& all_well_formed(body@)
            &&& match elifs {
                Some(es) => all_well_formed(es@),
                None => true,
            }
            &&& match els {
                Some(x) => well_formed(*x),
                None => true,
            }
        },
        Expr::Call(_, args, _, _) => all_well_formed(args@),
        Expr::While(c, body, _) => well_formed(*c) && all_well_formed(body@),
        Expr::List(items, _) => all_well_formed(items@),
        Expr::Equality(l, r) => well_formed(*l) && well_formed(*r),
        Expr::NotEqual(l, r) => well_formed(*l) && well_formed(*r),
        Expr::GreaterThan(l, r) => well_formed(*l) && well_formed(*r),
        Expr::LessThan(l, r) => well_formed(*l) && well_formed(*r),
        Expr::GreaterThanEqual(l, r) => well_formed(*l) && well_formed(*r),
        Expr::LessThanEqual(l, r) => well_formed(*l) && well_formed(*r),
        Expr::Addition(l, r) => well_formed(*l) && well_formed(*r),
        Expr::Subtraction(l, r) => well_formed(*l) && well_formed(*r),
        Expr::Multiplication(l, r) => well_formed(*l) && well_formed(*r),
        Expr::Division(l, r) => well_formed(*l) && well_formed(*r),
        Expr::Power(l, r) => well_formed(*l) && well_formed(*r),
        Expr::Assign(_, v, _) => well_formed(*v),
        Expr::Reassign(_, v, _) => well_formed(*v),
        _ => true,
    }
}

/// Every statement of the sequence is well formed.
pub open spec fn all_well_formed(es: Seq<Expr>) -> bool
    decreases es,
{
    if es.len() == 0 {
        true
    } else {
        all_well_formed(es.subrange(0, es.len() - 1)) && well_formed(es[es.len() - 1])
    }
}

/// Each statement of a well-formed sequence is well formed.
pub proof fn lemma_all_well_formed(es: Seq<Expr>)
    requires
        all_well_formed(es),
    ensures
        forall|i: int| 0 <= i < es.len() ==> #[trigger] well_formed(es[i]),
    decreases es.len(),
{
    if es.len() > 0 {
        let init = es.subrange(0, es.len() - 1);
        lemma_all_well_formed(init);
        assert forall|i: int| 0 <= i < es.len() implies #[trigger] well_formed(es[i]) by {
            if i < es.len() - 1 {
                assert(init[i] == es[i]);
            }
        }
    }
}

/// A well-formed node carries a span.
pub proof fn lemma_well_formed_has_span(e: Expr)
    requires
        well_formed(e),
    ensures
        has_span(e),
    decreases e,
{
    match e {
        Expr::Equality(l, r) => {
            lemma_well_formed_has_span(*l);
            lemma_well_formed_has_span(*r);
        },
        Expr::NotEqual(l, r) => {
            lemma_well_formed_has_span(*l);
            lemma_well_formed_has_span(*r);
        },
        Expr::GreaterThan(l, r) => {
            lemma_well_formed_has_span(*l);
            lemma_well_formed_has_span(*r);
        },
        Expr::LessThan(l, r) => {
            lemma_well_formed_has_span(*l);
            lemma_well_formed_has_span(*r);
        },
        Expr::GreaterThanEqual(l, r) => {
            lemma_well_formed_has_span(*l);
            lemma_well_formed_has_span(*r);
        },
        Expr::LessThanEqual(l, r) => {
            lemma_well_formed_has_span(*l);
            lemma_well_formed_has_span(*r);
        },
        Expr::Addition(l, r) => {
            lemma_well_formed_has_span(*l);
            lemma_well_formed_has_span(*r);
        },
        Expr::Subtraction(l, r) => {
            lemma_well_formed_has_span(*l);
            lemma_well_formed_has_span(*r);
        },
        Expr::Multiplication(l, r) => {
            lemma_well_formed_has_span(*l);
            lemma_well_formed_has_span(*r);
        },
        Expr::Division(l, r) => {
            lemma_well_formed_has_span(*l);
            lemma_well_formed_has_span(*r);
        },
        Expr::Power(l, r) => {
            lemma_well_formed_has_span(*l);
            lemma_well_formed_has_span(*r);
        },
        _ => {},
    }
}

} // verus!
