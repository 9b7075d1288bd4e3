use vstd::prelude::*;

use crate::analysis::{call_diagnostics, checked, checked_all, type_of, AnalysisView};
use crate::error::TypeError;
use crate::facts::{
    call_to_undeclared_function_reports_once, call_with_matching_arguments_reports_nothing,
    call_with_wrong_argument_count, mismatch_at, operand_mismatch_iff_types_differ,
    unbound_reassignment_is_reported,
};
use crate::frontend::{operands, span_of, Expr, Span};

verus! {

/// The node binds nothing: no assignment and no function declaration occurs in it.
pub open spec fn binds_nothing(e: Expr) -> bool
    decreases e,
{
    match e {
        Expr::Function(_, _, _, _, _) => false,
        Expr::Assign(_, _, _) => false,
        Expr::Else(body, _) => binds_nothing_all(body@),
        Expr::Elif(c, body, _) => binds_nothing(*c) && binds_nothing_all(body@),
        Expr::If(c, body, elifs, els, _) => {
            &&& binds_nothing(*c)
            &&& binds_nothing_all(body@)
            &&& match elifs {
                Some(es) => binds_nothing_all(es@),
                None => true,
            }
            &&& match els {
                Some(x) => binds_nothing(*x),
                None => true,
            }
        },
        Expr::While(c, body, _) => binds_nothing(*c) && binds_nothing_all(body@),
        Expr::List(items, _) => binds_nothing_all(items@),
        Expr::Call(_, args, _, _) => binds_nothing_all(args@),
        Expr::Reassign(_, v, _) => binds_nothing(*v),
        Expr::Equality(l, r) => binds_nothing(*l) && binds_nothing(*r),
        Expr::NotEqual(l, r) => binds_nothing(*l) && binds_nothing(*r),
        Expr::GreaterThan(l, r) => binds_nothing(*l) && binds_nothing(*r),
        Expr::LessThan(l, r) => binds_nothing(*l) && binds_nothing(*r),
        Expr::GreaterThanEqual(l, r) => binds_nothing(*l) && binds_nothing(*r),
        Expr::LessThanEqual(l, r) => binds_nothing(*l) && binds_nothing(*r),
        Expr::Addition(l, r) => binds_nothing(*l) && binds_nothing(*r),
        Expr::Subtraction(l, r) => binds_nothing(*l) && binds_nothing(*r),
        Expr::Multiplication(l, r) => binds_nothing(*l) && binds_nothing(*r),
        Expr::Division(l, r) => binds_nothing(*l) && binds_nothing(*r),
        Expr::Power(l, r) => binds_nothing(*l) && binds_nothing(*r),
        _ => true,
    }
}

/// Every node of the sequence binds nothing.
pub open spec fn binds_nothing_all(es: Seq<Expr>) -> bool
    decreases es,
{
    if es.len() == 0 {
        true
    } else {
        binds_nothing_all(es.subrange(0, es.len() - 1)) && binds_nothing(es[es.len() - 1])
    }
}

/// Checking a node that binds nothing changes neither the signature table nor the variable
/// table; only diagnostics are added.
pub proof fn checking_keeps_tables(e: Expr, s: AnalysisView)
    requires
        binds_nothing(e),
    ensures
        checked(e, s).functions == s.functions,
        checked(e, s).variables == s.variables,
    decreases e,
{
    match e {
        Expr::Else(body, _) => checking_all_keeps_tables(body@, s),
        Expr::Elif(c, body, _) => {
            checking_keeps_tables(*c, s);
            checking_all_keeps_tables(body@, checked(*c, s));
        },
        Expr::If(c, body, elifs, els, _) => {
            checking_keeps_tables(*c, s);
            let s1 = checked_all(body@, checked(*c, s));
            checking_all_keeps_tables(body@, checked(*c, s));
            let s2 = match elifs {
                Some(es) => checked_all(es@, s1),
                None => s1,
            };
            match elifs {
                Some(es) => checking_all_keeps_tables(es@, s1),
                None => {},
            }
            match els {
                Some(x) => checking_keeps_tables(*x, s2),
                None => {},
            }
        },
        Expr::While(c, body, _) => {
            checking_keeps_tables(*c, s);
            checking_all_keeps_tables(body@, checked(*c, s));
        },
        Expr::List(items, _) => checking_all_keeps_tables(items@, s),
        Expr::Call(_, args, _, _) => checking_all_keeps_tables(args@, s),
        Expr::Reassign(_, v, _) => checking_keeps_tables(*v, s),
        Expr::Equality(l, r) => {
            checking_keeps_tables(*l, s);
            checking_keeps_tables(*r, checked(*l, s));
        },
        Expr::NotEqual(l, r) => {
            checking_keeps_tables(*l, s);
            checking_keeps_tables(*r, checked(*l, s));
        },
        Expr::GreaterThan(l, r) => {
            checking_keeps_tables(*l, s);
            checking_keeps_tables(*r, checked(*l, s));
        },
        Expr::LessThan(l, r) => {
            checking_keeps_tables(*l, s);
            checking_keeps_tables(*r, checked(*l, s));
        },
        Expr::GreaterThanEqual(l, r) => {
            checking_keeps_tables(*l, s);
            checking_keeps_tables(*r, checked(*l, s));
        },
        Expr::LessThanEqual(l, r) => {
            checking_keeps_tables(*l, s);
            checking_keeps_tables(*r, checked(*l, s));
        },
        Expr::Addition(l, r) => {
            checking_keeps_tables(*l, s);
            checking_keeps_tables(*r, checked(*l, s));
        },
        Expr::Subtraction(l, r) => {
            checking_keeps_tables(*l, s);
            checking_keeps_tables(*r, checked(*l, s));
        },
        Expr::Multiplication(l, r) => {
            checking_keeps_tables(*l, s);
            checking_keeps_tables(*r, checked(*l, s));
        },
        Expr::Division(l, r) => {
            checking_keeps_tables(*l, s);
            checking_keeps_tables(*r, checked(*l, s));
        },
        Expr::Power(l, r) => {
            checking_keeps_tables(*l, s);
            checking_keeps_tables(*r, checked(*l, s));
        },
        _ => {},
    }
}

/// Checking a sequence that binds nothing changes neither table.
pub proof fn checking_all_keeps_tables(es: Seq<Expr>, s: AnalysisView)
    requires
        binds_nothing_all(es),
    ensures
        checked_all(es, s).functions == s.functions,
        checked_all(es, s).variables == s.variables,
    decreases es,
{
    if es.len() > 0 {
        let init = es.subrange(0, es.len() - 1);
        checking_all_keeps_tables(init, s);
        checking_keeps_tables(es[es.len() - 1], checked_all(init, s));
    }
}

/// A call whose arguments bind nothing, to a function registered with as many parameters as
/// it has arguments, each argument of its parameter's type in the state the call is checked
/// in, adds no diagnostic beyond the arguments' own: with bound variables or literals as
/// arguments, it adds none at all.
pub proof fn call_with_matching_types_reports_nothing_from_start(
    name: String,
    args: Vec<Expr>,
    name_span: Span,
    args_span: Span,
    s: AnalysisView,
)
    requires
        binds_nothing_all(args@),
        s.functions.contains_key(name@),
        args@.len() == s.functions[name@].params.len(),
        forall|i: int|
            0 <= i < args@.len() ==> type_of(#[trigger] args@[i], s.functions, s.variables)
                == s.functions[name@].params[i].0,
    ensures
        checked(Expr::Call(name, args, name_span, args_span), s).diagnostics == checked_all(args@, s).diagnostics,
{
    checking_all_keeps_tables(args@, s);
    call_with_matching_arguments_reports_nothing(name, args, name_span, args_span, s);
}

/// A call whose arguments bind nothing, to a name not registered reports exactly one diagnostic of its
/// own: that the function does not exist, at the span of the name.
pub proof fn call_to_undeclared_function_from_start(
    name: String,
    args: Vec<Expr>,
    name_span: Span,
    args_span: Span,
    s: AnalysisView,
)
    requires
        binds_nothing_all(args@),
        !s.functions.contains_key(name@),
    ensures
        checked(Expr::Call(name, args, name_span, args_span), s).diagnostics == checked_all(args@, s).diagnostics.push(
            TypeError::FunctionDoesNotExist(name, name_span),
        ),
{
    checking_all_keeps_tables(args@, s);
    call_to_undeclared_function_reports_once(name, args, name_span, args_span, s);
}

/// A call with M arguments that bind nothing, to a registered function of N parameters, M != N, reports
/// the arity mismatch (expected N, actual M) first; every further diagnostic of its own is a
/// type mismatch of a position below both M and N.
pub proof fn call_with_wrong_argument_count_from_start(
    name: String,
    args: Vec<Expr>,
    name_span: Span,
    args_span: Span,
    s: AnalysisView,
)
    requires
        binds_nothing_all(args@),
        s.functions.contains_key(name@),
        args@.len() != s.functions[name@].params.len(),
    ensures
        ({
            let params = s.functions[name@].params;
            let n = if args@.len() < params.len() {
                args@.len()
            } else {
                params.len()
            };
            let ds = call_diagnostics(name, args@, name_span, args_span, s.functions, s.variables);
            &&& checked(Expr::Call(name, args, name_span, args_span), s).diagnostics
                == checked_all(args@, s).diagnostics + ds
            &&& ds[0] == TypeError::ArityMismatch(args_span, params.len() as usize, args@.len() as usize)
            &&& forall|j: int|
                1 <= j < ds.len() ==> exists|i: int|
                    0 <= i < n && #[trigger] ds[j] == mismatch_at(args@, params, i, s.functions, s.variables)
        }),
{
    checking_all_keeps_tables(args@, s);
    call_with_wrong_argument_count(name, args, name_span, args_span, s);
    let s1 = checked_all(args@, s);
    assert(s1.functions == s.functions && s1.variables == s.variables);
    assert(call_diagnostics(name, args@, name_span, args_span, s1.functions, s1.variables)
        == call_diagnostics(name, args@, name_span, args_span, s.functions, s.variables));
    let params = s.functions[name@].params;
    let n = if args@.len() < params.len() {
        args@.len()
    } else {
        params.len()
    };
    let ds = call_diagnostics(name, args@, name_span, args_span, s.functions, s.variables);
    assert forall|j: int| 1 <= j < ds.len() implies exists|i: int|
        0 <= i < n && #[trigger] ds[j] == mismatch_at(args@, params, i, s.functions, s.variables) by {
        let i = choose|i: int|
            0 <= i < n && #[trigger] ds[j] == mismatch_at(args@, params, i, s1.functions, s1.variables);
        assert(ds[j] == mismatch_at(args@, params, i, s.functions, s.variables));
    }
}

/// An operator whose operands bind nothing reports an operand type mismatch exactly when
/// the operands' types in the state it is checked in differ, whichever side each stands on.
pub proof fn operand_mismatch_iff_types_differ_from_start(e: Expr, s: AnalysisView)
    requires
        operands(e) is Some,
        binds_nothing(operands(e).unwrap().0),
        binds_nothing(operands(e).unwrap().1),
    ensures
        ({
            let (l, r) = operands(e).unwrap();
            let s2 = checked(r, checked(l, s));
            let tl = type_of(l, s.functions, s.variables);
            let tr = type_of(r, s.functions, s.variables);
            &&& tl != tr ==> checked(e, s) == s2.report(
                TypeError::OperandTypeMismatch(span_of(l), span_of(r), tl, tr),
            )
            &&& tl == tr ==> checked(e, s) == s2
        }),
{
    let (l, r) = operands(e).unwrap();
    checking_keeps_tables(l, s);
    checking_keeps_tables(r, checked(l, s));
    operand_mismatch_iff_types_differ(e, s);
}

/// A new value, binding nothing, for a name that is not bound reports it as unbound at the
/// reassignment's span, after what the value reports, and binds nothing.
pub proof fn unbound_reassignment_from_start(name: String, value: Box<Expr>, span: Span, s: AnalysisView)
    requires
        binds_nothing(*value),
        !s.variables.contains_key(name@),
    ensures
        checked(Expr::Reassign(name, value, span), s) == checked(*value, s).report(
            TypeError::UnboundVariable(span),
        ),
        checked(Expr::Reassign(name, value, span), s).variables == s.variables,
{
    checking_keeps_tables(*value, s);
    unbound_reassignment_is_reported(name, value, span, s);
}

/// A new value, binding nothing, for a bound name reports nothing beyond what the value
/// reports, and consults the binding without changing it.
pub proof fn bound_reassignment_from_start(name: String, value: Box<Expr>, span: Span, s: AnalysisView)
    requires
        binds_nothing(*value),
        s.variables.contains_key(name@),
    ensures
        checked(Expr::Reassign(name, value, span), s) == checked(*value, s),
        checked(Expr::Reassign(name, value, span), s).variables == s.variables,
{
    checking_keeps_tables(*value, s);
}

} // verus!
