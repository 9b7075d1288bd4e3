use vstd::prelude::*;

use crate::analysis::{
    argument_mismatches, call_diagnostics, checked, checked_all, declared_all, operand_check,
    signature_of, type_of, AnalysisView, SigView,
};
use crate::error::TypeError;
use crate::frontend::{operands, span_of, Expr, Span, Type};

verus! {

/// The mismatch that argument `i` of a call reports against its parameter.
pub open spec fn mismatch_at(
    args: Seq<Expr>,
    params: Seq<(Type, Span)>,
    i: int,
    functions: Map<Seq<char>, SigView>,
    variables: Map<Seq<char>, Type>,
) -> TypeError {
    TypeError::ArgumentTypeMismatch(
        params[i].1,
        span_of(args[i]),
        params[i].0,
        type_of(args[i], functions, variables),
    )
}

proof fn lemma_no_mismatches(
    args: Seq<Expr>,
    params: Seq<(Type, Span)>,
    n: nat,
    functions: Map<Seq<char>, SigView>,
    variables: Map<Seq<char>, Type>,
)
    requires
        n <= args.len(),
        n <= params.len(),
        forall|i: int| 0 <= i < n ==> type_of(args[i], functions, variables) == #[trigger] params[i].0,
    ensures
        argument_mismatches(args, params, n, functions, variables) == Seq::<TypeError>::empty(),
    decreases n,
{
    if n > 0 {
        lemma_no_mismatches(args, params, (n - 1) as nat, functions, variables);
    }
}

proof fn lemma_mismatch_positions(
    args: Seq<Expr>,
    params: Seq<(Type, Span)>,
    n: nat,
    functions: Map<Seq<char>, SigView>,
    variables: Map<Seq<char>, Type>,
)
    ensures
        forall|j: int|
            0 <= j < argument_mismatches(args, params, n, functions, variables).len() ==> exists|i: int|
                0 <= i < n && #[trigger] argument_mismatches(args, params, n, functions, variables)[j]
                    == mismatch_at(args, params, i, functions, variables),
    decreases n,
{
    if n > 0 {
        let m = (n - 1) as nat;
        lemma_mismatch_positions(args, params, m, functions, variables);
        let earlier = argument_mismatches(args, params, m, functions, variables);
        let ds = argument_mismatches(args, params, n, functions, variables);
        assert forall|j: int| 0 <= j < ds.len() implies exists|i: int|
            0 <= i < n && #[trigger] ds[j] == mismatch_at(args, params, i, functions, variables) by {
            if j < earlier.len() {
                assert(ds[j] == earlier[j]);
                let i = choose|i: int|
                    0 <= i < m && #[trigger] earlier[j] == mismatch_at(
                        args,
                        params,
                        i,
                        functions,
                        variables,
                    );
                assert(0 <= i < n && ds[j] == mismatch_at(args, params, i, functions, variables));
            } else {
                assert(ds[j] == mismatch_at(args, params, m as int, functions, variables));
            }
        }
    }
}

/// A call to a registered function with exactly as many arguments as it has parameters,
/// each of its parameter's type in order, reports no diagnostic of its own: checking it
/// ends in the state its arguments leave.
pub proof fn call_with_matching_arguments_reports_nothing(
    name: String,
    args: Vec<Expr>,
    name_span: Span,
    args_span: Span,
    s: AnalysisView,
)
    requires
        checked_all(args@, s).functions.contains_key(name@),
        args@.len() == checked_all(args@, s).functions[name@].params.len(),
        forall|i: int|
            0 <= i < args@.len() ==> type_of(
                #[trigger] args@[i],
                checked_all(args@, s).functions,
                checked_all(args@, s).variables,
            ) == checked_all(args@, s).functions[name@].params[i].0,
    ensures
        checked(Expr::Call(name, args, name_span, args_span), s) == checked_all(args@, s),
        checked_all(args@, s).diagnostics == s.diagnostics ==> checked(
            Expr::Call(name, args, name_span, args_span),
            s,
        ).diagnostics == s.diagnostics,
{
    let s1 = checked_all(args@, s);
    let params = s1.functions[name@].params;
    lemma_no_mismatches(args@, params, args@.len(), s1.functions, s1.variables);
    assert(call_diagnostics(name, args@, name_span, args_span, s1.functions, s1.variables)
        =~= Seq::<TypeError>::empty());
    assert(s1.diagnostics + Seq::<TypeError>::empty() =~= s1.diagnostics);
}

/// A call to a name with no registered signature reports exactly one diagnostic of its own:
/// that the function does not exist, at the span of the name.
pub proof fn call_to_undeclared_function_reports_once(
    name: String,
    args: Vec<Expr>,
    name_span: Span,
    args_span: Span,
    s: AnalysisView,
)
    requires
        !checked_all(args@, s).functions.contains_key(name@),
    ensures
        checked(Expr::Call(name, args, name_span, args_span), s) == checked_all(args@, s).report(
            TypeError::FunctionDoesNotExist(name, name_span),
        ),
{
    let s1 = checked_all(args@, s);
    assert(s1.diagnostics + seq![TypeError::FunctionDoesNotExist(name, name_span)]
        =~= s1.diagnostics.push(TypeError::FunctionDoesNotExist(name, name_span)));
}

/// A call with M arguments to a function of N parameters, M != N, reports the arity
/// mismatch (expected N, actual M) at the span of its arguments first; every further
/// diagnostic of its own is a type mismatch of a position that both the arguments and the
/// parameters have, so none is reported for a missing or an extra argument.
pub proof fn call_with_wrong_argument_count(
    name: String,
    args: Vec<Expr>,
    name_span: Span,
    args_span: Span,
    s: AnalysisView,
)
    requires
        checked_all(args@, s).functions.contains_key(name@),
        args@.len() != checked_all(args@, s).functions[name@].params.len(),
    ensures
        ({
            let s1 = checked_all(args@, s);
            let params = s1.functions[name@].params;
            let n = if args@.len() < params.len() {
                args@.len()
            } else {
                params.len()
            };
            let ds = call_diagnostics(name, args@, name_span, args_span, s1.functions, s1.variables);
            &&& checked(Expr::Call(name, args, name_span, args_span), s) == s1.report_all(ds)
            &&& ds.len() >= 1
            &&& ds[0] == TypeError::ArityMismatch(args_span, params.len() as usize, args@.len() as usize)
            &&& forall|j: int|
                1 <= j < ds.len() ==> exists|i: int|
                    0 <= i < n && #[trigger] ds[j] == mismatch_at(
                        args@,
                        params,
                        i,
                        s1.functions,
                        s1.variables,
                    )
        }),
{
    let s1 = checked_all(args@, s);
    let params = s1.functions[name@].params;
    let n = if args@.len() < params.len() {
        args@.len()
    } else {
        params.len()
    };
    let ms = argument_mismatches(args@, params, n, s1.functions, s1.variables);
    let ds = call_diagnostics(name, args@, name_span, args_span, s1.functions, s1.variables);
    lemma_mismatch_positions(args@, params, n, s1.functions, s1.variables);
    assert forall|j: int| 1 <= j < ds.len() implies exists|i: int|
        0 <= i < n && #[trigger] ds[j] == mismatch_at(args@, params, i, s1.functions, s1.variables) by {
        assert(ds[j] == ms[j - 1]);
    }
}

/// A reference to a name that is not bound reports it as unbound, at the reference's span.
pub proof fn unbound_reference_is_reported(name: String, span: Span, s: AnalysisView)
    requires
        !s.variables.contains_key(name@),
    ensures
        checked(Expr::Var(name, span), s) == s.report(TypeError::UnboundVariable(span)),
{
}

/// A new value for a name that is not bound reports it as unbound, at the span of the
/// reassignment, after what the value itself reports.
pub proof fn unbound_reassignment_is_reported(name: String, value: Box<Expr>, span: Span, s: AnalysisView)
    requires
        !checked(*value, s).variables.contains_key(name@),
    ensures
        checked(Expr::Reassign(name, value, span), s) == checked(*value, s).report(
            TypeError::UnboundVariable(span),
        ),
{
}

/// Checking never unbinds a variable.
pub proof fn checking_keeps_bindings(e: Expr, s: AnalysisView, k: Seq<char>)
    requires
        s.variables.contains_key(k),
    ensures
        checked(e, s).variables.contains_key(k),
    decreases e,
{
    match e {
        Expr::Function(_, _, _, _, _) => {},
        Expr::Else(body, _) => checking_all_keeps_bindings(body@, s, k),
        Expr::Elif(c, body, _) => {
            checking_keeps_bindings(*c, s, k);
            checking_all_keeps_bindings(body@, checked(*c, s), k);
        },
        Expr::If(c, body, elifs, els, _) => {
            checking_keeps_bindings(*c, s, k);
            let s1 = checked_all(body@, checked(*c, s));
            checking_all_keeps_bindings(body@, checked(*c, s), k);
            let s2 = match elifs {
                Some(es) => checked_all(es@, s1),
                None => s1,
            };
            match elifs {
                Some(es) => checking_all_keeps_bindings(es@, s1, k),
                None => {},
            }
            match els {
                Some(x) => checking_keeps_bindings(*x, s2, k),
                None => {},
            }
        },
        Expr::While(c, body, _) => {
            checking_keeps_bindings(*c, s, k);
            checking_all_keeps_bindings(body@, checked(*c, s), k);
        },
        Expr::List(items, _) => checking_all_keeps_bindings(items@, s, k),
        Expr::Call(_, args, _, _) => checking_all_keeps_bindings(args@, s, k),
        Expr::Assign(_, v, _) => checking_keeps_bindings(*v, s, k),
        Expr::Reassign(_, v, _) => checking_keeps_bindings(*v, s, k),
        Expr::Equality(l, r) => {
            checking_keeps_bindings(*l, s, k);
            checking_keeps_bindings(*r, checked(*l, s), k);
        },
        Expr::NotEqual(l, r) => {
            checking_keeps_bindings(*l, s, k);
            checking_keeps_bindings(*r, checked(*l, s), k);
        },
        Expr::GreaterThan(l, r) => {
            checking_keeps_bindings(*l, s, k);
            checking_keeps_bindings(*r, checked(*l, s), k);
        },
        Expr::LessThan(l, r) => {
            checking_keeps_bindings(*l, s, k);
            checking_keeps_bindings(*r, checked(*l, s), k);
        },
        Expr::GreaterThanEqual(l, r) => {
            checking_keeps_bindings(*l, s, k);
            checking_keeps_bindings(*r, checked(*l, s), k);
        },
        Expr::LessThanEqual(l, r) => {
            checking_keeps_bindings(*l, s, k);
            checking_keeps_bindings(*r, checked(*l, s), k);
        },
        Expr::Addition(l, r) => {
            checking_keeps_bindings(*l, s, k);
            checking_keeps_bindings(*r, checked(*l, s), k);
        },
        Expr::Subtraction(l, r) => {
            checking_keeps_bindings(*l, s, k);
            checking_keeps_bindings(*r, checked(*l, s), k);
        },
        Expr::Multiplication(l, r) => {
            checking_keeps_bindings(*l, s, k);
            checking_keeps_bindings(*r, checked(*l, s), k);
        },
        Expr::Division(l, r) => {
            checking_keeps_bindings(*l, s, k);
            checking_keeps_bindings(*r, checked(*l, s), k);
        },
        Expr::Power(l, r) => {
            checking_keeps_bindings(*l, s, k);
            checking_keeps_bindings(*r, checked(*l, s), k);
        },
        _ => {},
    }
}

/// Checking a sequence of statements never unbinds a variable.
pub proof fn checking_all_keeps_bindings(es: Seq<Expr>, s: AnalysisView, k: Seq<char>)
    requires
        s.variables.contains_key(k),
    ensures
        checked_all(es, s).variables.contains_key(k),
    decreases es,
{
    if es.len() > 0 {
        let init = es.subrange(0, es.len() - 1);
        checking_all_keeps_bindings(init, s, k);
        checking_keeps_bindings(es[es.len() - 1], checked_all(init, s), k);
    }
}

/// Once a name has been assigned, any later reference to it, or new value for it, in the
/// same body reports nothing of its own, whatever statements stand between.
pub proof fn assigned_name_stays_bound(
    name: String,
    value: Box<Expr>,
    assign_span: Span,
    between: Seq<Expr>,
    span: Span,
    later_value: Box<Expr>,
    s: AnalysisView,
)
    ensures
        ({
            let s2 = checked_all(between, checked(Expr::Assign(name, value, assign_span), s));
            &&& checked(Expr::Var(name, span), s2) == s2
            &&& checked(Expr::Reassign(name, later_value, span), s2) == checked(*later_value, s2)
        }),
{
    let s1 = checked(Expr::Assign(name, value, assign_span), s);
    assert(s1.variables.contains_key(name@));
    checking_all_keeps_bindings(between, s1, name@);
    let s2 = checked_all(between, s1);
    checking_keeps_bindings(*later_value, s2, name@);
}

/// A binary operator checks its left operand, then its right one, then reports an operand
/// type mismatch, with both spans and both types, exactly when the two types differ. The
/// condition does not depend on which operand is on which side.
pub proof fn operand_mismatch_iff_types_differ(e: Expr, s: AnalysisView)
    requires
        operands(e) is Some,
    ensures
        ({
            let (l, r) = operands(e).unwrap();
            let s2 = checked(r, checked(l, s));
            let tl = type_of(l, s2.functions, s2.variables);
            let tr = type_of(r, s2.functions, s2.variables);
            &&& checked(e, s) == operand_check(l, r, s2)
            &&& tl != tr ==> operand_check(l, r, s2) == s2.report(
                TypeError::OperandTypeMismatch(span_of(l), span_of(r), tl, tr),
            )
            &&& tl == tr ==> operand_check(l, r, s2) == s2
            &&& (operand_check(l, r, s2) != s2) == (operand_check(r, l, s2) != s2)
        }),
{
    let (l, r) = operands(e).unwrap();
    let s2 = checked(r, checked(l, s));
    let tl = type_of(l, s2.functions, s2.variables);
    let tr = type_of(r, s2.functions, s2.variables);
    if tl != tr {
        assert(operand_check(l, r, s2).diagnostics.len() == s2.diagnostics.len() + 1);
        assert(operand_check(r, l, s2).diagnostics.len() == s2.diagnostics.len() + 1);
    }
}

/// Every function of a program is in the table that registering its signatures leaves.
proof fn lemma_declared_contains(program: Seq<Expr>, s: AnalysisView, i: int)
    requires
        0 <= i < program.len(),
        program[i] is Function,
    ensures
        declared_all(program, s).functions.contains_key(program[i]->Function_0@),
    decreases program.len(),
{
    let n = program.len();
    let init = program.subrange(0, n - 1);
    if i < n - 1 {
        lemma_declared_contains(init, s, i);
        assert(init[i] == program[i]);
    }
}

/// A function whose name no other function of the program has is registered with the
/// signature of its declaration.
proof fn lemma_declared_signature(program: Seq<Expr>, s: AnalysisView, i: int)
    requires
        0 <= i < program.len(),
        program[i] is Function,
        forall|j: int|
            0 <= j < program.len() && j != i && #[trigger] program[j] is Function ==> program[j]->Function_0@
                != program[i]->Function_0@,
    ensures
        declared_all(program, s).functions[program[i]->Function_0@] == signature_of(
            program[i]->Function_1@,
            program[i]->Function_2,
            program[i]->Function_4,
        ),
    decreases program.len(),
{
    let n = program.len();
    let init = program.subrange(0, n - 1);
    if i < n - 1 {
        assert forall|j: int|
            0 <= j < init.len() && j != i && #[trigger] init[j] is Function implies init[j]->Function_0@
                != init[i]->Function_0@ by {
            assert(init[j] == program[j]);
            assert(program[j] is Function);
        }
        assert(init[i] == program[i]);
        lemma_declared_signature(init, s, i);
        assert(program[n - 1] is Function ==> program[n - 1]->Function_0@ != program[i]->Function_0@);
    }
}

/// Before any body of a program is checked, every function it declares is registered,
/// whichever comes first in the source, and a function whose name no other declaration
/// reuses is registered with the signature of its declaration. So a call may name a
/// function declared further down.
pub proof fn every_declared_function_is_registered_first(program: Seq<Expr>, s: AnalysisView, i: int)
    requires
        0 <= i < program.len(),
        program[i] is Function,
    ensures
        declared_all(program, s).functions.contains_key(program[i]->Function_0@),
        (forall|j: int|
            0 <= j < program.len() && j != i && #[trigger] program[j] is Function ==> program[j]->Function_0@
                != program[i]->Function_0@) ==> declared_all(program, s).functions[program[i]->Function_0@]
            == signature_of(program[i]->Function_1@, program[i]->Function_2, program[i]->Function_4),
{
    lemma_declared_contains(program, s, i);
    if forall|j: int|
        0 <= j < program.len() && j != i && #[trigger] program[j] is Function ==> program[j]->Function_0@
            != program[i]->Function_0@ {
        lemma_declared_signature(program, s, i);
    }
}

} // verus!
