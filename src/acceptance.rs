use vstd::prelude::*;

use crate::analysis::{
    analyzed, call_diagnostics, checked, checked_all, declared_all, signature_of, AnalysisView,
    SigView,
};
use crate::codegen::{elif_scope, lowering_scope, lowering_scope_all, lowers, parameter_names};
use crate::frontend::{Expr, Parameter, Span};

verus! {

/// The node is built only from what lowering supports: integer literals, variables,
/// assignments, calls, `if` with `elif` and `else` branches, `while`, and binary operators.
pub open spec fn supported(e: Expr) -> bool
    decreases e,
{
    match e {
        Expr::Number(_, _) => true,
        Expr::Var(_, _) => true,
        Expr::Assign(_, v, _) => supported(*v),
        Expr::Reassign(_, v, _) => supported(*v),
        Expr::Call(_, args, _, _) => supported_all(args@),
        Expr::While(c, body, _) => supported(*c) && supported_all(body@),
        Expr::If(c, body, elifs, els, _) => {
            &&& supported(*c)
            &&& supported_all(body@)
            &&& match elifs {
                Some(es) => supported_elifs(es@),
                None => true,
            }
            &&& match els {
                Some(x) => match *x {
                    Expr::Else(b, _) => supported_all(b@),
                    _ => false,
                },
                None => true,
            }
        },
        Expr::Equality(l, r) => supported(*l) && supported(*r),
        Expr::NotEqual(l, r) => supported(*l) && supported(*r),
        Expr::GreaterThan(l, r) => supported(*l) && supported(*r),
        Expr::LessThan(l, r) => supported(*l) && supported(*r),
        Expr::GreaterThanEqual(l, r) => supported(*l) && supported(*r),
        Expr::LessThanEqual(l, r) => supported(*l) && supported(*r),
        Expr::Addition(l, r) => supported(*l) && supported(*r),
        Expr::Subtraction(l, r) => supported(*l) && supported(*r),
        Expr::Multiplication(l, r) => supported(*l) && supported(*r),
        Expr::Division(l, r) => supported(*l) && supported(*r),
        Expr::Power(l, r) => supported(*l) && supported(*r),
        _ => false,
    }
}

/// Every statement of the sequence is supported.
pub open spec fn supported_all(es: Seq<Expr>) -> bool
    decreases es,
{
    if es.len() == 0 {
        true
    } else {
        supported_all(es.subrange(0, es.len() - 1)) && supported(es[es.len() - 1])
    }
}

/// Every node of the chain is an `elif` branch of supported parts.
pub open spec fn supported_elifs(es: Seq<Expr>) -> bool
    decreases es,
{
    if es.len() == 0 {
        true
    } else {
        &&& supported_elifs(es.subrange(0, es.len() - 1))
        &&& match es[es.len() - 1] {
            Expr::Elif(c, b, _) => supported(*c) && supported_all(b@),
            _ => false,
        }
    }
}

/// Checking never removes a diagnostic.
pub proof fn diagnostics_only_grow(e: Expr, s: AnalysisView)
    ensures
        checked(e, s).diagnostics.len() >= s.diagnostics.len(),
    decreases e,
{
    match e {
        Expr::Function(name, params, ret, body, span) => {
            let inner = AnalysisView {
                functions: s.functions.insert(name@, signature_of(params@, ret, span)),
                variables: crate::analysis::parameter_table(params@),
                diagnostics: s.diagnostics,
            };
            diagnostics_only_grow_all(body@, inner);
        },
        Expr::Else(body, _) => diagnostics_only_grow_all(body@, s),
        Expr::Elif(c, body, _) => {
            diagnostics_only_grow(*c, s);
            diagnostics_only_grow_all(body@, checked(*c, s));
        },
        Expr::If(c, body, elifs, els, _) => {
            diagnostics_only_grow(*c, s);
            let s1 = checked_all(body@, checked(*c, s));
            diagnostics_only_grow_all(body@, checked(*c, s));
            let s2 = match elifs {
                Some(es) => checked_all(es@, s1),
                None => s1,
            };
            match elifs {
                Some(es) => diagnostics_only_grow_all(es@, s1),
                None => {},
            }
            match els {
                Some(x) => diagnostics_only_grow(*x, s2),
                None => {},
            }
        },
        Expr::While(c, body, _) => {
            diagnostics_only_grow(*c, s);
            diagnostics_only_grow_all(body@, checked(*c, s));
        },
        Expr::List(items, _) => diagnostics_only_grow_all(items@, s),
        Expr::Call(_, args, _, _) => diagnostics_only_grow_all(args@, s),
        Expr::Assign(_, v, _) => diagnostics_only_grow(*v, s),
        Expr::Reassign(_, v, _) => diagnostics_only_grow(*v, s),
        Expr::Equality(l, r) => {
            diagnostics_only_grow(*l, s);
            diagnostics_only_grow(*r, checked(*l, s));
        },
        Expr::NotEqual(l, r) => {
            diagnostics_only_grow(*l, s);
            diagnostics_only_grow(*r, checked(*l, s));
        },
        Expr::GreaterThan(l, r) => {
            diagnostics_only_grow(*l, s);
            diagnostics_only_grow(*r, checked(*l, s));
        },
        Expr::LessThan(l, r) => {
            diagnostics_only_grow(*l, s);
            diagnostics_only_grow(*r, checked(*l, s));
        },
        Expr::GreaterThanEqual(l, r) => {
            diagnostics_only_grow(*l, s);
            diagnostics_only_grow(*r, checked(*l, s));
        },
        Expr::LessThanEqual(l, r) => {
            diagnostics_only_grow(*l, s);
            diagnostics_only_grow(*r, checked(*l, s));
        },
        Expr::Addition(l, r) => {
            diagnostics_only_grow(*l, s);
            diagnostics_only_grow(*r, checked(*l, s));
        },
        Expr::Subtraction(l, r) => {
            diagnostics_only_grow(*l, s);
            diagnostics_only_grow(*r, checked(*l, s));
        },
        Expr::Multiplication(l, r) => {
            diagnostics_only_grow(*l, s);
            diagnostics_only_grow(*r, checked(*l, s));
        },
        Expr::Division(l, r) => {
            diagnostics_only_grow(*l, s);
            diagnostics_only_grow(*r, checked(*l, s));
        },
        Expr::Power(l, r) => {
            diagnostics_only_grow(*l, s);
            diagnostics_only_grow(*r, checked(*l, s));
        },
        _ => {},
    }
}

/// Checking a sequence never removes a diagnostic.
pub proof fn diagnostics_only_grow_all(es: Seq<Expr>, s: AnalysisView)
    ensures
        checked_all(es, s).diagnostics.len() >= s.diagnostics.len(),
    decreases es,
{
    if es.len() > 0 {
        let init = es.subrange(0, es.len() - 1);
        diagnostics_only_grow_all(init, s);
        diagnostics_only_grow(es[es.len() - 1], checked_all(init, s));
    }
}

proof fn lemma_supported_keeps_functions(e: Expr, s: AnalysisView)
    requires
        supported(e),
    ensures
        checked(e, s).functions == s.functions,
    decreases e,
{
    match e {
        Expr::If(c, body, elifs, els, _) => {
            lemma_supported_keeps_functions(*c, s);
            let s1 = checked_all(body@, checked(*c, s));
            lemma_supported_all_keeps_functions(body@, checked(*c, s));
            let s2 = match elifs {
                Some(es) => checked_all(es@, s1),
                None => s1,
            };
            match elifs {
                Some(es) => lemma_elifs_keep_functions(es@, s1),
                None => {},
            }
            match els {
                Some(x) => match *x {
                    Expr::Else(b, sp) => {
                        assert(checked(Expr::Else(b, sp), s2) == checked_all(b@, s2));
                        lemma_supported_all_keeps_functions(b@, s2);
                    },
                    _ => {},
                },
                None => {},
            }
        },
        Expr::While(c, body, _) => {
            lemma_supported_keeps_functions(*c, s);
            lemma_supported_all_keeps_functions(body@, checked(*c, s));
        },
        Expr::Call(_, args, _, _) => lemma_supported_all_keeps_functions(args@, s),
        Expr::Assign(_, v, _) => lemma_supported_keeps_functions(*v, s),
        Expr::Reassign(_, v, _) => lemma_supported_keeps_functions(*v, s),
        Expr::Equality(l, r) => {
            lemma_supported_keeps_functions(*l, s);
            lemma_supported_keeps_functions(*r, checked(*l, s));
        },
        Expr::NotEqual(l, r) => {
            lemma_supported_keeps_functions(*l, s);
            lemma_supported_keeps_functions(*r, checked(*l, s));
        },
        Expr::GreaterThan(l, r) => {
            lemma_supported_keeps_functions(*l, s);
            lemma_supported_keeps_functions(*r, checked(*l, s));
        },
        Expr::LessThan(l, r) => {
            lemma_supported_keeps_functions(*l, s);
            lemma_supported_keeps_functions(*r, checked(*l, s));
        },
        Expr::GreaterThanEqual(l, r) => {
            lemma_supported_keeps_functions(*l, s);
            lemma_supported_keeps_functions(*r, checked(*l, s));
        },
        Expr::LessThanEqual(l, r) => {
            lemma_supported_keeps_functions(*l, s);
            lemma_supported_keeps_functions(*r, checked(*l, s));
        },
        Expr::Addition(l, r) => {
            lemma_supported_keeps_functions(*l, s);
            lemma_supported_keeps_functions(*r, checked(*l, s));
        },
        Expr::Subtraction(l, r) => {
            lemma_supported_keeps_functions(*l, s);
            lemma_supported_keeps_functions(*r, checked(*l, s));
        },
        Expr::Multiplication(l, r) => {
            lemma_supported_keeps_functions(*l, s);
            lemma_supported_keeps_functions(*r, checked(*l, s));
        },
        Expr::Division(l, r) => {
            lemma_supported_keeps_functions(*l, s);
            lemma_supported_keeps_functions(*r, checked(*l, s));
        },
        Expr::Power(l, r) => {
            lemma_supported_keeps_functions(*l, s);
            lemma_supported_keeps_functions(*r, checked(*l, s));
        },
        _ => {},
    }
}

proof fn lemma_supported_all_keeps_functions(es: Seq<Expr>, s: AnalysisView)
    requires
        supported_all(es),
    ensures
        checked_all(es, s).functions == s.functions,
    decreases es,
{
    if es.len() > 0 {
        let init = es.subrange(0, es.len() - 1);
        lemma_supported_all_keeps_functions(init, s);
        lemma_supported_keeps_functions(es[es.len() - 1], checked_all(init, s));
    }
}

proof fn lemma_elifs_keep_functions(es: Seq<Expr>, s: AnalysisView)
    requires
        supported_elifs(es),
    ensures
        checked_all(es, s).functions == s.functions,
    decreases es,
{
    if es.len() > 0 {
        let init = es.subrange(0, es.len() - 1);
        lemma_elifs_keep_functions(init, s);
        let s1 = checked_all(init, s);
        match es[es.len() - 1] {
            Expr::Elif(c, b, sp) => {
                assert(checked(Expr::Elif(c, b, sp), s1) == checked_all(b@, checked(*c, s1)));
                lemma_supported_keeps_functions(*c, s1);
                lemma_supported_all_keeps_functions(b@, checked(*c, s1));
            },
            _ => {},
        }
    }
}

/// Checking never removes a registered function.
pub proof fn checking_keeps_functions(e: Expr, s: AnalysisView)
    ensures
        s.functions.dom().subset_of(checked(e, s).functions.dom()),
    decreases e,
{
    match e {
        Expr::Function(name, params, ret, body, span) => {
            let inner = AnalysisView {
                functions: s.functions.insert(name@, signature_of(params@, ret, span)),
                variables: crate::analysis::parameter_table(params@),
                diagnostics: s.diagnostics,
            };
            checking_all_keeps_functions(body@, inner);
        },
        Expr::Else(body, _) => checking_all_keeps_functions(body@, s),
        Expr::Elif(c, body, _) => {
            checking_keeps_functions(*c, s);
            checking_all_keeps_functions(body@, checked(*c, s));
        },
        Expr::If(c, body, elifs, els, _) => {
            checking_keeps_functions(*c, s);
            let s1 = checked_all(body@, checked(*c, s));
            checking_all_keeps_functions(body@, checked(*c, s));
            let s2 = match elifs {
                Some(es) => checked_all(es@, s1),
                None => s1,
            };
            match elifs {
                Some(es) => checking_all_keeps_functions(es@, s1),
                None => {},
            }
            match els {
                Some(x) => checking_keeps_functions(*x, s2),
                None => {},
            }
        },
        Expr::While(c, body, _) => {
            checking_keeps_functions(*c, s);
            checking_all_keeps_functions(body@, checked(*c, s));
        },
        Expr::List(items, _) => checking_all_keeps_functions(items@, s),
        Expr::Call(_, args, _, _) => checking_all_keeps_functions(args@, s),
        Expr::Assign(_, v, _) => checking_keeps_functions(*v, s),
        Expr::Reassign(_, v, _) => checking_keeps_functions(*v, s),
        Expr::Equality(l, r) => {
            checking_keeps_functions(*l, s);
            checking_keeps_functions(*r, checked(*l, s));
        },
        Expr::NotEqual(l, r) => {
            checking_keeps_functions(*l, s);
            checking_keeps_functions(*r, checked(*l, s));
        },
        Expr::GreaterThan(l, r) => {
            checking_keeps_functions(*l, s);
            checking_keeps_functions(*r, checked(*l, s));
        },
        Expr::LessThan(l, r) => {
            checking_keeps_functions(*l, s);
            checking_keeps_functions(*r, checked(*l, s));
        },
        Expr::GreaterThanEqual(l, r) => {
            checking_keeps_functions(*l, s);
            checking_keeps_functions(*r, checked(*l, s));
        },
        Expr::LessThanEqual(l, r) => {
            checking_keeps_functions(*l, s);
            checking_keeps_functions(*r, checked(*l, s));
        },
        Expr::Addition(l, r) => {
            checking_keeps_functions(*l, s);
            checking_keeps_functions(*r, checked(*l, s));
        },
        Expr::Subtraction(l, r) => {
            checking_keeps_functions(*l, s);
            checking_keeps_functions(*r, checked(*l, s));
        },
        Expr::Multiplication(l, r) => {
            checking_keeps_functions(*l, s);
            checking_keeps_functions(*r, checked(*l, s));
        },
        Expr::Division(l, r) => {
            checking_keeps_functions(*l, s);
            checking_keeps_functions(*r, checked(*l, s));
        },
        Expr::Power(l, r) => {
            checking_keeps_functions(*l, s);
            checking_keeps_functions(*r, checked(*l, s));
        },
        _ => {},
    }
}

/// Checking a sequence never removes a registered function.
pub proof fn checking_all_keeps_functions(es: Seq<Expr>, s: AnalysisView)
    ensures
        s.functions.dom().subset_of(checked_all(es, s).functions.dom()),
    decreases es,
{
    if es.len() > 0 {
        let init = es.subrange(0, es.len() - 1);
        checking_all_keeps_functions(init, s);
        checking_keeps_functions(es[es.len() - 1], checked_all(init, s));
    }
}

/// The variables that parameters bind are the names that lowering maps for them.
proof fn lemma_parameter_names(params: Seq<(Parameter, Span)>)
    ensures
        crate::analysis::parameter_table(params).dom().subset_of(parameter_names(params)),
    decreases params.len(),
{
    if params.len() > 0 {
        let init = params.drop_last();
        lemma_parameter_names(init);
        let f = |p: (Parameter, Span)| (p.0.name@, p.0.typename);
        assert(params.map_values(f).drop_last() =~= init.map_values(f));
    }
}

/// Every function of the program has a body built only from what lowering supports.
pub open spec fn supported_program(program: Seq<Expr>) -> bool {
    forall|i: int|
        0 <= i < program.len() ==> (#[trigger] program[i] matches Expr::Function(_, _, _, body, _)
            && supported_all(body@))
}

proof fn lemma_accepted_functions_lower(es: Seq<Expr>, s: AnalysisView, fs: Map<Seq<char>, SigView>)
    requires
        supported_program(es),
        checked_all(es, s).diagnostics.len() == s.diagnostics.len(),
        checked_all(es, s).functions.dom().subset_of(fs.dom()),
    ensures
        forall|i: int| 0 <= i < es.len() ==> lowers(#[trigger] es[i], fs),
    decreases es.len(),
{
    if es.len() > 0 {
        let n = es.len();
        let init = es.subrange(0, n - 1);
        let t = checked_all(init, s);
        assert forall|i: int| 0 <= i < init.len() implies (#[trigger] init[i] matches Expr::Function(
            _,
            _,
            _,
            body,
            _,
        ) && supported_all(body@)) by {
            assert(init[i] == es[i]);
        }
        diagnostics_only_grow_all(init, s);
        diagnostics_only_grow(es[n - 1], t);
        checking_keeps_functions(es[n - 1], t);
        lemma_accepted_functions_lower(init, s, fs);
        assert(es[n - 1] matches Expr::Function(_, _, _, body, _) && supported_all(body@));
        match es[n - 1] {
            Expr::Function(name, params, ret, body, span) => {
                let inner = AnalysisView {
                    functions: t.functions.insert(name@, signature_of(params@, ret, span)),
                    variables: crate::analysis::parameter_table(params@),
                    diagnostics: t.diagnostics,
                };
                checking_all_keeps_functions(body@, inner);
                lemma_parameter_names(params@);
                accepted_all_lower(body@, inner, parameter_names(params@), fs);
            },
            _ => {},
        }
        assert forall|i: int| 0 <= i < es.len() implies lowers(#[trigger] es[i], fs) by {
            if i < n - 1 {
                assert(init[i] == es[i]);
            }
        }
    }
}

/// Registering signatures leaves the diagnostics as they are.
pub proof fn declaring_keeps_diagnostics(es: Seq<Expr>, s: AnalysisView)
    ensures
        declared_all(es, s).diagnostics == s.diagnostics,
    decreases es.len(),
{
    if es.len() > 0 {
        declaring_keeps_diagnostics(es.subrange(0, es.len() - 1), s);
    }
}

/// A program whose function bodies use only what lowering supports, and which the analyzer
/// accepts without a diagnostic, lowers without an internal fault: every such fault is a
/// mistake of the compiler, not of the program.
pub proof fn accepted_program_lowers(program: Seq<Expr>, s: AnalysisView)
    requires
        supported_program(program),
        analyzed(program, s).diagnostics.len() == declared_all(program, s).diagnostics.len(),
    ensures
        forall|i: int| 0 <= i < program.len() ==> lowers(#[trigger] program[i], analyzed(program, s).functions),
{
    lemma_accepted_functions_lower(program, declared_all(program, s), analyzed(program, s).functions);
}

/// A supported node that the analyzer checks without a new diagnostic lowers without a
/// fault, as long as lowering starts with every bound variable mapped and every registered
/// function known; afterwards every bound variable is still mapped.
pub proof fn accepted_node_lowers(e: Expr, s: AnalysisView, names: Set<Seq<char>>, fs: Map<Seq<char>, SigView>)
    requires
        supported(e),
        checked(e, s).diagnostics.len() == s.diagnostics.len(),
        s.variables.dom().subset_of(names),
        s.functions.dom().subset_of(fs.dom()),
    ensures
        lowering_scope(e, names, fs) is Some,
        checked(e, s).variables.dom().subset_of(lowering_scope(e, names, fs).unwrap()),
    decreases e, 1int,
{
    match e {
        Expr::Assign(_, v, _) => {
            diagnostics_only_grow(*v, s);
            accepted_node_lowers(*v, s, names, fs);
        },
        Expr::Reassign(_, v, _) => {
            diagnostics_only_grow(*v, s);
            accepted_node_lowers(*v, s, names, fs);
        },
        Expr::Call(name, args, ns, as_) => {
            diagnostics_only_grow_all(args@, s);
            lemma_supported_all_keeps_functions(args@, s);
            let s1 = checked_all(args@, s);
            assert(s1.functions.contains_key(name@)) by {
                if !s1.functions.contains_key(name@) {
                    assert((s1.diagnostics + call_diagnostics(name, args@, ns, as_, s1.functions, s1.variables)).len()
                        > s1.diagnostics.len());
                }
            }
            accepted_all_lower(args@, s, names, fs);
        },
        Expr::While(c, body, _) => {
            diagnostics_only_grow(*c, s);
            diagnostics_only_grow_all(body@, checked(*c, s));
            lemma_supported_keeps_functions(*c, s);
            accepted_node_lowers(*c, s, names, fs);
            let n1 = lowering_scope(*c, names, fs).unwrap();
            accepted_all_lower(body@, checked(*c, s), n1, fs);
        },
        Expr::If(_, _, _, _, _) => accepted_if_lowers(e, s, names, fs),
        Expr::Equality(l, r) => {
            diagnostics_only_grow(*l, s);
            diagnostics_only_grow(*r, checked(*l, s));
            lemma_supported_keeps_functions(*l, s);
            accepted_node_lowers(*l, s, names, fs);
            accepted_node_lowers(*r, checked(*l, s), lowering_scope(*l, names, fs).unwrap(), fs);
        },
        Expr::NotEqual(l, r) => {
            diagnostics_only_grow(*l, s);
            diagnostics_only_grow(*r, checked(*l, s));
            lemma_supported_keeps_functions(*l, s);
            accepted_node_lowers(*l, s, names, fs);
            accepted_node_lowers(*r, checked(*l, s), lowering_scope(*l, names, fs).unwrap(), fs);
        },
        Expr::GreaterThan(l, r) => {
            diagnostics_only_grow(*l, s);
            diagnostics_only_grow(*r, checked(*l, s));
            lemma_supported_keeps_functions(*l, s);
            accepted_node_lowers(*l, s, names, fs);
            accepted_node_lowers(*r, checked(*l, s), lowering_scope(*l, names, fs).unwrap(), fs);
        },
        Expr::LessThan(l, r) => {
            diagnostics_only_grow(*l, s);
            diagnostics_only_grow(*r, checked(*l, s));
            lemma_supported_keeps_functions(*l, s);
            accepted_node_lowers(*l, s, names, fs);
            accepted_node_lowers(*r, checked(*l, s), lowering_scope(*l, names, fs).unwrap(), fs);
        },
        Expr::GreaterThanEqual(l, r) => {
            diagnostics_only_grow(*l, s);
            diagnostics_only_grow(*r, checked(*l, s));
            lemma_supported_keeps_functions(*l, s);
            accepted_node_lowers(*l, s, names, fs);
            accepted_node_lowers(*r, checked(*l, s), lowering_scope(*l, names, fs).unwrap(), fs);
        },
        Expr::LessThanEqual(l, r) => {
            diagnostics_only_grow(*l, s);
            diagnostics_only_grow(*r, checked(*l, s));
            lemma_supported_keeps_functions(*l, s);
            accepted_node_lowers(*l, s, names, fs);
            accepted_node_lowers(*r, checked(*l, s), lowering_scope(*l, names, fs).unwrap(), fs);
        },
        Expr::Addition(l, r) => {
            diagnostics_only_grow(*l, s);
            diagnostics_only_grow(*r, checked(*l, s));
            lemma_supported_keeps_functions(*l, s);
            accepted_node_lowers(*l, s, names, fs);
            accepted_node_lowers(*r, checked(*l, s), lowering_scope(*l, names, fs).unwrap(), fs);
        },
        Expr::Subtraction(l, r) => {
            diagnostics_only_grow(*l, s);
            diagnostics_only_grow(*r, checked(*l, s));
            lemma_supported_keeps_functions(*l, s);
            accepted_node_lowers(*l, s, names, fs);
            accepted_node_lowers(*r, checked(*l, s), lowering_scope(*l, names, fs).unwrap(), fs);
        },
        Expr::Multiplication(l, r) => {
            diagnostics_only_grow(*l, s);
            diagnostics_only_grow(*r, checked(*l, s));
            lemma_supported_keeps_functions(*l, s);
            accepted_node_lowers(*l, s, names, fs);
            accepted_node_lowers(*r, checked(*l, s), lowering_scope(*l, names, fs).unwrap(), fs);
        },
        Expr::Division(l, r) => {
            diagnostics_only_grow(*l, s);
            diagnostics_only_grow(*r, checked(*l, s));
            lemma_supported_keeps_functions(*l, s);
            accepted_node_lowers(*l, s, names, fs);
            accepted_node_lowers(*r, checked(*l, s), lowering_scope(*l, names, fs).unwrap(), fs);
        },
        Expr::Power(l, r) => {
            diagnostics_only_grow(*l, s);
            diagnostics_only_grow(*r, checked(*l, s));
            lemma_supported_keeps_functions(*l, s);
            accepted_node_lowers(*l, s, names, fs);
            accepted_node_lowers(*r, checked(*l, s), lowering_scope(*l, names, fs).unwrap(), fs);
        },
        _ => {},
    }
}

/// The `if` case of [`accepted_node_lowers`].
proof fn accepted_if_lowers(e: Expr, s: AnalysisView, names: Set<Seq<char>>, fs: Map<Seq<char>, SigView>)
    requires
        e is If,
        supported(e),
        checked(e, s).diagnostics.len() == s.diagnostics.len(),
        s.variables.dom().subset_of(names),
        s.functions.dom().subset_of(fs.dom()),
    ensures
        lowering_scope(e, names, fs) is Some,
        checked(e, s).variables.dom().subset_of(lowering_scope(e, names, fs).unwrap()),
    decreases e, 0int,
{
    match e {
        Expr::If(c, body, elifs, els, _) => {
            diagnostics_only_grow(*c, s);
            let s0 = checked(*c, s);
            diagnostics_only_grow_all(body@, s0);
            let s1 = checked_all(body@, s0);
            let s2 = match elifs {
                Some(es) => checked_all(es@, s1),
                None => s1,
            };
            match elifs {
                Some(es) => diagnostics_only_grow_all(es@, s1),
                None => {},
            }
            match els {
                Some(x) => diagnostics_only_grow(*x, s2),
                None => {},
            }
            lemma_supported_keeps_functions(*c, s);
            lemma_supported_all_keeps_functions(body@, s0);
            accepted_node_lowers(*c, s, names, fs);
            let n1 = lowering_scope(*c, names, fs).unwrap();
            accepted_all_lower(body@, s0, n1, fs);
            let n2 = lowering_scope_all(body@, n1, fs).unwrap();
            match elifs {
                Some(es) => {
                    accepted_elifs_lower(es@, s1, n2, fs);
                    lemma_elifs_keep_functions(es@, s1);
                },
                None => {},
            }
            let n3 = match elifs {
                Some(es) => elif_scope(es@, n2, fs).unwrap(),
                None => n2,
            };
            match els {
                Some(x) => match *x {
                    Expr::Else(b, sp) => {
                        assert(checked(Expr::Else(b, sp), s2) == checked_all(b@, s2));
                        accepted_all_lower(b@, s2, n3, fs);
                    },
                    _ => {},
                },
                None => {},
            }
        
        },
        _ => {},
    }
}

/// A sequence of supported statements that the analyzer checks without a new diagnostic
/// lowers without a fault.
pub proof fn accepted_all_lower(es: Seq<Expr>, s: AnalysisView, names: Set<Seq<char>>, fs: Map<Seq<char>, SigView>)
    requires
        supported_all(es),
        checked_all(es, s).diagnostics.len() == s.diagnostics.len(),
        s.variables.dom().subset_of(names),
        s.functions.dom().subset_of(fs.dom()),
    ensures
        lowering_scope_all(es, names, fs) is Some,
        checked_all(es, s).variables.dom().subset_of(lowering_scope_all(es, names, fs).unwrap()),
    decreases es, 2int,
{
    if es.len() > 0 {
        let init = es.subrange(0, es.len() - 1);
        diagnostics_only_grow_all(init, s);
        diagnostics_only_grow(es[es.len() - 1], checked_all(init, s));
        lemma_supported_all_keeps_functions(init, s);
        accepted_all_lower(init, s, names, fs);
        accepted_node_lowers(
            es[es.len() - 1],
            checked_all(init, s),
            lowering_scope_all(init, names, fs).unwrap(),
            fs,
        );
    }
}

proof fn accepted_elifs_lower(es: Seq<Expr>, s: AnalysisView, names: Set<Seq<char>>, fs: Map<Seq<char>, SigView>)
    requires
        supported_elifs(es),
        checked_all(es, s).diagnostics.len() == s.diagnostics.len(),
        s.variables.dom().subset_of(names),
        s.functions.dom().subset_of(fs.dom()),
    ensures
        elif_scope(es, names, fs) is Some,
        checked_all(es, s).variables.dom().subset_of(elif_scope(es, names, fs).unwrap()),
    decreases es, 2int,
{
    if es.len() > 0 {
        let init = es.subrange(0, es.len() - 1);
        diagnostics_only_grow_all(init, s);
        diagnostics_only_grow(es[es.len() - 1], checked_all(init, s));
        lemma_elifs_keep_functions(init, s);
        accepted_elifs_lower(init, s, names, fs);
        let s1 = checked_all(init, s);
        let n1 = elif_scope(init, names, fs).unwrap();
        match es[es.len() - 1] {
            Expr::Elif(c, b, sp) => {
                assert(checked(Expr::Elif(c, b, sp), s1) == checked_all(b@, checked(*c, s1)));
                diagnostics_only_grow_all(b@, checked(*c, s1));
                diagnostics_only_grow(*c, s1);
                lemma_supported_keeps_functions(*c, s1);
                accepted_node_lowers(*c, s1, n1, fs);
                accepted_all_lower(b@, checked(*c, s1), lowering_scope(*c, n1, fs).unwrap(), fs);
            },
            _ => {},
        }
    }
}

} // verus!
