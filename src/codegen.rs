use vstd::prelude::*;

use crate::acceptance::{
    accepted_program_lowers, declaring_keeps_diagnostics, diagnostics_only_grow_all, supported_program,
};
use crate::analysis::{analyzed, declared_all, initial_state, table, Analysis, SigView};
use crate::error::TypeError;
use crate::frontend::{all_well_formed, operands, Expr, Parameter, Span};
use crate::lir::{
    arith_result, block_ok, function_ok, instruction_ok, lemma_run_concat, lemma_run_frame, run,
    terminator_ok, writes_from, BinaryOp, Block, Function, Instruction, Program, Terminator,
};
use crate::mir::{backend_type, backend_type_of, Declaration, FunctionSig, Type};

verus! {

/// A compiler-internal fault: lowering met what the analyzer should have rejected, or what
/// the backend does not support.
#[derive(Debug, PartialEq, Eq)]
pub enum LowerFault {
    /// A node that lowering does not support (string or list literals, a nested function),
    /// at its span.
    Unsupported(Span),
    /// A call to a name with no registered signature.
    UnknownFunction(String),
    /// A reference to, or new value for, a name that lowering has not mapped to a variable.
    UnmappedVariable(String),
    /// Lowering was asked for something that is not a function declaration.
    NotAFunction,
}

/// The names lowering has mapped to variables after `e`, starting from `names`; `None` where
/// lowering `e` faults.
pub open spec fn lowering_scope(
    e: Expr,
    names: Set<Seq<char>>,
    fs: Map<Seq<char>, SigView>,
) -> Option<Set<Seq<char>>>
    decreases e,
{
    match e {
        Expr::Number(_, _) => Some(names),
        Expr::Var(n, _) => if names.contains(n@) {
            Some(names)
        } else {
            None
        },
        Expr::Assign(n, v, _) => match lowering_scope(*v, names, fs) {
            Some(ns) => Some(ns.insert(n@)),
            None => None,
        },
        Expr::Reassign(n, v, _) => match lowering_scope(*v, names, fs) {
            Some(ns) => if ns.contains(n@) {
                Some(ns)
            } else {
                None
            },
            None => None,
        },
        Expr::Call(n, args, _, _) => if fs.contains_key(n@) {
            lowering_scope_all(args@, names, fs)
        } else {
            None
        },
        Expr::While(c, body, _) => match lowering_scope(*c, names, fs) {
            Some(ns) => lowering_scope_all(body@, ns, fs),
            None => None,
        },
        Expr::If(c, body, elifs, els, _) => match lowering_scope(*c, names, fs) {
            Some(n1) => match lowering_scope_all(body@, n1, fs) {
                Some(n2) => {
                    let n3 = match elifs {
                        Some(es) => elif_scope(es@, n2, fs),
                        None => Some(n2),
                    };
                    match n3 {
                        Some(n3) => match els {
                            Some(x) => match *x {
                                Expr::Else(b, _) => lowering_scope_all(b@, n3, fs),
                                _ => None,
                            },
                            None => Some(n3),
                        },
                        None => None,
                    }
                },
                None => None,
            },
            None => None,
        },
        Expr::Equality(l, r) => match lowering_scope(*l, names, fs) {
            Some(ns) => lowering_scope(*r, ns, fs),
            None => None,
        },
        Expr::NotEqual(l, r) => match lowering_scope(*l, names, fs) {
            Some(ns) => lowering_scope(*r, ns, fs),
            None => None,
        },
        Expr::GreaterThan(l, r) => match lowering_scope(*l, names, fs) {
            Some(ns) => lowering_scope(*r, ns, fs),
            None => None,
        },
        Expr::LessThan(l, r) => match lowering_scope(*l, names, fs) {
            Some(ns) => lowering_scope(*r, ns, fs),
            None => None,
        },
        Expr::GreaterThanEqual(l, r) => match lowering_scope(*l, names, fs) {
            Some(ns) => lowering_scope(*r, ns, fs),
            None => None,
        },
        Expr::LessThanEqual(l, r) => match lowering_scope(*l, names, fs) {
            Some(ns) => lowering_scope(*r, ns, fs),
            None => None,
        },
        Expr::Addition(l, r) => match lowering_scope(*l, names, fs) {
            Some(ns) => lowering_scope(*r, ns, fs),
            None => None,
        },
        Expr::Subtraction(l, r) => match lowering_scope(*l, names, fs) {
            Some(ns) => lowering_scope(*r, ns, fs),
            None => None,
        },
        Expr::Multiplication(l, r) => match lowering_scope(*l, names, fs) {
            Some(ns) => lowering_scope(*r, ns, fs),
            None => None,
        },
        Expr::Division(l, r) => match lowering_scope(*l, names, fs) {
            Some(ns) => lowering_scope(*r, ns, fs),
            None => None,
        },
        Expr::Power(l, r) => match lowering_scope(*l, names, fs) {
            Some(ns) => lowering_scope(*r, ns, fs),
            None => None,
        },
        _ => None,
    }
}

/// The names mapped after lowering statements in order.
pub open spec fn lowering_scope_all(
    es: Seq<Expr>,
    names: Set<Seq<char>>,
    fs: Map<Seq<char>, SigView>,
) -> Option<Set<Seq<char>>>
    decreases es,
{
    if es.len() == 0 {
        Some(names)
    } else {
        match lowering_scope_all(es.subrange(0, es.len() - 1), names, fs) {
            Some(ns) => lowering_scope(es[es.len() - 1], ns, fs),
            None => None,
        }
    }
}

/// The names mapped after lowering a chain of `elif` branches; any other node there faults.
pub open spec fn elif_scope(
    es: Seq<Expr>,
    names: Set<Seq<char>>,
    fs: Map<Seq<char>, SigView>,
) -> Option<Set<Seq<char>>>
    decreases es,
{
    if es.len() == 0 {
        Some(names)
    } else {
        match elif_scope(es.subrange(0, es.len() - 1), names, fs) {
            Some(ns) => match es[es.len() - 1] {
                Expr::Elif(c, b, _) => match lowering_scope(*c, ns, fs) {
                    Some(n1) => lowering_scope_all(b@, n1, fs),
                    None => None,
                },
                _ => None,
            },
            None => None,
        }
    }
}

/// A fault in a prefix of a statement sequence is a fault of the whole sequence.
proof fn lemma_scope_all_prefix_fault(es: Seq<Expr>, k: int, names: Set<Seq<char>>, fs: Map<Seq<char>, SigView>)
    requires
        0 <= k <= es.len(),
        lowering_scope_all(es.take(k), names, fs) is None,
    ensures
        lowering_scope_all(es, names, fs) is None,
    decreases es.len(),
{
    if es.len() == k {
        assert(es.take(k) =~= es);
    } else {
        let init = es.subrange(0, es.len() - 1);
        assert(init.take(k) =~= es.take(k));
        lemma_scope_all_prefix_fault(init, k, names, fs);
    }
}

/// A fault in a prefix of an `elif` chain is a fault of the whole chain.
proof fn lemma_elif_prefix_fault(es: Seq<Expr>, k: int, names: Set<Seq<char>>, fs: Map<Seq<char>, SigView>)
    requires
        0 <= k <= es.len(),
        elif_scope(es.take(k), names, fs) is None,
    ensures
        elif_scope(es, names, fs) is None,
    decreases es.len(),
{
    if es.len() == k {
        assert(es.take(k) =~= es);
    } else {
        let init = es.subrange(0, es.len() - 1);
        assert(init.take(k) =~= es.take(k));
        lemma_elif_prefix_fault(init, k, names, fs);
    }
}

/// The names that a function's parameters map on entry.
pub open spec fn parameter_names(params: Seq<(Parameter, Span)>) -> Set<Seq<char>>
    decreases params.len(),
{
    if params.len() == 0 {
        Set::empty()
    } else {
        parameter_names(params.drop_last()).insert(params.last().0.name@)
    }
}

/// Each parameter's name paired with its position; a later parameter of the same name
/// shadows an earlier one.
pub open spec fn parameter_entries(params: Seq<(Parameter, Span)>) -> Seq<(Seq<char>, usize)> {
    Seq::new(params.len(), |k: int| (params[k].0.name@, k as usize))
}

/// The variable that a parameter name refers to on entry to the body: its position.
pub open spec fn parameter_var(params: Seq<(Parameter, Span)>, n: Seq<char>) -> usize {
    table(parameter_entries(params))[n]
}

/// The backend type of the parameter a name refers to.
pub open spec fn parameter_type(params: Seq<(Parameter, Span)>, n: Seq<char>) -> Type {
    backend_type_of(params[parameter_var(params, n) as int].0.typename)
}

/// The function declaration lowers without a fault under the given signatures.
pub open spec fn lowers(e: Expr, fs: Map<Seq<char>, SigView>) -> bool {
    match e {
        Expr::Function(_, params, _, body, _) => lowering_scope_all(
            body@,
            parameter_names(params@),
            fs,
        ) is Some,
        _ => false,
    }
}

pub open spec fn name_entries(names: Seq<(String, usize)>) -> Seq<(Seq<char>, usize)> {
    names.map_values(|p: (String, usize)| (p.0@, p.1))
}

/// The lowering engine: lowers one analyzed function at a time into the IR. It keeps the
/// analyzer's signature table, and while a function is lowered, the map from source names
/// to virtual variables, the variables declared so far, the blocks, the block being filled
/// and its instructions.
pub struct Compilation {
    analysis: Analysis,
    variables: Vec<(String, usize)>,
    declarations: Vec<Declaration>,
    blocks: Vec<Block>,
    current: usize,
    instructions: Vec<Instruction>,
}

impl Compilation {
    /// The signatures that calls are resolved against.
    pub closed spec fn signatures(&self) -> Map<Seq<char>, SigView> {
        self.analysis@.functions
    }

    /// The names mapped to variables.
    pub closed spec fn mapped(&self) -> Set<Seq<char>> {
        table(name_entries(self.variables@)).dom()
    }

    /// The variable that a mapped name refers to.
    pub closed spec fn var_of(&self, name: Seq<char>) -> usize {
        table(name_entries(self.variables@))[name]
    }

    /// The instructions of the block being filled.
    pub closed spec fn pending(&self) -> Seq<Instruction> {
        self.instructions@
    }

    /// The type of a declared variable.
    pub closed spec fn type_of_var(&self, v: usize) -> Type {
        self.declarations@[v as int].type_sig
    }

    /// Distinct mapped names refer to distinct variables.
    pub open spec fn injective(&self) -> bool {
        forall|n1: Seq<char>, n2: Seq<char>|
            #![trigger self.var_of(n1), self.var_of(n2)]
            self.mapped().contains(n1) && self.mapped().contains(n2) && n1 != n2 ==> self.var_of(n1)
                != self.var_of(n2)
    }

    /// Every name mapped now either keeps the variable it had in `before`, or refers to a
    /// variable declared since.
    pub open spec fn maps_fresh(&self, before: &Compilation) -> bool {
        forall|n: Seq<char>|
            #[trigger] self.mapped().contains(n) ==> (before.mapped().contains(n) && self.var_of(n)
                == before.var_of(n)) || self.var_of(n) >= before.declared()
    }

    /// The name map is the same as in `before`.
    pub open spec fn same_names(&self, before: &Compilation) -> bool {
        &&& self.mapped() == before.mapped()
        &&& forall|n: Seq<char>| #[trigger] self.var_of(n) == before.var_of(n)
    }

    /// How many blocks the function being lowered has so far.
    pub closed spec fn block_count(&self) -> nat {
        self.blocks@.len()
    }

    /// Block `b` of the function being lowered.
    pub closed spec fn block(&self, b: int) -> Block {
        self.blocks@[b]
    }

    /// The index of the block being filled.
    pub closed spec fn current_block(&self) -> usize {
        self.current
    }

    /// An `if` lowered since `before` made blocks `t`, `t + 1` and `t + 2` for its first
    /// branch, the rest, and the merge: some block branches on the condition to `t` and
    /// `t + 1`, some block of the first branch jumps to the merge after copying the branch's
    /// value into the result variable, and lowering continues in the merge block.
    pub open spec fn lowered_if(&self, before: &Compilation, t: int, result: Option<usize>) -> bool {
        &&& before.block_count() <= t
        &&& t + 3 <= self.block_count()
        &&& self.current_block() == t + 2
        &&& exists|c: int| 0 <= c < self.block_count() && #[trigger] branches_to(self.block(c).terminator, t, t + 1)
        &&& exists|k: int|
            0 <= k < self.block_count() && #[trigger] self.block(k).terminator == Some(
                Terminator::Jump((t + 2) as usize),
            ) && (result matches Some(x) ==> ends_copying_into(self.block(k), x))
    }

    /// Still filling the same block, with the other blocks as they were.
    pub closed spec fn same_block(&self, before: &Compilation) -> bool {
        self.current == before.current && self.blocks == before.blocks
    }

    /// The instructions appended to the block being filled since `before`.
    pub open spec fn emitted(&self, before: &Compilation) -> Seq<Instruction> {
        self.pending().subrange(before.pending().len() as int, self.pending().len() as int)
    }

    /// Since `before`, straight-line code was appended to the block being filled that writes
    /// only fresh variables and leaves in `v` the value of `e`, whatever the variables held:
    /// each source name stands for the variable it was mapped to. The name map is unchanged.
    pub open spec fn computes(&self, before: &Compilation, e: Expr, v: usize) -> bool {
        &&& self.same_names(before)
        &&& self.same_block(before)
        &&& self.pending().len() >= before.pending().len()
        &&& self.pending().subrange(0, before.pending().len() as int) == before.pending()
        &&& writes_from(self.emitted(before), before.declared())
        &&& forall|st: spec_fn(usize) -> u64|
            #[trigger] run(self.emitted(before), st)(v) == eval(e, |n: Seq<char>| st(before.var_of(n)))
        &&& self.type_of_var(v) == arith_type(e, |n: Seq<char>| before.type_of_var(before.var_of(n)))
    }

    /// The value each source name stands for, given the store: the value of its variable.
    pub open spec fn env(&self, st: spec_fn(usize) -> u64) -> spec_fn(Seq<char>) -> u64 {
        |n: Seq<char>| st(self.var_of(n))
    }

    /// The backend type each source name stands for: the type of its variable.
    pub open spec fn tenv(&self) -> spec_fn(Seq<char>) -> Type {
        |n: Seq<char>| self.type_of_var(self.var_of(n))
    }

    /// Since `before`, straight-line code was appended to the block being filled that, from
    /// any store, leaves the statement's value, of its type, in `v`, and leaves in each mapped
    /// name's variable the value, of the type, that the statement gives the name.
    pub open spec fn runs(&self, before: &Compilation, e: Expr, v: usize) -> bool {
        &&& self.same_block(before)
        &&& self.pending().len() >= before.pending().len()
        &&& self.pending().subrange(0, before.pending().len() as int) == before.pending()
        &&& forall|st: spec_fn(usize) -> u64|
            #[trigger] run(self.emitted(before), st)(v) == stmt_value(e, before.env(st))
        &&& forall|st: spec_fn(usize) -> u64, m: Seq<char>|
            self.mapped().contains(m) ==> #[trigger] run(self.emitted(before), st)(self.var_of(m))
                == stmt_env(e, before.env(st))(m)
        &&& self.type_of_var(v) == stmt_type(e, before.tenv())
        &&& forall|m: Seq<char>|
            self.mapped().contains(m) ==> #[trigger] self.type_of_var(self.var_of(m)) == stmt_tenv(
                e,
                before.tenv(),
            )(m)
    }

    /// Since `before`, straight-line code was appended to the block being filled that, from any
    /// store, leaves in each mapped name's variable the value, of the type, that the statements
    /// give the name.
    pub open spec fn tracks(&self, before: &Compilation, es: Seq<Expr>) -> bool {
        &&& self.same_block(before)
        &&& self.pending().len() >= before.pending().len()
        &&& self.pending().subrange(0, before.pending().len() as int) == before.pending()
        &&& forall|st: spec_fn(usize) -> u64, m: Seq<char>|
            self.mapped().contains(m) ==> #[trigger] run(self.emitted(before), st)(self.var_of(m))
                == env_after(es, before.env(st))(m)
        &&& forall|m: Seq<char>|
            self.mapped().contains(m) ==> #[trigger] self.type_of_var(self.var_of(m)) == tenv_after(
                es,
                before.tenv(),
            )(m)
    }

    /// As `tracks`, and `v` holds the last statement's value, of its type.
    pub open spec fn runs_all(&self, before: &Compilation, es: Seq<Expr>, v: usize) -> bool {
        &&& es.len() > 0
        &&& self.tracks(before, es)
        &&& forall|st: spec_fn(usize) -> u64|
            #[trigger] run(self.emitted(before), st)(v) == stmt_value(
                es.last(),
                env_after(es.drop_last(), before.env(st)),
            )
        &&& self.type_of_var(v) == stmt_type(es.last(), tenv_after(es.drop_last(), before.tenv()))
    }

    proof fn lemma_tracks_start(&self)
        ensures
            self.tracks(self, Seq::empty()),
    {
        assert(self.emitted(self) =~= Seq::<Instruction>::empty());
        assert(self.pending().subrange(0, self.pending().len() as int) =~= self.pending());
    }

    /// One more straight-line statement keeps the tracking.
    proof fn lemma_runs_compose(
        &self,
        p: &Compilation,
        before: &Compilation,
        es: Seq<Expr>,
        e: Expr,
        v: usize,
    )
        requires
            p.inv(),
            straight(e),
            p.tracks(before, es),
            self.runs(p, e, v),
            lowering_scope(e, p.mapped(), p.signatures()) == Some(self.mapped()),
        ensures
            self.runs_all(before, es.push(e), v),
    {
        let ce = p.emitted(before);
        let c = self.emitted(p);
        assert(self.pending() =~= before.pending() + ce + c);
        assert(self.emitted(before) =~= ce + c);
        assert(self.pending().subrange(0, before.pending().len() as int) =~= before.pending());
        assert(es.push(e).drop_last() =~= es);
        assert(es.push(e).last() == e);
        let names = p.mapped();
        let fs = p.signatures();
        assert forall|st: spec_fn(usize) -> u64| #![trigger run(self.emitted(before), st)]
            (forall|m: Seq<char>|
                self.mapped().contains(m) ==> #[trigger] run(self.emitted(before), st)(self.var_of(m))
                    == env_after(es.push(e), before.env(st))(m)) && run(self.emitted(before), st)(v)
                == stmt_value(e, env_after(es, before.env(st))) by {
            lemma_run_concat(ce, c, st);
            let stp = run(ce, st);
            let env1 = p.env(stp);
            let env2 = env_after(es, before.env(st));
            assert forall|n: Seq<char>| names.contains(n) implies env1(n) == env2(n) by {
                assert(run(ce, st)(p.var_of(n)) == env_after(es, before.env(st))(n));
            }
            lemma_stmt_agree(e, names, fs, env1, env2, p.tenv(), p.tenv());
            assert forall|m: Seq<char>| self.mapped().contains(m) implies #[trigger] run(self.emitted(before), st)(
                self.var_of(m),
            ) == env_after(es.push(e), before.env(st))(m) by {
                assert(run(c, stp)(self.var_of(m)) == stmt_env(e, env1)(m));
                assert(lowering_scope(e, names, fs).unwrap().contains(m));
                assert(stmt_env(e, env1)(m) == stmt_env(e, env2)(m));
                assert(env_after(es.push(e), before.env(st)) == stmt_env(
                    es.push(e).last(),
                    env_after(es.push(e).drop_last(), before.env(st)),
                ));
            }
        }
        assert forall|n: Seq<char>| names.contains(n) implies p.tenv()(n) == tenv_after(es, before.tenv())(n) by {
            assert(p.type_of_var(p.var_of(n)) == tenv_after(es, before.tenv())(n));
        }
        lemma_stmt_agree(
            e,
            names,
            fs,
            |n: Seq<char>| 0u64,
            |n: Seq<char>| 0u64,
            p.tenv(),
            tenv_after(es, before.tenv()),
        );
        assert(tenv_after(es.push(e), before.tenv()) == stmt_tenv(
            es.push(e).last(),
            tenv_after(es.push(e).drop_last(), before.tenv()),
        ));
        assert forall|m: Seq<char>| self.mapped().contains(m) implies #[trigger] self.type_of_var(self.var_of(m))
            == tenv_after(es.push(e), before.tenv())(m) by {
            assert(lowering_scope(e, names, fs).unwrap().contains(m));
        }
    }

    proof fn lemma_runs_arith(&self, before: &Compilation, e: Expr, v: usize)
        requires
            before.inv(),
            self.follows(before),
            arith(e),
            self.computes(before, e, v),
        ensures
            self.runs(before, e, v),
    {
        assert forall|st: spec_fn(usize) -> u64, m: Seq<char>|
            self.mapped().contains(m) implies #[trigger] run(self.emitted(before), st)(self.var_of(m))
                == stmt_env(e, before.env(st))(m) by {
            assert(before.mapped().contains(m));
            lemma_run_frame(self.emitted(before), st, before.declared(), before.var_of(m));
        }
        assert forall|m: Seq<char>|
            self.mapped().contains(m) implies #[trigger] self.type_of_var(self.var_of(m)) == stmt_tenv(
                e,
                before.tenv(),
            )(m) by {
            assert(before.mapped().contains(m));
            assert(self.declarations@[before.var_of(m) as int] == before.declarations@[before.var_of(m) as int]);
        }
        assert(stmt_type(e, before.tenv()) == arith_type(e, |n: Seq<char>| before.type_of_var(before.var_of(n))));
        assert(forall|st: spec_fn(usize) -> u64| #[trigger] before.env(st) == (|n: Seq<char>| st(before.var_of(n))));
    }

    /// Since `before`, the integer expression `value` was stored under `name` in variable `v`:
    /// the appended code leaves the value in `v`, writes only `v` and fresh variables, and
    /// `v` is the variable `name` already had when that has the value's type, with the name
    /// map unchanged; otherwise it is a fresh variable.
    pub open spec fn stores(&self, before: &Compilation, value: Expr, name: Seq<char>, v: usize) -> bool {
        arith(value) ==> {
            let tenv = |n: Seq<char>| before.type_of_var(before.var_of(n));
            let reuse = before.mapped().contains(name) && arith_type(value, tenv) == before.type_of_var(
                before.var_of(name),
            );
            &&& self.same_block(before)
            &&& self.pending().len() >= before.pending().len()
            &&& self.pending().subrange(0, before.pending().len() as int) == before.pending()
            &&& forall|st: spec_fn(usize) -> u64|
                #[trigger] run(self.emitted(before), st)(v) == eval(value, |n: Seq<char>| st(before.var_of(n)))
            &&& reuse ==> v == before.var_of(name) && self.same_names(before)
            &&& !reuse ==> v >= before.declared()
        }
    }

    /// An assignment of an integer expression, lowered from `s0`, runs as the statement.
    proof fn lemma_runs_assign(
        &self,
        s0: &Compilation,
        s1: &Compilation,
        e: Expr,
        value: Expr,
        name: Seq<char>,
        v: Option<usize>,
        d: usize,
    )
        requires
            s0.inv(),
            s1.follows(s0),
            arith(value),
            (e matches Expr::Assign(n, x, _) && n@ == name && *x == value) || (e matches Expr::Reassign(
                n,
                x,
                _,
            ) && n@ == name && *x == value),
            v matches Some(x) && s1.computes(s0, value, x),
            self.follows(s1),
            self.same_block(s1),
            self.mapped() == s1.mapped().insert(name),
            self.var_of(name) == d,
            forall|n: Seq<char>| n != name ==> #[trigger] self.var_of(n) == s1.var_of(n),
            self.pending() == s1.pending().push(Instruction::Copy(d, v.unwrap())),
            ({
                let x = v.unwrap();
                let reuse = s1.mapped().contains(name) && s1.type_of_var(x) == s1.type_of_var(s1.var_of(name));
                &&& reuse ==> d == s1.var_of(name) && self.same_names(s1) && self.declared() == s1.declared()
                &&& !reuse ==> d == s1.declared() && self.type_of_var(d) == s1.type_of_var(x)
            }),
        ensures
            self.runs(s0, e, d),
    {
        let x = v.unwrap();
        let c = s1.emitted(s0);
        let cp = Instruction::Copy(d, x);
        assert(s1.same_names(s0));
        assert(self.pending() =~= s0.pending() + c.push(cp));
        assert(self.emitted(s0) =~= c.push(cp));
        assert(self.pending().subrange(0, s0.pending().len() as int) =~= s0.pending());
        let reuse = s1.mapped().contains(name) && s1.type_of_var(x) == s1.type_of_var(s1.var_of(name));
        if s0.mapped().contains(name) {
            assert(s1.var_of(name) == s0.var_of(name));
        }
        assert forall|st: spec_fn(usize) -> u64|
            #[trigger] run(self.emitted(s0), st)(d) == stmt_value(e, s0.env(st)) by {
            assert(c.push(cp).drop_last() == c);
            assert(run(c.push(cp), st) == crate::lir::step(cp, run(c, st)));
            assert(run(c, st)(x) == eval(value, |n: Seq<char>| st(s0.var_of(n))));
            assert(s0.env(st) == (|n: Seq<char>| st(s0.var_of(n))));
        }
        assert forall|st: spec_fn(usize) -> u64, m: Seq<char>|
            self.mapped().contains(m) implies #[trigger] run(self.emitted(s0), st)(self.var_of(m))
                == stmt_env(e, s0.env(st))(m) by {
            assert(c.push(cp).drop_last() == c);
            assert(run(c.push(cp), st) == crate::lir::step(cp, run(c, st)));
            assert(s0.env(st) == (|n: Seq<char>| st(s0.var_of(n))));
            if m == name {
                assert(run(c, st)(x) == eval(value, |n: Seq<char>| st(s0.var_of(n))));
            } else {
                assert(s1.mapped().contains(m));
                assert(s0.mapped().contains(m));
                assert(self.var_of(m) == s0.var_of(m));
                assert(s0.var_of(m) < s0.declared());
                if reuse {
                    assert(s0.mapped().contains(name));
                    assert(s0.var_of(m) != s0.var_of(name));
                }
                assert(d != s0.var_of(m));
                lemma_run_frame(c, st, s0.declared(), s0.var_of(m));
            }
        }
        assert(s1.type_of_var(x) == arith_type(value, |n: Seq<char>| s0.type_of_var(s0.var_of(n))));
        assert(s0.tenv() == (|n: Seq<char>| s0.type_of_var(s0.var_of(n))));
        if reuse {
            assert(self.type_of_var(d) == s1.type_of_var(s1.var_of(name)));
        }
        assert(self.type_of_var(d) == stmt_type(e, s0.tenv()));
        assert forall|m: Seq<char>|
            self.mapped().contains(m) implies #[trigger] self.type_of_var(self.var_of(m)) == stmt_tenv(
                e,
                s0.tenv(),
            )(m) by {
            if m != name {
                assert(s0.mapped().contains(m));
                assert(self.var_of(m) == s0.var_of(m));
                assert(s0.var_of(m) < s0.declared());
                assert(self.declarations@[s0.var_of(m) as int] == s0.declarations@[s0.var_of(m) as int]);
            }
        }
    }

    /// The effect of lowering an assignment's value and binding it, as `stores` states it.
    proof fn lemma_bound_value(
        &self,
        s0: &Compilation,
        s1: &Compilation,
        value: Expr,
        name: Seq<char>,
        v: Option<usize>,
        d: usize,
    )
        requires
            s0.inv(),
            s1.follows(s0),
            arith(value) ==> (v matches Some(x) && s1.computes(s0, value, x)),
            self.follows(s1),
            self.same_block(s1),
            v matches Some(x) ==> x < s1.declared(),
            self.var_of(name) == d,
            self.pending() == match v {
                Some(x) => s1.pending().push(Instruction::Copy(d, x)),
                None => s1.pending(),
            },
            ({
                let reuse = s1.mapped().contains(name) && match v {
                    Some(x) => s1.type_of_var(x) == s1.type_of_var(s1.var_of(name)),
                    None => true,
                };
                &&& reuse ==> d == s1.var_of(name) && self.same_names(s1) && self.declared() == s1.declared()
                &&& !reuse ==> d == s1.declared()
            }),
        ensures
            self.stores(s0, value, name, d),
    {
        if arith(value) {
            let x = v.unwrap();
            let c = s1.emitted(s0);
            let cp = Instruction::Copy(d, x);
            assert(s1.same_names(s0));
            assert(self.pending() =~= s0.pending() + c.push(cp));
            assert(self.emitted(s0) =~= c.push(cp));
            assert(self.pending().subrange(0, s0.pending().len() as int) =~= s0.pending());
            let tenv = |n: Seq<char>| s0.type_of_var(s0.var_of(n));
            if s0.mapped().contains(name) {
                assert(s1.var_of(name) == s0.var_of(name));
                assert(s0.var_of(name) < s0.declared());
                assert(s1.declarations@[s0.var_of(name) as int] == s0.declarations@[s0.var_of(name) as int]);
            }
            assert forall|st: spec_fn(usize) -> u64|
                #[trigger] run(self.emitted(s0), st)(d) == eval(value, |n: Seq<char>| st(s0.var_of(n))) by {
                assert(c.push(cp).drop_last() == c);
                assert(run(c.push(cp), st) == crate::lir::step(cp, run(c, st)));
            }
        }
    }

    /// How many variables have been declared.
    pub closed spec fn declared(&self) -> nat {
        self.declarations@.len()
    }

    /// The IR built so far is well formed.
    pub closed spec fn inv(&self) -> bool {
        &&& self.current < self.blocks@.len()
        &&& forall|b: int|
            0 <= b < self.blocks@.len() ==> block_ok(
                #[trigger] self.blocks@[b],
                self.declarations@.len(),
                self.blocks@.len(),
            )
        &&& forall|j: int|
            0 <= j < self.instructions@.len() ==> instruction_ok(
                #[trigger] self.instructions@[j],
                self.declarations@.len(),
            )
        &&& forall|j: int|
            0 <= j < self.variables@.len() ==> #[trigger] self.variables@[j].1 < self.declarations@.len()
        &&& forall|n: Seq<char>| #[trigger] self.mapped().contains(n) ==> self.var_of(n) < self.declared()
        &&& self.injective()
    }

    /// Two states with the same name entries map names alike.
    proof fn lemma_same_entries(a: &Compilation, b: &Compilation)
        requires
            a.variables@ == b.variables@,
        ensures
            a.same_names(b),
    {
    }

    pub fn new(analyzer: Analysis) -> (r: Self)
        requires
            analyzer@.diagnostics.len() == 0,
        ensures
            r.signatures() == analyzer@.functions,
            r.inv(),
            r.mapped() == Set::<Seq<char>>::empty(),
            r.declared() == 0,
            r.pending().len() == 0,
    {
        let mut blocks: Vec<Block> = Vec::new();
        blocks.push(Block { instructions: Vec::new(), terminator: None });
        let r = Self {
            analysis: analyzer,
            variables: Vec::new(),
            declarations: Vec::new(),
            blocks,
            current: 0,
            instructions: Vec::new(),
        };
        assert(name_entries(r.variables@) =~= Seq::empty());
        assert(table(name_entries(r.variables@)).dom() =~= Set::<Seq<char>>::empty());
        r
    }

    /// Declares a fresh variable.
    fn fresh(&mut self, ident: String, ty: Type) -> (v: usize)
        requires
            old(self).inv(),
        ensures
            final(self).inv(),
            v == old(self).declared(),
            final(self).declared() == old(self).declared() + 1,
            final(self).declarations@[v as int].type_sig == ty,
            final(self).declarations@[v as int].ident == ident,
            forall|i: int| 0 <= i < v ==> final(self).declarations@[i] == old(self).declarations@[i],
            final(self).signatures() == old(self).signatures(),
            final(self).mapped() == old(self).mapped(),
            final(self).variables == old(self).variables,
            final(self).blocks == old(self).blocks,
            final(self).instructions == old(self).instructions,
            final(self).current == old(self).current,
    {
        let v = self.declarations.len();
        self.declarations.push(Declaration { ident, type_sig: ty });
        proof {
            Self::lemma_same_entries(self, old(self));
        }
        v
    }

    /// Appends an instruction to the block being filled.
    fn emit(&mut self, i: Instruction)
        requires
            old(self).inv(),
            instruction_ok(i, old(self).declared()),
        ensures
            final(self).inv(),
            final(self).instructions@ == old(self).instructions@.push(i),
            final(self).declarations == old(self).declarations,
            final(self).signatures() == old(self).signatures(),
            final(self).mapped() == old(self).mapped(),
            final(self).variables == old(self).variables,
            final(self).blocks == old(self).blocks,
            final(self).current == old(self).current,
    {
        self.instructions.push(i);
        proof {
            Self::lemma_same_entries(self, old(self));
        }
    }

    /// Creates an empty block and returns its index.
    fn new_block(&mut self) -> (b: usize)
        requires
            old(self).inv(),
        ensures
            final(self).inv(),
            b == old(self).blocks@.len(),
            b > 0,
            final(self).blocks@.len() == b + 1,
            forall|i: int| 0 <= i < b ==> final(self).blocks@[i] == old(self).blocks@[i],
            final(self).declarations == old(self).declarations,
            final(self).signatures() == old(self).signatures(),
            final(self).mapped() == old(self).mapped(),
            final(self).variables == old(self).variables,
            final(self).instructions == old(self).instructions,
            final(self).current == old(self).current,
    {
        let b = self.blocks.len();
        self.blocks.push(Block { instructions: Vec::new(), terminator: None });
        proof {
            Self::lemma_same_entries(self, old(self));
        }
        b
    }

    /// Ends the block being filled with `t` and continues in block `next`.
    fn finish(&mut self, t: Terminator, next: usize)
        requires
            old(self).inv(),
            terminator_ok(t, old(self).declared(), old(self).blocks@.len()),
            next < old(self).blocks@.len(),
        ensures
            final(self).inv(),
            final(self).current == next,
            final(self).instructions@.len() == 0,
            final(self).blocks@.len() == old(self).blocks@.len(),
            final(self).blocks@[old(self).current as int].terminator == Some(t),
            final(self).blocks@[old(self).current as int].instructions@ == old(self).instructions@,
            forall|b: int|
                0 <= b < final(self).blocks@.len() && b != old(self).current ==> final(self).blocks@[b]
                    == old(self).blocks@[b],
            final(self).declarations == old(self).declarations,
            final(self).signatures() == old(self).signatures(),
            final(self).mapped() == old(self).mapped(),
            final(self).variables == old(self).variables,
    {
        let mut done: Vec<Instruction> = Vec::new();
        std::mem::swap(&mut done, &mut self.instructions);
        let cur = self.current;
        self.blocks.set(cur, Block { instructions: done, terminator: Some(t) });
        proof {
            Self::lemma_same_entries(self, old(self));
        }
        self.current = next;
    }

    /// The variable that `name` is mapped to, if any.
    fn lookup(&self, name: &String) -> (r: Option<usize>)
        requires
            self.inv(),
        ensures
            r is Some == self.mapped().contains(name@),
            r matches Some(v) ==> v < self.declared() && v == self.var_of(name@),
    {
        let ghost entries = name_entries(self.variables@);
        let mut i: usize = self.variables.len();
        while i > 0
            invariant
                self.inv(),
                i <= self.variables.len(),
                entries == name_entries(self.variables@),
                forall|j: int| i <= j < entries.len() ==> entries[j].0 != name@,
            decreases i,
        {
            if self.variables[i - 1].0 == *name {
                proof {
                    crate::analysis::lemma_table_hit(entries, i - 1, name@);
                }
                assert(self.variables@[i - 1].1 < self.declarations@.len());
                return Some(self.variables[i - 1].1);
            }
            i = i - 1;
        }
        proof {
            crate::analysis::lemma_table_suffix(entries, 0, name@);
        }
        None
    }

    /// Maps `name` to variable `v`.
    fn map_name(&mut self, name: &String, v: usize)
        requires
            old(self).inv(),
            v < old(self).declared(),
            forall|n: Seq<char>|
                old(self).mapped().contains(n) && n != name@ ==> #[trigger] old(self).var_of(n) != v,
        ensures
            final(self).inv(),
            final(self).mapped() == old(self).mapped().insert(name@),
            final(self).var_of(name@) == v,
            final(self).variables@ == old(self).variables@.push((*name, v)),
            forall|n: Seq<char>| n != name@ ==> #[trigger] final(self).var_of(n) == old(self).var_of(n),
            final(self).declarations == old(self).declarations,
            final(self).signatures() == old(self).signatures(),
            final(self).blocks == old(self).blocks,
            final(self).instructions == old(self).instructions,
            final(self).current == old(self).current,
    {
        let ghost before = self.variables@;
        self.variables.push((name.clone(), v));
        assert(name_entries(self.variables@).drop_last() =~= name_entries(before));
        assert(table(name_entries(self.variables@)).dom() =~= table(name_entries(before)).dom().insert(
            name@,
        ));
        assert(table(name_entries(self.variables@)) == table(name_entries(before)).insert(name@, v));
        assert forall|n: Seq<char>| n != name@ implies #[trigger] self.var_of(n) == old(self).var_of(n) by {}
        assert forall|n: Seq<char>| #[trigger] self.mapped().contains(n) implies self.var_of(n) < self.declared() by {
            if n != name@ {
                assert(old(self).mapped().contains(n));
            }
        }
        assert forall|n1: Seq<char>, n2: Seq<char>|
            self.mapped().contains(n1) && self.mapped().contains(n2) && n1 != n2 implies #[trigger] self.var_of(n1)
                != #[trigger] self.var_of(n2) by {
            if n1 != name@ && n2 != name@ {
                assert(old(self).var_of(n1) != old(self).var_of(n2));
            } else if n1 == name@ {
                assert(old(self).mapped().contains(n2));
            } else {
                assert(old(self).mapped().contains(n1));
            }
        }
    }
}

/// The IR operation of a binary operator node.
pub open spec fn operator_of(e: Expr) -> BinaryOp {
    match e {
        Expr::Equality(_, _) => BinaryOp::Eq,
        Expr::NotEqual(_, _) => BinaryOp::Ne,
        Expr::GreaterThan(_, _) => BinaryOp::Gt,
        Expr::LessThan(_, _) => BinaryOp::Lt,
        Expr::GreaterThanEqual(_, _) => BinaryOp::Ge,
        Expr::LessThanEqual(_, _) => BinaryOp::Le,
        Expr::Addition(_, _) => BinaryOp::Add,
        Expr::Subtraction(_, _) => BinaryOp::Sub,
        Expr::Multiplication(_, _) => BinaryOp::Mul,
        Expr::Division(_, _) => BinaryOp::Div,
        _ => BinaryOp::Pow,
    }
}

/// Every argument is an integer expression.
pub open spec fn all_arith(es: Seq<Expr>) -> bool {
    forall|k: int| 0 <= k < es.len() ==> arith(#[trigger] es[k])
}

/// The lowered function carries the declaration's name, and its signature is the
/// declaration's, type by type.
pub open spec fn lowered_signature(f: Function, e: Expr) -> bool {
    match e {
        Expr::Function(name, params, ret, _, _) => {
            &&& f.signature.name@ == name@
            &&& f.signature.args@.len() == params@.len()
            &&& forall|i: int|
                0 <= i < params@.len() ==> #[trigger] f.signature.args@[i] == backend_type_of(params@[i].0.typename)
            &&& f.signature.return_type == backend_type_of(ret)
        },
        _ => false,
    }
}

/// The block's last instruction copies a value into variable `x`.
pub open spec fn ends_copying_into(b: Block, x: usize) -> bool {
    &&& b.instructions@.len() > 0
    &&& b.instructions@.last() matches Instruction::Copy(d, _)
    &&& d == x
}

/// A straight-line statement: an integer expression, or an assignment of one.
pub open spec fn straight(e: Expr) -> bool {
    ||| arith(e)
    ||| (e matches Expr::Assign(_, v, _) && arith(*v))
    ||| (e matches Expr::Reassign(_, v, _) && arith(*v))
}

/// Every statement is straight-line.
pub open spec fn all_straight(es: Seq<Expr>) -> bool {
    forall|k: int| 0 <= k < es.len() ==> straight(#[trigger] es[k])
}

/// The value of a straight-line statement: of the expression, or of the assigned value.
pub open spec fn stmt_value(e: Expr, env: spec_fn(Seq<char>) -> u64) -> u64 {
    match e {
        Expr::Assign(_, v, _) => eval(*v, env),
        Expr::Reassign(_, v, _) => eval(*v, env),
        _ => eval(e, env),
    }
}

/// The values of the variables after a straight-line statement.
pub open spec fn stmt_env(e: Expr, env: spec_fn(Seq<char>) -> u64) -> spec_fn(Seq<char>) -> u64 {
    match e {
        Expr::Assign(n, v, _) => |m: Seq<char>| if m == n@ { eval(*v, env) } else { env(m) },
        Expr::Reassign(n, v, _) => |m: Seq<char>| if m == n@ { eval(*v, env) } else { env(m) },
        _ => env,
    }
}

/// The backend type of a straight-line statement's value.
pub open spec fn stmt_type(e: Expr, tenv: spec_fn(Seq<char>) -> Type) -> Type {
    match e {
        Expr::Assign(_, v, _) => arith_type(*v, tenv),
        Expr::Reassign(_, v, _) => arith_type(*v, tenv),
        _ => arith_type(e, tenv),
    }
}

/// The backend types of the variables after a straight-line statement.
pub open spec fn stmt_tenv(e: Expr, tenv: spec_fn(Seq<char>) -> Type) -> spec_fn(Seq<char>) -> Type {
    match e {
        Expr::Assign(n, v, _) => |m: Seq<char>| if m == n@ { arith_type(*v, tenv) } else { tenv(m) },
        Expr::Reassign(n, v, _) => |m: Seq<char>| if m == n@ { arith_type(*v, tenv) } else { tenv(m) },
        _ => tenv,
    }
}

/// The values of the variables after straight-line statements, in order.
pub open spec fn env_after(es: Seq<Expr>, env: spec_fn(Seq<char>) -> u64) -> spec_fn(Seq<char>) -> u64
    decreases es.len(),
{
    if es.len() == 0 {
        env
    } else {
        stmt_env(es.last(), env_after(es.drop_last(), env))
    }
}

/// The backend types of the variables after straight-line statements, in order.
pub open spec fn tenv_after(es: Seq<Expr>, tenv: spec_fn(Seq<char>) -> Type) -> spec_fn(Seq<char>) -> Type
    decreases es.len(),
{
    if es.len() == 0 {
        tenv
    } else {
        stmt_tenv(es.last(), tenv_after(es.drop_last(), tenv))
    }
}

/// A straight-line statement that lowers reads only mapped names: environments that agree on
/// them give it the same value and type, and agree afterwards on the names then mapped.
proof fn lemma_stmt_agree(
    e: Expr,
    names: Set<Seq<char>>,
    fs: Map<Seq<char>, SigView>,
    env1: spec_fn(Seq<char>) -> u64,
    env2: spec_fn(Seq<char>) -> u64,
    tenv1: spec_fn(Seq<char>) -> Type,
    tenv2: spec_fn(Seq<char>) -> Type,
)
    requires
        straight(e),
        lowering_scope(e, names, fs) is Some,
        forall|n: Seq<char>| names.contains(n) ==> env1(n) == env2(n),
        forall|n: Seq<char>| names.contains(n) ==> tenv1(n) == tenv2(n),
    ensures
        stmt_value(e, env1) == stmt_value(e, env2),
        stmt_type(e, tenv1) == stmt_type(e, tenv2),
        forall|n: Seq<char>|
            #[trigger] lowering_scope(e, names, fs).unwrap().contains(n) ==> stmt_env(e, env1)(n) == stmt_env(
                e,
                env2,
            )(n) && stmt_tenv(e, tenv1)(n) == stmt_tenv(e, tenv2)(n),
{
    match e {
        Expr::Assign(n, v, _) => {
            lemma_arith_scope(*v, names, fs, env1, env2, tenv1, tenv2);
        },
        Expr::Reassign(n, v, _) => {
            lemma_arith_scope(*v, names, fs, env1, env2, tenv1, tenv2);
        },
        _ => {
            lemma_arith_scope(e, names, fs, env1, env2, tenv1, tenv2);
        },
    }
}

/// Straight-line statements that lower read only mapped names: environments that agree on
/// them agree on the names mapped afterwards, and give the last statement the same value.
proof fn lemma_fold_agree(
    es: Seq<Expr>,
    names: Set<Seq<char>>,
    fs: Map<Seq<char>, SigView>,
    env1: spec_fn(Seq<char>) -> u64,
    env2: spec_fn(Seq<char>) -> u64,
    tenv1: spec_fn(Seq<char>) -> Type,
    tenv2: spec_fn(Seq<char>) -> Type,
)
    requires
        all_straight(es),
        lowering_scope_all(es, names, fs) is Some,
        forall|n: Seq<char>| names.contains(n) ==> env1(n) == env2(n),
        forall|n: Seq<char>| names.contains(n) ==> tenv1(n) == tenv2(n),
    ensures
        forall|n: Seq<char>|
            #[trigger] lowering_scope_all(es, names, fs).unwrap().contains(n) ==> env_after(es, env1)(n)
                == env_after(es, env2)(n) && tenv_after(es, tenv1)(n) == tenv_after(es, tenv2)(n),
        es.len() > 0 ==> stmt_value(es.last(), env_after(es.drop_last(), env1)) == stmt_value(
            es.last(),
            env_after(es.drop_last(), env2),
        ),
        es.len() > 0 ==> stmt_type(es.last(), tenv_after(es.drop_last(), tenv1)) == stmt_type(
            es.last(),
            tenv_after(es.drop_last(), tenv2),
        ),
    decreases es.len(),
{
    if es.len() > 0 {
        let init = es.drop_last();
        assert(init == es.subrange(0, es.len() - 1));
        assert forall|k: int| 0 <= k < init.len() implies straight(#[trigger] init[k]) by {
            assert(init[k] == es[k]);
        }
        assert(straight(es[es.len() - 1]));
        lemma_fold_agree(init, names, fs, env1, env2, tenv1, tenv2);
        let mid = lowering_scope_all(init, names, fs).unwrap();
        lemma_stmt_agree(
            es.last(),
            mid,
            fs,
            env_after(init, env1),
            env_after(init, env2),
            tenv_after(init, tenv1),
            tenv_after(init, tenv2),
        );
    }
}

/// The block ends with a conditional branch to blocks `x` and `y`.
pub open spec fn branches_to(t: Option<Terminator>, x: int, y: int) -> bool {
    t matches Some(Terminator::Branch(_, a, b)) && a == x && b == y
}

/// Integer expressions: literals, variables, and `+`, `-`, `*` of integer expressions.
pub open spec fn arith(e: Expr) -> bool
    decreases e,
{
    match e {
        Expr::Number(_, _) => true,
        Expr::Var(_, _) => true,
        Expr::Addition(l, r) => arith(*l) && arith(*r),
        Expr::Subtraction(l, r) => arith(*l) && arith(*r),
        Expr::Multiplication(l, r) => arith(*l) && arith(*r),
        _ => false,
    }
}

/// The value of an integer expression, given the value of each variable, on 64-bit
/// integers that wrap.
pub open spec fn eval(e: Expr, env: spec_fn(Seq<char>) -> u64) -> u64
    decreases e,
{
    match e {
        Expr::Number(k, _) => k,
        Expr::Var(n, _) => env(n@),
        Expr::Addition(l, r) => arith_result(BinaryOp::Add, eval(*l, env), eval(*r, env)),
        Expr::Subtraction(l, r) => arith_result(BinaryOp::Sub, eval(*l, env), eval(*r, env)),
        Expr::Multiplication(l, r) => arith_result(BinaryOp::Mul, eval(*l, env), eval(*r, env)),
        _ => 0,
    }
}

/// The backend type of an integer expression's result, given the type of each variable: a
/// literal is a 64-bit integer, an operator has the type of its left operand.
pub open spec fn arith_type(e: Expr, tenv: spec_fn(Seq<char>) -> Type) -> Type
    decreases e,
{
    match e {
        Expr::Var(n, _) => tenv(n@),
        Expr::Addition(l, _) => arith_type(*l, tenv),
        Expr::Subtraction(l, _) => arith_type(*l, tenv),
        Expr::Multiplication(l, _) => arith_type(*l, tenv),
        _ => Type::Scalar(crate::mir::ScalarType::Int),
    }
}

/// An integer expression that lowers maps no new name, and its value and type depend only
/// on the mapped names.
proof fn lemma_arith_scope(
    e: Expr,
    names: Set<Seq<char>>,
    fs: Map<Seq<char>, SigView>,
    env1: spec_fn(Seq<char>) -> u64,
    env2: spec_fn(Seq<char>) -> u64,
    tenv1: spec_fn(Seq<char>) -> Type,
    tenv2: spec_fn(Seq<char>) -> Type,
)
    requires
        arith(e),
        lowering_scope(e, names, fs) is Some,
        forall|n: Seq<char>| names.contains(n) ==> env1(n) == env2(n),
        forall|n: Seq<char>| names.contains(n) ==> tenv1(n) == tenv2(n),
    ensures
        lowering_scope(e, names, fs) == Some(names),
        eval(e, env1) == eval(e, env2),
        arith_type(e, tenv1) == arith_type(e, tenv2),
    decreases e,
{
    match e {
        Expr::Addition(l, r) => {
            lemma_arith_scope(*l, names, fs, env1, env2, tenv1, tenv2);
            lemma_arith_scope(*r, names, fs, env1, env2, tenv1, tenv2);
        },
        Expr::Subtraction(l, r) => {
            lemma_arith_scope(*l, names, fs, env1, env2, tenv1, tenv2);
            lemma_arith_scope(*r, names, fs, env1, env2, tenv1, tenv2);
        },
        Expr::Multiplication(l, r) => {
            lemma_arith_scope(*l, names, fs, env1, env2, tenv1, tenv2);
            lemma_arith_scope(*r, names, fs, env1, env2, tenv1, tenv2);
        },
        _ => {},
    }
}

/// The operator and operands of a binary node.
fn binary_parts(e: &Expr) -> (r: Option<(BinaryOp, &Expr, &Expr)>)
    ensures
        match r {
            Some((op, l, rr)) => {
                &&& op == operator_of(*e)
                &&& operands(*e) == Some((*l, *rr))
                &&& decreases_to!(*e => *l)
                &&& decreases_to!(*e => *rr)
            },
            None => operands(*e) is None,
        },
{
    match e {
        Expr::Equality(l, r) => Some((BinaryOp::Eq, &**l, &**r)),
        Expr::NotEqual(l, r) => Some((BinaryOp::Ne, &**l, &**r)),
        Expr::GreaterThan(l, r) => Some((BinaryOp::Gt, &**l, &**r)),
        Expr::LessThan(l, r) => Some((BinaryOp::Lt, &**l, &**r)),
        Expr::GreaterThanEqual(l, r) => Some((BinaryOp::Ge, &**l, &**r)),
        Expr::LessThanEqual(l, r) => Some((BinaryOp::Le, &**l, &**r)),
        Expr::Addition(l, r) => Some((BinaryOp::Add, &**l, &**r)),
        Expr::Subtraction(l, r) => Some((BinaryOp::Sub, &**l, &**r)),
        Expr::Multiplication(l, r) => Some((BinaryOp::Mul, &**l, &**r)),
        Expr::Division(l, r) => Some((BinaryOp::Div, &**l, &**r)),
        Expr::Power(l, r) => Some((BinaryOp::Pow, &**l, &**r)),
        _ => None,
    }
}

/// Lowering a binary operator lowers its left operand, then its right one.
proof fn lemma_binary_scope(e: Expr, names: Set<Seq<char>>, fs: Map<Seq<char>, SigView>)
    requires
        operands(e) is Some,
    ensures
        lowering_scope(e, names, fs) == match lowering_scope(operands(e).unwrap().0, names, fs) {
            Some(ns) => lowering_scope(operands(e).unwrap().1, ns, fs),
            None => None,
        },
{
}

/// Whether an operator compares its operands.
fn is_comparison_op(op: BinaryOp) -> (r: bool)
    ensures
        r == !(op == BinaryOp::Add || op == BinaryOp::Sub || op == BinaryOp::Mul || op == BinaryOp::Div
            || op == BinaryOp::Pow),
{
    match op {
        BinaryOp::Add | BinaryOp::Sub | BinaryOp::Mul | BinaryOp::Div | BinaryOp::Pow => false,
        _ => true,
    }
}

impl Compilation {
    /// What lowering keeps: the IR stays well formed, the signatures stay, blocks and
    /// variables only grow, and once the entry block is left it is never touched again.
    pub closed spec fn follows(&self, before: &Compilation) -> bool {
        &&& self.inv()
        &&& self.signatures() == before.signatures()
        &&& self.blocks@.len() >= before.blocks@.len()
        &&& self.declared() >= before.declared()
        &&& forall|i: int|
            0 <= i < before.declared() ==> #[trigger] self.declarations@[i] == before.declarations@[i]
        &&& (before.current != 0 ==> self.current != 0 && self.blocks@[0] == before.blocks@[0])
        &&& self.maps_fresh(before)
        &&& self.current == before.current || self.current >= before.blocks@.len()
        &&& forall|b: int|
            0 <= b < before.blocks@.len() && b != before.current ==> #[trigger] self.blocks@[b]
                == before.blocks@[b]
    }

    /// The value's variable, or a fresh integer variable holding zero where there is none.
    fn value_or_zero(&mut self, v: Option<usize>) -> (r: usize)
        requires
            old(self).inv(),
            v matches Some(x) ==> x < old(self).declared(),
        ensures
            final(self).follows(old(self)),
            final(self).current == old(self).current,
            final(self).same_names(old(self)),
            final(self).same_block(old(self)),
            r < final(self).declared(),
            v matches Some(x) ==> r == x && final(self).pending() == old(self).pending()
                && final(self).declared() == old(self).declared(),
            v is None ==> r == old(self).declared() && final(self).pending() == old(self).pending().push(
                Instruction::Const(r, 0),
            ) && final(self).type_of_var(r) == Type::Scalar(crate::mir::ScalarType::Int),
    {
        proof {
            Self::lemma_same_entries(self, old(self));
        }
        match v {
            Some(x) => x,
            None => {
                let z = self.fresh(String::new(), Type::Scalar(crate::mir::ScalarType::Int));
                self.emit(Instruction::Const(z, 0));
                z
            },
        }
    }

    /// A fresh variable of the value's type holding a copy of it, for a block's result.
    fn result_of(&mut self, v: Option<usize>) -> (r: Option<usize>)
        requires
            old(self).inv(),
            v matches Some(x) ==> x < old(self).declared(),
        ensures
            final(self).follows(old(self)),
            final(self).current == old(self).current,
            final(self).same_names(old(self)),
            final(self).same_block(old(self)),
            r matches Some(x) ==> x < final(self).declared(),
            v is None ==> r is None && final(self).pending() == old(self).pending(),
            v matches Some(x) ==> r == Some(old(self).declared() as usize) && final(self).pending()
                == old(self).pending().push(Instruction::Copy(old(self).declared() as usize, x))
                && final(self).type_of_var(old(self).declared() as usize) == old(self).type_of_var(x),
    {
        match v {
            Some(x) => {
                let ty = self.declarations[x].type_sig.duplicate();
                let res = self.fresh(String::new(), ty);
                self.emit(Instruction::Copy(res, x));
                Some(res)
            },
            None => None,
        }
    }

    /// Writes the value into the result variable where both exist and have the same type;
    /// otherwise writes nothing, and the result variable keeps what it holds.
    fn copy_into(&mut self, result: Option<usize>, v: Option<usize>)
        requires
            old(self).inv(),
            result matches Some(x) ==> x < old(self).declared(),
            v matches Some(x) ==> x < old(self).declared(),
        ensures
            final(self).follows(old(self)),
            final(self).current == old(self).current,
            final(self).same_names(old(self)),
            final(self).same_block(old(self)),
            final(self).declared() == old(self).declared(),
            ({
                match (result, v) {
                    (Some(res), Some(x)) => if old(self).type_of_var(res) == old(self).type_of_var(x) {
                        final(self).pending() == old(self).pending().push(Instruction::Copy(res, x))
                    } else {
                        final(self).pending() == old(self).pending()
                    },
                    _ => final(self).pending() == old(self).pending(),
                }
            }),
    {
        proof {
            Self::lemma_same_entries(self, old(self));
        }
        match (result, v) {
            (Some(res), Some(x)) => {
                if self.declarations[res].type_sig.same(&self.declarations[x].type_sig) {
                    self.emit(Instruction::Copy(res, x));
                }
            },
            _ => {},
        }
    }

    /// Lowers statements in order; the value of the last one is the block's value.
    pub fn gen_all(&mut self, es: &Vec<Expr>) -> (r: Result<Option<usize>, LowerFault>)
        requires
            old(self).inv(),
        ensures
            final(self).inv(),
            final(self).follows(old(self)),
            r is Ok == lowering_scope_all(es@, old(self).mapped(), old(self).signatures()) is Some,
            r is Ok ==> lowering_scope_all(es@, old(self).mapped(), old(self).signatures()) == Some(
                final(self).mapped(),
            ),
            r matches Ok(Some(v)) ==> v < final(self).declared(),
            es@.len() == 0 ==> r == Ok::<Option<usize>, LowerFault>(None) && *final(self) == *old(self),
            es@.len() > 0 && arith(es@.last()) && r is Ok ==> ({
                &&& r matches Ok(Some(v))
                &&& exists|mid: Compilation|
                    mid.follows(old(self)) && #[trigger] final(self).computes(&mid, es@.last(), v)
            }),
            all_straight(es@) && es@.len() > 0 && r is Ok ==> ({
                &&& r matches Ok(Some(v))
                &&& final(self).runs_all(old(self), es@, v)
            }),
            es@.len() == 1 && arith(es@[0]) && r is Ok ==> ({
                &&& r matches Ok(Some(v))
                &&& final(self).computes(old(self), es@[0], v)
            }),
        decreases es, 2int,
    {
        let ghost m0 = self.mapped();
        let ghost fs = self.signatures();
        let ghost start = *self;
        let ghost mut prev = *self;
        let mut last: Option<usize> = None;
        let mut i: usize = 0;
        proof {
            self.lemma_tracks_start();
            assert(es@.take(0) =~= Seq::<Expr>::empty());
        }
        while i < es.len()
            invariant
                start.inv(),
                all_straight(es@) ==> self.tracks(&start, es@.take(i as int)),
                all_straight(es@) && i > 0 ==> ({
                    &&& last matches Some(v)
                    &&& self.runs_all(&start, es@.take(i as int), v)
                }),
                i <= es.len(),
                self.follows(&start),
                start == *old(self),
                fs == start.signatures(),
                m0 == start.mapped(),
                lowering_scope_all(es@.take(i as int), m0, fs) == Some(self.mapped()),
                last matches Some(v) ==> v < self.declared(),
                i == 0 ==> *self == start && last is None,
                i == 1 ==> prev == start,
                prev.follows(&start),
                i > 0 && arith(es@[i - 1]) ==> ({
                    &&& last matches Some(v)
                    &&& self.computes(&prev, es@[i - 1], v)
                }),
            decreases es.len() - i,
        {
            let ghost before = *self;
            proof {
                prev = before;
            }
            let r = self.gen_expr(&es[i]);
            assert(es@.take(i + 1).subrange(0, i as int) =~= es@.take(i as int));
            match r {
                Err(f) => {
                    proof {
                        lemma_scope_all_prefix_fault(es@, i + 1, m0, fs);
                    }
                    return Err(f);
                },
                Ok(v) => {
                    last = v;
                    proof {
                        if all_straight(es@) {
                            assert(straight(es@[i as int]));
                            self.lemma_runs_compose(&before, &start, es@.take(i as int), es@[i as int], v.unwrap());
                            assert(es@.take(i + 1) =~= es@.take(i as int).push(es@[i as int]));
                        }
                    }
                },
            }
            i = i + 1;
        }
        assert(es@.take(i as int) =~= es@);
        Ok(last)
    }

    /// Lowers a chain of `elif` branches: each tests its condition in the current block and
    /// either runs its body, then goes to `merge`, or goes on to the next test.
    fn gen_elifs(&mut self, es: &Vec<Expr>, result: Option<usize>, merge: usize) -> (r: Result<
        (),
        LowerFault,
    >)
        requires
            old(self).inv(),
            result matches Some(x) ==> x < old(self).declared(),
            merge < old(self).blocks@.len(),
            0 < merge,
            old(self).current != 0,
        ensures
            final(self).follows(old(self)),
            r is Ok == elif_scope(es@, old(self).mapped(), old(self).signatures()) is Some,
            r is Ok ==> elif_scope(es@, old(self).mapped(), old(self).signatures()) == Some(
                final(self).mapped(),
            ),
        decreases es, 2int,
    {
        let ghost m0 = self.mapped();
        let ghost fs = self.signatures();
        let ghost start = *self;
        let mut i: usize = 0;
        while i < es.len()
            invariant
                i <= es.len(),
                self.follows(&start),
                start == *old(self),
                self.current != 0,
                fs == start.signatures(),
                m0 == start.mapped(),
                start.current != 0,
                result matches Some(x) ==> x < self.declared(),
                merge < self.blocks@.len(),
                0 < merge,
                elif_scope(es@.take(i as int), m0, fs) == Some(self.mapped()),
            decreases es.len() - i,
        {
            assert(es@.take(i + 1).subrange(0, i as int) =~= es@.take(i as int));
            match &es[i] {
                Expr::Elif(c, body, _) => {
                    let cr = self.gen_expr(c);
                    let cv = match cr {
                        Err(f) => {
                            proof {
                                lemma_elif_prefix_fault(es@, i + 1, m0, fs);
                            }
                            return Err(f);
                        },
                        Ok(v) => v,
                    };
                    let cv = self.value_or_zero(cv);
                    let body_b = self.new_block();
                    let next_b = self.new_block();
                    self.finish(Terminator::Branch(cv, body_b, next_b), body_b);
                    let br = self.gen_all(body);
                    let bv = match br {
                        Err(f) => {
                            proof {
                                lemma_elif_prefix_fault(es@, i + 1, m0, fs);
                            }
                            return Err(f);
                        },
                        Ok(v) => v,
                    };
                    self.copy_into(result, bv);
                    self.finish(Terminator::Jump(merge), next_b);
                },
                _ => {
                    proof {
                        lemma_elif_prefix_fault(es@, i + 1, m0, fs);
                    }
                    return Err(LowerFault::Unsupported(span_of_node(&es[i])));
                },
            }
            i = i + 1;
        }
        assert(es@.take(i as int) =~= es@);
        Ok(())
    }

    /// Lowers the arguments of a call in order, each to a variable.
    fn gen_args(&mut self, args: &Vec<Expr>) -> (r: Result<Vec<usize>, LowerFault>)
        requires
            old(self).inv(),
        ensures
            final(self).follows(old(self)),
            r is Ok == lowering_scope_all(args@, old(self).mapped(), old(self).signatures()) is Some,
            r is Ok ==> lowering_scope_all(args@, old(self).mapped(), old(self).signatures()) == Some(
                final(self).mapped(),
            ),
            r matches Ok(vs) ==> vs@.len() == args@.len() && forall|k: int|
                0 <= k < vs@.len() ==> #[trigger] vs@[k] < final(self).declared(),
            all_arith(args@) && r is Ok ==> ({
                &&& r matches Ok(vs)
                &&& final(self).same_names(old(self))
                &&& final(self).same_block(old(self))
                &&& final(self).pending().len() >= old(self).pending().len()
                &&& final(self).pending().subrange(0, old(self).pending().len() as int) == old(self).pending()
                &&& writes_from(final(self).emitted(old(self)), old(self).declared())
                &&& forall|st: spec_fn(usize) -> u64, k: int|
                    0 <= k < vs@.len() ==> #[trigger] run(final(self).emitted(old(self)), st)(vs@[k]) == eval(
                        args@[k],
                        |n: Seq<char>| st(old(self).var_of(n)),
                    )
            }),
        decreases args, 2int,
    {
        let ghost m0 = self.mapped();
        let ghost fs = self.signatures();
        let ghost start = *self;
        let mut vs: Vec<usize> = Vec::new();
        let mut i: usize = 0;
        proof {
            Self::lemma_same_entries(self, &start);
            assert(self.emitted(&start) =~= Seq::<Instruction>::empty());
            assert(self.pending().subrange(0, start.pending().len() as int) =~= start.pending());
        }
        while i < args.len()
            invariant
                i <= args.len(),
                self.follows(&start),
                start.inv(),
                start == *old(self),
                fs == start.signatures(),
                m0 == start.mapped(),
                lowering_scope_all(args@.take(i as int), m0, fs) == Some(self.mapped()),
                vs@.len() == i,
                forall|k: int| 0 <= k < vs@.len() ==> #[trigger] vs@[k] < self.declared(),
                all_arith(args@) ==> ({
                    &&& self.same_names(&start)
                    &&& self.same_block(&start)
                    &&& self.pending().len() >= start.pending().len()
                    &&& self.pending().subrange(0, start.pending().len() as int) == start.pending()
                    &&& writes_from(self.emitted(&start), start.declared())
                    &&& forall|st: spec_fn(usize) -> u64, k: int|
                        0 <= k < vs@.len() ==> #[trigger] run(self.emitted(&start), st)(vs@[k]) == eval(
                            args@[k],
                            |n: Seq<char>| st(start.var_of(n)),
                        )
                }),
            decreases args.len() - i,
        {
            let ghost before = *self;
            let ghost vs_before = vs@;
            let r = self.gen_expr(&args[i]);
            assert(args@.take(i + 1).subrange(0, i as int) =~= args@.take(i as int));
            match r {
                Err(f) => {
                    proof {
                        lemma_scope_all_prefix_fault(args@, i + 1, m0, fs);
                    }
                    return Err(f);
                },
                Ok(v) => {
                    let ghost after = *self;
                    let x = self.value_or_zero(v);
                    vs.push(x);
                    proof {
                        if all_arith(args@) {
                            assert(arith(args@[i as int]));
                            let e_prev = before.emitted(&start);
                            let c = after.emitted(&before);
                            assert(self.pending() == after.pending());
                            assert(self.pending() =~= start.pending() + e_prev + c);
                            assert(self.emitted(&start) =~= e_prev + c);
                            assert(self.pending().subrange(0, start.pending().len() as int) =~= start.pending());
                            assert forall|j: int| 0 <= j < self.emitted(&start).len() implies crate::lir::dest(
                                #[trigger] self.emitted(&start)[j],
                            ) >= start.declared() by {
                                if j < e_prev.len() {
                                    assert(self.emitted(&start)[j] == e_prev[j]);
                                } else {
                                    assert(self.emitted(&start)[j] == c[j - e_prev.len()]);
                                }
                            }
                            assert forall|st: spec_fn(usize) -> u64, k: int|
                                0 <= k < vs@.len() implies #[trigger] run(self.emitted(&start), st)(vs@[k]) == eval(
                                    args@[k],
                                    |n: Seq<char>| st(start.var_of(n)),
                                ) by {
                                lemma_run_concat(e_prev, c, st);
                                let st1 = run(e_prev, st);
                                if k < i {
                                    assert(vs@[k] == vs_before[k]);
                                    lemma_run_frame(c, st1, before.declared(), vs@[k]);
                                } else {
                                    let sigma = |n: Seq<char>| st(start.var_of(n));
                                    let env1 = |n: Seq<char>| st1(before.var_of(n));
                                    assert(run(c, st1)(x) == eval(args@[k], env1));
                                    assert forall|n: Seq<char>| m0.contains(n) implies env1(n) == sigma(n) by {
                                        assert(before.var_of(n) == start.var_of(n));
                                        lemma_run_frame(e_prev, st, start.declared(), start.var_of(n));
                                    }
                                    lemma_arith_scope(
                                        args@[k],
                                        m0,
                                        fs,
                                        env1,
                                        sigma,
                                        |n: Seq<char>| Type::Void,
                                        |n: Seq<char>| Type::Void,
                                    );
                                }
                            }
                        }
                    }
                },
            }
            i = i + 1;
        }
        assert(args@.take(i as int) =~= args@);
        Ok(vs)
    }

    /// Lowers one expression into the block being filled and returns the variable that
    /// holds its value, if it has one.
    #[verifier::spinoff_prover]
    #[verifier::rlimit(100)]
    pub fn gen_expr(&mut self, expr: &Expr) -> (r: Result<Option<usize>, LowerFault>)
        requires
            old(self).inv(),
        ensures
            final(self).inv(),
            final(self).follows(old(self)),
            r is Ok == lowering_scope(*expr, old(self).mapped(), old(self).signatures()) is Some,
            r is Ok ==> lowering_scope(*expr, old(self).mapped(), old(self).signatures()) == Some(
                final(self).mapped(),
            ),
            r matches Ok(Some(v)) ==> v < final(self).declared(),
            final(self).injective(),
            final(self).maps_fresh(old(self)),
            arith(*expr) && r is Ok ==> ({
                &&& r matches Ok(Some(v))
                &&& final(self).computes(old(self), *expr, v)
            }),
            straight(*expr) && r is Ok ==> ({
                &&& r matches Ok(Some(v))
                &&& final(self).runs(old(self), *expr, v)
            }),
            *expr matches Expr::Call(_, args, _, _) ==> (all_arith(args@) && r is Ok ==> ({
                &&& final(self).pending().len() > old(self).pending().len()
                &&& final(self).pending().last() matches Instruction::Call(_, _, vs)
                &&& forall|st: spec_fn(usize) -> u64, k: int|
                    0 <= k < vs@.len() ==> #[trigger] run(
                        final(self).pending().subrange(
                            old(self).pending().len() as int,
                            final(self).pending().len() - 1,
                        ),
                        st,
                    )(vs@[k]) == eval(args@[k], |n: Seq<char>| st(old(self).var_of(n)))
            })),
            *expr is If ==> (r matches Ok(v) ==> exists|t: int| #[trigger] final(self).lowered_if(old(self), t, v)),
            *expr is While && r is Ok ==> ({
                let h = old(self).block_count() as int;
                &&& final(self).block_count() >= h + 3
                &&& final(self).block(old(self).current_block() as int).terminator == Some(
                    Terminator::Jump(h as usize),
                )
                &&& final(self).current_block() == h + 2
                &&& exists|c: int|
                    0 <= c < final(self).block_count() && #[trigger] branches_to(
                        final(self).block(c).terminator,
                        h + 1,
                        h + 2,
                    )
                &&& exists|k: int|
                    0 <= k < final(self).block_count() && k != old(self).current_block()
                        && #[trigger] final(self).block(k).terminator == Some(Terminator::Jump(h as usize))
            }),
            *expr matches Expr::Number(lit, _) ==> r matches Ok(Some(v)) && v == old(self).declared()
                && final(self).pending() == old(self).pending().push(Instruction::Const(v, lit))
                && final(self).type_of_var(v) == Type::Scalar(crate::mir::ScalarType::Int)
                && final(self).same_names(old(self)),
            *expr matches Expr::Var(n, _) ==> (r is Ok ==> r == Ok::<Option<usize>, LowerFault>(
                Some(old(self).var_of(n@)),
            ) && final(self).pending() == old(self).pending() && final(self).same_names(old(self))
                && final(self).declared() == old(self).declared()),
            *expr matches Expr::Assign(n, value, _) ==> (r is Ok ==> ({
                &&& r matches Ok(Some(v))
                &&& final(self).var_of(n@) == v
                &&& v == old(self).var_of(n@) || v >= old(self).declared()
                &&& final(self).stores(old(self), *value, n@, v)
            })),
            *expr matches Expr::Reassign(n, value, _) ==> (r is Ok ==> ({
                &&& r matches Ok(Some(v))
                &&& final(self).var_of(n@) == v
                &&& v == old(self).var_of(n@) || v >= old(self).declared()
                &&& final(self).stores(old(self), *value, n@, v)
            })),
            operands(*expr) is Some && r is Ok ==> ({
                &&& r matches Ok(Some(v))
                &&& final(self).pending().len() > 0
                &&& final(self).pending().last() matches Instruction::Binary(op, d, _, _)
                &&& op == operator_of(*expr)
                &&& d == v
            }),
            *expr matches Expr::Call(n, args, _, _) ==> (r is Ok ==> ({
                &&& final(self).pending().len() > 0
                &&& final(self).pending().last() matches Instruction::Call(d, callee, vs)
                &&& callee == n
                &&& vs@.len() == args@.len()
                &&& d >= old(self).declared()
                &&& r matches Ok(Some(v)) ==> d == v
            })),
        decreases expr, 1int,
    {
        match expr {
            Expr::Number(lit, _) => {
                let ghost s0 = *self;
                let v = self.fresh(String::new(), Type::Scalar(crate::mir::ScalarType::Int));
                self.emit(Instruction::Const(v, *lit));
                proof {
                    Self::lemma_same_entries(self, &s0);
                    assert(self.emitted(&s0) =~= seq![Instruction::Const(v, *lit)]);
                    assert(self.pending().subrange(0, s0.pending().len() as int) =~= s0.pending());
                    assert forall|st: spec_fn(usize) -> u64|
                        #[trigger] run(self.emitted(&s0), st)(v) == eval(*expr, |n: Seq<char>| st(s0.var_of(n))) by {
                        assert(seq![Instruction::Const(v, *lit)].drop_last() =~= Seq::<Instruction>::empty());
                    }
                    self.lemma_runs_arith(&s0, *expr, v);
                }
                Ok(Some(v))
            },
            Expr::Var(name, _) => match self.lookup(name) {
                Some(v) => {
                    proof {
                        Self::lemma_same_entries(self, old(self));
                        assert(self.emitted(old(self)) =~= Seq::<Instruction>::empty());
                        assert(self.pending().subrange(0, self.pending().len() as int) =~= self.pending());
                        self.lemma_runs_arith(old(self), *expr, v);
                    }
                    Ok(Some(v))
                },
                None => Err(LowerFault::UnmappedVariable(name.clone())),
            },
            Expr::Assign(name, value, _) => {
                let ghost s0 = *self;
                let vr = self.gen_expr(value);
                match vr {
                    Err(f) => Err(f),
                    Ok(v) => {
                        let ghost s1 = *self;
                        let d = self.bind_value(name, v);
                        proof {
                            self.lemma_bound_value(&s0, &s1, **value, name@, v, d);
                            if arith(**value) {
                                self.lemma_runs_assign(&s0, &s1, *expr, **value, name@, v, d);
                            }
                        }
                        Ok(Some(d))
                    },
                }
            },
            Expr::Reassign(name, value, _) => {
                let ghost s0 = *self;
                let vr = self.gen_expr(value);
                match vr {
                    Err(f) => Err(f),
                    Ok(v) => match self.lookup(name) {
                        None => Err(LowerFault::UnmappedVariable(name.clone())),
                        Some(_) => {
                            let ghost s1 = *self;
                            let d = self.bind_value(name, v);
                            proof {
                                self.lemma_bound_value(&s0, &s1, **value, name@, v, d);
                                if arith(**value) {
                                    self.lemma_runs_assign(&s0, &s1, *expr, **value, name@, v, d);
                                }
                            }
                            Ok(Some(d))
                        },
                    },
                }
            },
            Expr::Call(name, args, _, _) => {
                let ret = match self.analysis.function(name) {
                    Some(f) => backend_type(f.return_type),
                    None => {
                        return Err(LowerFault::UnknownFunction(name.clone()));
                    },
                };
                let ar = self.gen_args(args);
                match ar {
                    Err(f) => Err(f),
                    Ok(vs) => {
                        let ghost a = *self;
                        let ghost vsv = vs@;
                        let has_value = match ret {
                            Type::Void => false,
                            _ => true,
                        };
                        let d = self.fresh(String::new(), ret);
                        self.emit(Instruction::Call(d, name.clone(), vs));
                        proof {
                            if all_arith(args@) {
                                assert(self.pending().subrange(
                                    old(self).pending().len() as int,
                                    self.pending().len() - 1,
                                ) =~= a.emitted(old(self)));
                            }
                        }
                        if has_value {
                            Ok(Some(d))
                        } else {
                            Ok(None)
                        }
                    },
                }
            },
            Expr::If(c, body, elifs, els, span) => {
                let cr = self.gen_expr(c);
                let cv = match cr {
                    Err(f) => {
                        return Err(f);
                    },
                    Ok(v) => v,
                };
                let cv = self.value_or_zero(cv);
                let ghost s1 = *self;
                let then_b = self.new_block();
                let else_b = self.new_block();
                let merge = self.new_block();
                self.finish(Terminator::Branch(cv, then_b, else_b), then_b);
                let ghost s2 = *self;
                let br = self.gen_all(body);
                let bv = match br {
                    Err(f) => {
                        return Err(f);
                    },
                    Ok(v) => v,
                };
                let result = self.result_of(bv);
                let ghost s3 = *self;
                self.finish(Terminator::Jump(merge), else_b);
                let ghost s4 = *self;
                match elifs {
                    Some(es) => {
                        let er = self.gen_elifs(es, result, merge);
                        match er {
                            Err(f) => {
                                return Err(f);
                            },
                            Ok(()) => {},
                        }
                    },
                    None => {},
                }
                match els {
                    Some(x) => match &**x {
                        Expr::Else(b, _) => {
                            let er = self.gen_all(b);
                            match er {
                                Err(f) => {
                                    return Err(f);
                                },
                                Ok(v) => self.copy_into(result, v),
                            }
                        },
                        _ => {
                            return Err(LowerFault::Unsupported(*span));
                        },
                    },
                    None => {},
                }
                let ghost s5 = *self;
                self.finish(Terminator::Jump(merge), merge);
                proof {
                    let t = s1.blocks@.len() as int;
                    let c = s1.current as int;
                    let k = s3.current as int;
                    assert(s2.blocks@[c].terminator == Some(Terminator::Branch(cv, then_b, else_b)));
                    assert(s3.blocks@[c] == s2.blocks@[c]);
                    assert(s4.blocks@[k].terminator == Some(Terminator::Jump(merge)));
                    assert(s4.blocks@[c] == s3.blocks@[c]);
                    assert(s5.blocks@[c] == s4.blocks@[c]);
                    assert(s5.blocks@[k] == s4.blocks@[k]);
                    assert(self.blocks@[c] == s5.blocks@[c]);
                    assert(self.blocks@[k] == s5.blocks@[k]);
                    assert(branches_to(self.block(c).terminator, t, t + 1));
                    assert(self.block(k).terminator == Some(Terminator::Jump((t + 2) as usize)));
                    assert(result matches Some(x) ==> ends_copying_into(s4.blocks@[k], x));
                    assert(self.lowered_if(old(self), t, result));
                }
                Ok(result)
            },
            Expr::While(c, body, _) => {
                let ghost s0 = *self;
                let header = self.new_block();
                let body_b = self.new_block();
                let exit = self.new_block();
                self.finish(Terminator::Jump(header), header);
                let ghost s1 = *self;
                let cr = self.gen_expr(c);
                let cv = match cr {
                    Err(f) => {
                        return Err(f);
                    },
                    Ok(v) => v,
                };
                let cv = self.value_or_zero(cv);
                let ghost s2 = *self;
                self.finish(Terminator::Branch(cv, body_b, exit), body_b);
                let ghost s3 = *self;
                let br = self.gen_all(body);
                let bv = match br {
                    Err(f) => {
                        return Err(f);
                    },
                    Ok(v) => v,
                };
                let result = self.result_of(bv);
                let ghost s4 = *self;
                self.finish(Terminator::Jump(header), exit);
                proof {
                    let h = s0.blocks@.len() as int;
                    let c = s2.current as int;
                    let k = s4.current as int;
                    assert(s1.blocks@[s0.current as int].terminator == Some(Terminator::Jump(header)));
                    assert(s3.blocks@[c].terminator == Some(Terminator::Branch(cv, body_b, exit)));
                    assert(c != body_b);
                    assert(s4.blocks@[c] == s3.blocks@[c]);
                    assert(s4.blocks@[s0.current as int] == s1.blocks@[s0.current as int]);
                    assert(k != c && k != s0.current);
                    assert(self.blocks@[c] == s4.blocks@[c]);
                    assert(self.blocks@[k].terminator == Some(Terminator::Jump(header)));
                    assert(branches_to(self.block(c).terminator, h + 1, h + 2));
                    assert(self.block(k).terminator == Some(Terminator::Jump(h as usize)));
                    assert(self.block(s0.current as int).terminator == Some(Terminator::Jump(h as usize)));
                    assert(self.current_block() == h + 2);
                    assert(self.block_count() >= h + 3);
                }
                Ok(result)
            },
            _ => match binary_parts(expr) {
                Some((op, l, r)) => {
                    let res = self.gen_binary(expr, op, l, r);
                    proof {
                        if arith(*expr) && res is Ok {
                            self.lemma_runs_arith(old(self), *expr, res.unwrap().unwrap());
                        }
                    }
                    res
                },
                None => Err(LowerFault::Unsupported(span_of_node(expr))),
            },
        }
    }
}

impl Compilation {
    /// Lowers a binary operator: its left operand, then its right one, then one instruction
    /// of the operator, on the two operands' variables, into a fresh variable.
    #[verifier::spinoff_prover]
    #[verifier::rlimit(100)]
    fn gen_binary(&mut self, expr: &Expr, op: BinaryOp, l: &Expr, r: &Expr) -> (res: Result<
        Option<usize>,
        LowerFault,
    >)
        requires
            old(self).inv(),
            operands(*expr) == Some((*l, *r)),
            op == operator_of(*expr),
            decreases_to!(*expr => *l),
            decreases_to!(*expr => *r),
        ensures
            final(self).follows(old(self)),
            res is Ok == lowering_scope(*expr, old(self).mapped(), old(self).signatures()) is Some,
            res is Ok ==> lowering_scope(*expr, old(self).mapped(), old(self).signatures()) == Some(
                final(self).mapped(),
            ),
            res matches Ok(Some(v)) ==> v < final(self).declared(),
            final(self).injective(),
            final(self).maps_fresh(old(self)),
            res is Ok ==> ({
                &&& res matches Ok(Some(v))
                &&& final(self).pending().len() > 0
                &&& final(self).pending().last() matches Instruction::Binary(o, d, _, _)
                &&& o == operator_of(*expr)
                &&& d == v
            }),
            arith(*expr) && res is Ok ==> ({
                &&& res matches Ok(Some(v))
                &&& final(self).computes(old(self), *expr, v)
            }),
        decreases expr, 0int,
    {
        let ghost s0 = *self;
        proof {
            lemma_binary_scope(*expr, self.mapped(), self.signatures());
        }
        let lr = self.gen_expr(l);
        let lv0 = match lr {
            Err(f) => {
                return Err(f);
            },
            Ok(v) => v,
        };
        let ghost s1 = *self;
        let lv = self.value_or_zero(lv0);
        let ghost s1b = *self;
        let rr = self.gen_expr(r);
        let rv0 = match rr {
            Err(f) => {
                return Err(f);
            },
            Ok(v) => v,
        };
        let ghost s2 = *self;
        let rv = self.value_or_zero(rv0);
        let ghost s2b = *self;
        let ty = if is_comparison_op(op) {
            Type::Scalar(crate::mir::ScalarType::Char)
        } else {
            self.declarations[lv].type_sig.duplicate()
        };
        let d = self.fresh(String::new(), ty);
        self.emit(Instruction::Binary(op, d, lv, rv));
        proof {
            Self::lemma_same_entries(self, &s2b);
            if arith(*expr) {
                let bin = Instruction::Binary(op, d, lv, rv);
                let c1 = s1.emitted(&s0);
                let c2 = s2.emitted(&s1b);
                assert(s1b.pending() == s1.pending());
                assert(self.pending() == s2.pending().push(bin));
                assert(s2.pending() =~= s0.pending() + c1 + c2);
                assert(self.emitted(&s0) =~= c1 + c2 + seq![bin]);
                assert(self.pending().subrange(0, s0.pending().len() as int) =~= s0.pending());
                assert(writes_from(self.emitted(&s0), s0.declared())) by {
                    assert forall|j: int| 0 <= j < self.emitted(&s0).len() implies crate::lir::dest(
                        #[trigger] self.emitted(&s0)[j],
                    ) >= s0.declared() by {
                        if j < c1.len() {
                            assert(self.emitted(&s0)[j] == c1[j]);
                        } else if j < c1.len() + c2.len() {
                            assert(self.emitted(&s0)[j] == c2[j - c1.len()]);
                        }
                    }
                }
                let names = s0.mapped();
                let fs = s0.signatures();
                assert forall|st: spec_fn(usize) -> u64|
                    #[trigger] run(self.emitted(&s0), st)(d) == eval(*expr, |n: Seq<char>| st(s0.var_of(n))) by {
                    let sigma = |n: Seq<char>| st(s0.var_of(n));
                    lemma_run_concat(c1 + c2, seq![bin], st);
                    lemma_run_concat(c1, c2, st);
                    assert(seq![bin].drop_last() =~= Seq::<Instruction>::empty());
                    assert(seq![bin].last() == bin);
                    let st1 = run(c1, st);
                    let st2 = run(c2, st1);
                    assert(run(Seq::<Instruction>::empty(), st2) == st2);
                    assert(run(seq![bin], st2) == crate::lir::step(bin, run(seq![bin].drop_last(), st2)));
                    assert(run(seq![bin], st2) == crate::lir::step(bin, st2));
                    assert(run(self.emitted(&s0), st) == crate::lir::step(bin, st2));
                    assert(run(self.emitted(&s0), st)(d) == arith_result(op, st2(lv), st2(rv)));
                    lemma_run_frame(c2, st1, s1b.declared(), lv);
                    assert(st2(lv) == st1(lv));
                    assert(st1(lv) == eval(*l, sigma));
                    let env1 = |n: Seq<char>| st1(s1b.var_of(n));
                    assert(st2(rv) == eval(*r, env1));
                    assert forall|n: Seq<char>| names.contains(n) implies env1(n) == sigma(n) by {
                        assert(s1b.var_of(n) == s0.var_of(n));
                        lemma_run_frame(c1, st, s0.declared(), s0.var_of(n));
                    }
                    assert(lowering_scope(*r, names, fs) is Some);
                    lemma_arith_scope(*r, names, fs, env1, sigma, |n: Seq<char>| Type::Void, |n: Seq<char>| Type::Void);
                    assert(eval(*r, env1) == eval(*r, sigma));
                }
            }
        }
        Ok(Some(d))
    }
}

impl Compilation {
    /// Writes a value into the variable of `name`: into the variable the name already refers
    /// to when that has the value's type (or there is no value), and otherwise into a fresh
    /// variable of the value's type, which the name then refers to.
    fn bind_value(&mut self, name: &String, v: Option<usize>) -> (d: usize)
        requires
            old(self).inv(),
            v matches Some(x) ==> x < old(self).declared(),
        ensures
            final(self).follows(old(self)),
            final(self).same_block(old(self)),
            final(self).mapped() == old(self).mapped().insert(name@),
            final(self).var_of(name@) == d,
            d < final(self).declared(),
            forall|n: Seq<char>| n != name@ ==> #[trigger] final(self).var_of(n) == old(self).var_of(n),
            final(self).pending() == match v {
                Some(x) => old(self).pending().push(Instruction::Copy(d, x)),
                None => old(self).pending(),
            },
            ({
                let reuse = old(self).mapped().contains(name@) && match v {
                    Some(x) => old(self).type_of_var(x) == old(self).type_of_var(old(self).var_of(name@)),
                    None => true,
                };
                &&& reuse ==> d == old(self).var_of(name@) && final(self).same_names(old(self))
                    && final(self).declared() == old(self).declared()
                &&& !reuse ==> d == old(self).declared() && final(self).declared() == old(self).declared() + 1
                    && final(self).type_of_var(d) == match v {
                    Some(x) => old(self).type_of_var(x),
                    None => Type::Void,
                }
            }),
    {
        match self.lookup(name) {
            Some(d) => {
                let same = match v {
                    Some(x) => self.declarations[x].type_sig.same(&self.declarations[d].type_sig),
                    None => true,
                };
                if same {
                    match v {
                        Some(x) => self.emit(Instruction::Copy(d, x)),
                        None => {},
                    }
                    proof {
                        Self::lemma_same_entries(self, old(self));
                        assert(old(self).mapped().insert(name@) =~= old(self).mapped());
                    }
                    return d;
                }
            },
            None => {},
        }
        let ty = match v {
            Some(x) => self.declarations[x].type_sig.duplicate(),
            None => Type::Void,
        };
        let d = self.fresh(name.clone(), ty);
        match v {
            Some(x) => self.emit(Instruction::Copy(d, x)),
            None => {},
        }
        self.map_name(name, d);
        d
    }
}

/// The span of a node that lowering does not support; the empty node has none.
fn span_of_node(e: &Expr) -> (r: Span) {
    match e {
        Expr::String(_, r) => *r,
        Expr::List(_, r) => *r,
        Expr::Parameter(_, r) => *r,
        Expr::Function(_, _, _, _, r) => *r,
        Expr::Else(_, r) => *r,
        Expr::Elif(_, _, r) => *r,
        _ => Span { start: 0, end: 0 },
    }
}

impl Compilation {
    /// Drops what was built for the last function: no names, no variables, one empty entry
    /// block being filled.
    fn reset(&mut self)
        ensures
            final(self).inv(),
            final(self).signatures() == old(self).signatures(),
            final(self).mapped() == Set::<Seq<char>>::empty(),
            final(self).declared() == 0,
            final(self).blocks@.len() == 1,
            final(self).blocks@[0].instructions@.len() == 0,
            final(self).current == 0,
            final(self).instructions@.len() == 0,
    {
        self.variables = Vec::new();
        self.declarations = Vec::new();
        let mut blocks: Vec<Block> = Vec::new();
        blocks.push(Block { instructions: Vec::new(), terminator: None });
        self.blocks = blocks;
        self.current = 0;
        self.instructions = Vec::new();
        assert(name_entries(self.variables@) =~= Seq::empty());
        assert(table(name_entries(self.variables@)).dom() =~= Set::<Seq<char>>::empty());
    }

    /// Lowers one function declaration. The backend signature has one parameter per declared
    /// parameter, in order, of its backend type, and the backend type of the declared return
    /// type. The entry block binds each parameter to a fresh variable in declaration order
    /// and is sealed with a jump to the body; nothing jumps back to it. After the body, a
    /// return variable is declared, initialized to zero and given the body's value when that
    /// has the return type; the last block returns it. The return variable is declared after
    /// everything the body maps, so no source name refers to it, and the name map is empty
    /// afterwards.
    pub fn gen_fn(&mut self, function: &Expr) -> (r: Result<Function, LowerFault>)
        requires
            old(self).inv(),
        ensures
            final(self).inv(),
            final(self).signatures() == old(self).signatures(),
            r is Ok == lowers(*function, old(self).signatures()),
            final(self).mapped() == Set::<Seq<char>>::empty(),
            final(self).declared() == 0,
            !(function is Function) ==> r == Err::<Function, LowerFault>(LowerFault::NotAFunction),
            r matches Ok(f) ==> function_ok(f),
            r matches Ok(f) ==> match *function {
                Expr::Function(name, params, ret, _, _) => {
                    &&& f.signature.name@ == name@
                    &&& f.signature.args@.len() == params@.len()
                    &&& f.signature.return_type == backend_type_of(ret)
                    &&& f.variables@.len() >= params@.len()
                    &&& f.blocks@[0].instructions@.len() >= params@.len()
                    &&& f.blocks@[0].terminator == Some(Terminator::Jump(1))
                    &&& backend_type_of(ret) != Type::Void ==> {
                        let rv = f.variables@.len() - 1;
                        &&& f.variables@.len() > params@.len()
                        &&& f.variables@[rv].type_sig == backend_type_of(ret)
                        &&& f.variables@[rv].ident@ == Seq::<char>::empty()
                        &&& exists|rb: int|
                            0 <= rb < f.blocks@.len() && #[trigger] f.blocks@[rb].terminator == Some(
                                Terminator::Return(Some(rv as usize)),
                            ) && forall|b: int, j: int|
                                0 <= b < f.blocks@.len() && 0 <= j < f.blocks@[b].instructions@.len()
                                    && crate::lir::dest(#[trigger] f.blocks@[b].instructions@[j]) == rv
                                    ==> b == rb && j + 2 >= f.blocks@[rb].instructions@.len()
                    }
                    &&& backend_type_of(ret) == Type::Void ==> exists|b: int|
                        0 <= b < f.blocks@.len() && #[trigger] f.blocks@[b].terminator == Some(
                            Terminator::Return(None),
                        )
                    &&& forall|i: int|
                        0 <= i < params@.len() ==> {
                            &&& #[trigger] f.signature.args@[i] == backend_type_of(params@[i].0.typename)
                            &&& f.variables@[i].ident@ == params@[i].0.name@
                            &&& f.variables@[i].type_sig == backend_type_of(params@[i].0.typename)
                            &&& f.blocks@[0].instructions@[i] == Instruction::Param(i as usize, i as usize)
                        }
                },
                _ => false,
            },
            r matches Ok(f) ==> match *function {
                Expr::Function(_, params, ret, body, _) => {
                    all_straight(body@) && body@.len() > 0 && backend_type_of(ret) != Type::Void && stmt_type(
                        body@.last(),
                        tenv_after(body@.drop_last(), |n: Seq<char>| parameter_type(params@, n)),
                    ) == backend_type_of(ret) ==> {
                        let rv = (f.variables@.len() - 1) as usize;
                        &&& f.blocks@.len() > 1
                        &&& f.blocks@[1].terminator == Some(Terminator::Return(Some(rv)))
                        &&& forall|st: spec_fn(usize) -> u64|
                            #[trigger] run(f.blocks@[1].instructions@, st)(rv) == stmt_value(
                                body@.last(),
                                env_after(body@.drop_last(), |n: Seq<char>| st(parameter_var(params@, n))),
                            )
                    }
                },
                _ => true,
            },
    {
        match function {
            Expr::Function(name, params, ret, body, _) => {
                self.reset();
                let ghost fs = self.signatures();
                let mut args: Vec<Type> = Vec::new();
                let mut i: usize = 0;
                while i < params.len()
                    invariant
                        self.inv(),
                        self.signatures() == fs,
                        self.current == 0,
                        self.blocks@.len() == 1,
                        i <= params.len(),
                        self.declared() == i,
                        self.instructions@.len() == i,
                        args@.len() == i,
                        self.mapped() == parameter_names(params@.take(i as int)),
                        name_entries(self.variables@) == parameter_entries(params@.take(i as int)),
                        forall|k: int|
                            0 <= k < i ==> {
                                &&& #[trigger] args@[k] == backend_type_of(params@[k].0.typename)
                                &&& self.declarations@[k].ident@ == params@[k].0.name@
                                &&& self.declarations@[k].type_sig == backend_type_of(params@[k].0.typename)
                                &&& self.instructions@[k] == Instruction::Param(k as usize, k as usize)
                            },
                    decreases params.len() - i,
                {
                    let ty = backend_type(params[i].0.typename);
                    let v = self.fresh(params[i].0.name.clone(), ty);
                    args.push(backend_type(params[i].0.typename));
                    self.emit(Instruction::Param(v, i));
                    let ghost before = self.variables@;
                    self.map_name(&params[i].0.name, v);
                    assert(params@.take(i + 1).drop_last() =~= params@.take(i as int));
                    assert(name_entries(self.variables@) =~= name_entries(before).push((params@[i as int].0.name@, v)));
                    assert(name_entries(self.variables@) =~= parameter_entries(params@.take(i + 1)));
                    i = i + 1;
                }
                assert(params@.take(i as int) =~= params@);
                let ret_ty = backend_type(*ret);
                let ghost bound = *self;
                let body_b = self.new_block();
                self.finish(Terminator::Jump(body_b), body_b);
                let ghost entry = self.blocks@[0];
                let ghost start = *self;
                assert(entry.instructions@.len() >= params@.len());
                assert(forall|k: int| 0 <= k < params@.len() ==> entry.instructions@[k] == bound.instructions@[k]);
                let br = self.gen_all(body);
                match br {
                    Err(f) => {
                        self.reset();
                        Err(f)
                    },
                    Ok(v) => {
                        let ghost after_body = *self;
                        let ret_var = match ret_ty {
                            Type::Void => None,
                            _ => {
                                let rv = self.fresh(String::new(), backend_type(*ret));
                                self.emit(Instruction::Const(rv, 0));
                                Some(rv)
                            },
                        };
                        let ghost with_ret = *self;
                        self.copy_into(ret_var, v);
                        let ghost copied = *self;
                        let cur = self.current;
                        self.finish(Terminator::Return(ret_var), cur);
                        proof {
                            if ret_var is Some {
                                let rv = ret_var.unwrap();
                                let rb = cur as int;
                                assert(self.blocks@[rb].instructions@ == copied.pending());
                                assert forall|b: int, j: int|
                                    0 <= b < self.blocks@.len() && 0 <= j < self.blocks@[b].instructions@.len()
                                        && crate::lir::dest(#[trigger] self.blocks@[b].instructions@[j]) == rv
                                        implies b == rb && j + 2 >= self.blocks@[rb].instructions@.len() by {
                                    if b != rb {
                                        assert(self.blocks@[b] == after_body.blocks@[b]);
                                        assert(block_ok(after_body.blocks@[b], after_body.declarations@.len(), after_body.blocks@.len()));
                                        assert(instruction_ok(after_body.blocks@[b].instructions@[j], after_body.declarations@.len()));
                                    } else if j < after_body.pending().len() {
                                        assert(copied.pending()[j] == after_body.pending()[j]);
                                        assert(instruction_ok(after_body.pending()[j], after_body.declarations@.len()));
                                    }
                                }
                            }
                        }
                        assert(self.blocks@[cur as int].terminator == Some(Terminator::Return(ret_var)));
                        proof {
                            if all_straight(body@) && body@.len() > 0 && backend_type_of(*ret) != Type::Void
                                && stmt_type(
                                body@.last(),
                                tenv_after(body@.drop_last(), |n: Seq<char>| parameter_type(params@, n)),
                            ) == backend_type_of(*ret) {
                                let es = body@;
                                let init = es.drop_last();
                                let e = es.last();
                                let v0 = v.unwrap();
                                let rv = ret_var.unwrap();
                                let names = start.mapped();
                                let fs = start.signatures();
                                assert(after_body.runs_all(&start, es, v0));
                                let code = after_body.emitted(&start);
                                assert(after_body.pending() =~= code);
                                assert(init == es.subrange(0, es.len() - 1));
                                assert(lowering_scope_all(init, names, fs) is Some);
                                assert forall|k: int| 0 <= k < init.len() implies straight(#[trigger] init[k]) by {
                                    assert(init[k] == es[k]);
                                }
                                let ptype = |n: Seq<char>| parameter_type(params@, n);
                                assert forall|n: Seq<char>| names.contains(n) implies start.tenv()(n) == ptype(n) by {
                                    let k = start.var_of(n) as int;
                                    assert(k < params@.len());
                                    assert(args@[k] == backend_type_of(params@[k].0.typename));
                                    assert(start.declarations@[k] == bound.declarations@[k]);
                                }
                                lemma_fold_agree(es, names, fs, |n: Seq<char>| 0u64, |n: Seq<char>| 0u64, start.tenv(), ptype);
                                assert(with_ret.type_of_var(rv) == with_ret.type_of_var(v0));
                                let cst = Instruction::Const(rv, 0);
                                let cpy = Instruction::Copy(rv, v0);
                                assert(copied.pending() == code.push(cst).push(cpy));
                                assert forall|st: spec_fn(usize) -> u64|
                                    #[trigger] run(self.blocks@[1].instructions@, st)(rv) == stmt_value(
                                        e,
                                        env_after(init, |n: Seq<char>| st(parameter_var(params@, n))),
                                    ) by {
                                    let penv = |n: Seq<char>| st(parameter_var(params@, n));
                                    assert(cur == 1);
                                    assert(self.blocks@[1].instructions@ == code.push(cst).push(cpy));
                                    assert(v0 < rv);
                                    assert(code.push(cst).push(cpy).drop_last() == code.push(cst));
                                    assert(code.push(cst).drop_last() == code);
                                    assert(run(code.push(cst).push(cpy), st) == crate::lir::step(cpy, run(code.push(cst), st)));
                                    assert(run(code.push(cst), st) == crate::lir::step(cst, run(code, st)));
                                    assert(run(code, st)(v0) == stmt_value(e, env_after(init, start.env(st))));
                                    assert forall|n: Seq<char>| names.contains(n) implies start.env(st)(n) == penv(n) by {}
                                    lemma_fold_agree(es, names, fs, start.env(st), penv, start.tenv(), start.tenv());
                                }
                            }
                        }
                        let mut variables: Vec<Declaration> = Vec::new();
                        let mut blocks: Vec<Block> = Vec::new();
                        std::mem::swap(&mut variables, &mut self.declarations);
                        std::mem::swap(&mut blocks, &mut self.blocks);
                        let f = Function {
                            signature: FunctionSig { name: name.clone(), args, return_type: ret_ty },
                            variables,
                            blocks,
                        };
                        assert(f.blocks@[0] == entry);
                        assert(function_ok(f));
                        self.reset();
                        Ok(f)
                    },
                }
            },
            _ => {
                self.reset();
                Err(LowerFault::NotAFunction)
            },
        }
    }

    /// Lowers every function of a program, in order; the first fault stops it.
    pub fn gen_program(&mut self, program: &Vec<Expr>) -> (r: Result<Program, LowerFault>)
        requires
            old(self).inv(),
        ensures
            final(self).inv(),
            final(self).signatures() == old(self).signatures(),
            r is Ok == forall|i: int| 0 <= i < program@.len() ==> lowers(#[trigger] program@[i], old(self).signatures()),
            r matches Ok(p) ==> p.functions@.len() == program@.len() && forall|i: int|
                0 <= i < p.functions@.len() ==> function_ok(#[trigger] p.functions@[i]),
            r matches Ok(p) ==> forall|i: int|
                0 <= i < p.functions@.len() ==> lowered_signature(#[trigger] p.functions@[i], program@[i]),
    {
        let ghost fs = self.signatures();
        let mut functions: Vec<Function> = Vec::new();
        let mut i: usize = 0;
        while i < program.len()
            invariant
                self.inv(),
                self.signatures() == fs,
                fs == old(self).signatures(),
                i <= program.len(),
                functions@.len() == i,
                forall|k: int| 0 <= k < i ==> lowers(#[trigger] program@[k], fs),
                forall|k: int| 0 <= k < i ==> function_ok(#[trigger] functions@[k]),
                forall|k: int| 0 <= k < i ==> lowered_signature(#[trigger] functions@[k], program@[k]),
            decreases program.len() - i,
        {
            match self.gen_fn(&program[i]) {
                Ok(f) => functions.push(f),
                Err(e) => {
                    return Err(e);
                },
            }
            i = i + 1;
        }
        Ok(Program { functions })
    }
}

/// Why a program did not compile.
#[derive(Debug)]
pub enum CompileError {
    /// The analyzer found these diagnostics; nothing was lowered.
    Semantic(Vec<TypeError>),
    /// Lowering met a compiler-internal fault.
    Internal(LowerFault),
}

/// Compiles a parsed program: analyzes it in two phases, and lowers it only if the analysis
/// found no diagnostic.
pub fn compile(source: String, filename: String, program: &Vec<Expr>) -> (r: Result<Program, CompileError>)
    requires
        all_well_formed(program@),
    ensures
        ({
            let s = analyzed(program@, initial_state());
            &&& s.diagnostics.len() > 0 ==> (r matches Err(CompileError::Semantic(ds)) && ds@
                == s.diagnostics)
            &&& s.diagnostics.len() == 0 ==> !(r matches Err(CompileError::Semantic(_)))
            &&& s.diagnostics.len() == 0 ==> (r is Ok == forall|i: int|
                0 <= i < program@.len() ==> lowers(#[trigger] program@[i], s.functions))
            &&& s.diagnostics.len() == 0 && supported_program(program@) ==> r is Ok
            &&& r matches Ok(p) ==> p.functions@.len() == program@.len() && forall|i: int|
                0 <= i < p.functions@.len() ==> function_ok(#[trigger] p.functions@[i])
            &&& r matches Ok(p) ==> forall|i: int|
                0 <= i < p.functions@.len() ==> lowered_signature(#[trigger] p.functions@[i], program@[i])
        }),
{
    let mut analysis = Analysis::new(source, filename);
    assert(analysis@ == initial_state());
    analysis.analyze_program(program);
    proof {
        let s0 = initial_state();
        if analyzed(program@, s0).diagnostics.len() == 0 && supported_program(program@) {
            declaring_keeps_diagnostics(program@, s0);
            diagnostics_only_grow_all(program@, declared_all(program@, s0));
            accepted_program_lowers(program@, s0);
        }
    }
    if analysis.error_count() > 0 {
        return Err(CompileError::Semantic(analysis.into_diagnostics()));
    }
    let mut lowering = Compilation::new(analysis);
    match lowering.gen_program(program) {
        Ok(p) => Ok(p),
        Err(f) => Err(CompileError::Internal(f)),
    }
}

} // verus!
