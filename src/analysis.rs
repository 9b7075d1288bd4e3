use vstd::prelude::*;

use crate::error::TypeError;
use crate::frontend::{all_well_formed, is_comparison, lemma_all_well_formed, lemma_well_formed_has_span, span_of, well_formed, Expr, Parameter, Span, Type};

verus! {

/// A registered function signature: the return type, each parameter's type with the span of
/// its annotation, and the span of the declaration.
#[derive(Debug)]
pub struct FuncSig {
    pub return_type: Type,
    pub param_types: Vec<(Type, Span)>,
    pub error_metadata: Span,
}

/// A function signature as a mathematical value.
pub struct SigView {
    pub return_type: Type,
    pub params: Seq<(Type, Span)>,
    pub declared_at: Span,
}

impl View for FuncSig {
    type V = SigView;

    open spec fn view(&self) -> SigView {
        SigView {
            return_type: self.return_type,
            params: self.param_types@,
            declared_at: self.error_metadata,
        }
    }
}

/// The recorded binding of a variable.
#[derive(Clone, Copy, PartialEq, Eq, Structural, Debug)]
pub struct VarSig {
    pub ty: Type,
}

/// The analyzer's state for one compilation unit: the signature table, the variable table,
/// the source it reports against, and the diagnostics found so far.
pub struct Analysis {
    functions: Vec<(String, FuncSig)>,
    variables: Vec<(String, VarSig)>,
    source: String,
    filename: String,
    diagnostics: Vec<TypeError>,
}

/// The analyzer's state as a mathematical value.
pub struct AnalysisView {
    pub functions: Map<Seq<char>, SigView>,
    pub variables: Map<Seq<char>, Type>,
    pub diagnostics: Seq<TypeError>,
}

/// The map that a list of entries describes; a later entry for a name shadows an earlier one.
pub open spec fn table<V>(entries: Seq<(Seq<char>, V)>) -> Map<Seq<char>, V>
    decreases entries.len(),
{
    if entries.len() == 0 {
        Map::empty()
    } else {
        table(entries.drop_last()).insert(entries.last().0, entries.last().1)
    }
}

pub open spec fn function_entries(fs: Seq<(String, FuncSig)>) -> Seq<(Seq<char>, SigView)> {
    fs.map_values(|p: (String, FuncSig)| (p.0@, p.1@))
}

pub open spec fn variable_entries(vs: Seq<(String, VarSig)>) -> Seq<(Seq<char>, Type)> {
    vs.map_values(|p: (String, VarSig)| (p.0@, p.1.ty))
}

impl View for Analysis {
    type V = AnalysisView;

    closed spec fn view(&self) -> AnalysisView {
        AnalysisView {
            functions: table(function_entries(self.functions@)),
            variables: table(variable_entries(self.variables@)),
            diagnostics: self.diagnostics@,
        }
    }
}

/// The type of an expression under the given signature and variable tables. Where no type
/// can be derived (an empty block or list, an unknown callee, an unbound name), it is `Void`.
pub open spec fn type_of(
    e: Expr,
    functions: Map<Seq<char>, SigView>,
    variables: Map<Seq<char>, Type>,
) -> Type
    decreases e,
{
    match e {
        Expr::NoExpr => Type::Void,
        Expr::Number(_, _) => Type::Int,
        Expr::String(_, _) => Type::String,
        Expr::Parameter(p, _) => p.typename,
        Expr::Function(_, _, ret, _, _) => ret,
        Expr::Else(body, _) => if body.len() > 0 {
            type_of(body[body.len() - 1], functions, variables)
        } else {
            Type::Void
        },
        Expr::Elif(_, body, _) => if body.len() > 0 {
            type_of(body[body.len() - 1], functions, variables)
        } else {
            Type::Void
        },
        Expr::If(_, body, _, _, _) => if body.len() > 0 {
            type_of(body[body.len() - 1], functions, variables)
        } else {
            Type::Void
        },
        Expr::While(_, body, _) => if body.len() > 0 {
            type_of(body[body.len() - 1], functions, variables)
        } else {
            Type::Void
        },
        Expr::Call(name, _, _, _) => if functions.contains_key(name@) {
            functions[name@].return_type
        } else {
            Type::Void
        },
        Expr::List(items, _) => if items.len() > 0 {
            type_of(items[0], functions, variables)
        } else {
            Type::Void
        },
        Expr::Var(name, _) => if variables.contains_key(name@) {
            variables[name@]
        } else {
            Type::Void
        },
        Expr::Assign(_, v, _) => type_of(*v, functions, variables),
        Expr::Reassign(_, v, _) => type_of(*v, functions, variables),
        _ => if is_comparison(e) {
            Type::Bool
        } else {
            Type::Number
        },
    }
}

impl AnalysisView {
    /// The state with one more diagnostic.
    pub open spec fn report(self, d: TypeError) -> AnalysisView {
        AnalysisView {
            functions: self.functions,
            variables: self.variables,
            diagnostics: self.diagnostics.push(d),
        }
    }

    /// The state with the given diagnostics appended, in order.
    pub open spec fn report_all(self, ds: Seq<TypeError>) -> AnalysisView {
        AnalysisView {
            functions: self.functions,
            variables: self.variables,
            diagnostics: self.diagnostics + ds,
        }
    }

    /// The state with `name` bound to a variable of type `ty`.
    pub open spec fn bind(self, name: Seq<char>, ty: Type) -> AnalysisView {
        AnalysisView {
            functions: self.functions,
            variables: self.variables.insert(name, ty),
            diagnostics: self.diagnostics,
        }
    }
}

/// The signature that a function declaration records.
pub open spec fn signature_of(params: Seq<(Parameter, Span)>, ret: Type, span: Span) -> SigView {
    SigView {
        return_type: ret,
        params: params.map_values(|p: (Parameter, Span)| (p.0.typename, p.1)),
        declared_at: span,
    }
}

/// The variables that a function's parameters bind on entry to its body.
pub open spec fn parameter_table(params: Seq<(Parameter, Span)>) -> Map<Seq<char>, Type> {
    table(params.map_values(|p: (Parameter, Span)| (p.0.name@, p.0.typename)))
}

/// One `ArgumentTypeMismatch` for each of the first `n` positions whose argument's type
/// differs from the declared parameter type, in order.
pub open spec fn argument_mismatches(
    args: Seq<Expr>,
    params: Seq<(Type, Span)>,
    n: nat,
    functions: Map<Seq<char>, SigView>,
    variables: Map<Seq<char>, Type>,
) -> Seq<TypeError>
    decreases n,
{
    if n == 0 {
        Seq::empty()
    } else {
        let earlier = argument_mismatches(args, params, (n - 1) as nat, functions, variables);
        let i = n - 1;
        let t = type_of(args[i], functions, variables);
        if t != params[i].0 {
            earlier.push(TypeError::ArgumentTypeMismatch(params[i].1, span_of(args[i]), params[i].0, t))
        } else {
            earlier
        }
    }
}

/// What a call reports about itself: an unknown callee; otherwise a wrong argument count,
/// then a type mismatch for each position that both the arguments and the parameters have.
pub open spec fn call_diagnostics(
    name: String,
    args: Seq<Expr>,
    name_span: Span,
    args_span: Span,
    functions: Map<Seq<char>, SigView>,
    variables: Map<Seq<char>, Type>,
) -> Seq<TypeError> {
    if !functions.contains_key(name@) {
        seq![TypeError::FunctionDoesNotExist(name, name_span)]
    } else {
        let params = functions[name@].params;
        let arity = if args.len() != params.len() {
            seq![TypeError::ArityMismatch(args_span, params.len() as usize, args.len() as usize)]
        } else {
            Seq::empty()
        };
        let n = if args.len() < params.len() { args.len() } else { params.len() };
        arity + argument_mismatches(args, params, n, functions, variables)
    }
}

/// Reports an operator whose operands' types differ.
pub open spec fn operand_check(l: Expr, r: Expr, s: AnalysisView) -> AnalysisView {
    let tl = type_of(l, s.functions, s.variables);
    let tr = type_of(r, s.functions, s.variables);
    if tl != tr {
        s.report(TypeError::OperandTypeMismatch(span_of(l), span_of(r), tl, tr))
    } else {
        s
    }
}

/// The state after checking `e`: its operands and sub-statements first, in source order,
/// then the node itself. A function registers its signature, checks its body with its
/// parameters as the only variables, and leaves the caller's variables as they were.
pub open spec fn checked(e: Expr, s: AnalysisView) -> AnalysisView
    decreases e,
{
    match e {
        Expr::Function(name, params, ret, body, span) => {
            let inner = AnalysisView {
                functions: s.functions.insert(name@, signature_of(params@, ret, span)),
                variables: parameter_table(params@),
                diagnostics: s.diagnostics,
            };
            let after = checked_all(body@, inner);
            AnalysisView {
                functions: after.functions,
                variables: s.variables,
                diagnostics: after.diagnostics,
            }
        },
        Expr::Else(body, _) => checked_all(body@, s),
        Expr::Elif(c, body, _) => checked_all(body@, checked(*c, s)),
        Expr::If(c, body, elifs, els, _) => {
            let s1 = checked_all(body@, checked(*c, s));
            let s2 = match elifs {
                Some(es) => checked_all(es@, s1),
                None => s1,
            };
            match els {
                Some(x) => checked(*x, s2),
                None => s2,
            }
        },
        Expr::While(c, body, _) => checked_all(body@, checked(*c, s)),
        Expr::List(items, _) => checked_all(items@, s),
        Expr::Call(name, args, name_span, args_span) => {
            let s1 = checked_all(args@, s);
            s1.report_all(call_diagnostics(name, args@, name_span, args_span, s1.functions, s1.variables))
        },
        Expr::Var(name, span) => if s.variables.contains_key(name@) {
            s
        } else {
            s.report(TypeError::UnboundVariable(span))
        },
        Expr::Assign(name, v, _) => {
            let s1 = checked(*v, s);
            s1.bind(name@, type_of(*v, s1.functions, s1.variables))
        },
        Expr::Reassign(name, v, span) => {
            let s1 = checked(*v, s);
            if s1.variables.contains_key(name@) {
                s1
            } else {
                s1.report(TypeError::UnboundVariable(span))
            }
        },
        Expr::Equality(l, r) => operand_check(*l, *r, checked(*r, checked(*l, s))),
        Expr::NotEqual(l, r) => operand_check(*l, *r, checked(*r, checked(*l, s))),
        Expr::GreaterThan(l, r) => operand_check(*l, *r, checked(*r, checked(*l, s))),
        Expr::LessThan(l, r) => operand_check(*l, *r, checked(*r, checked(*l, s))),
        Expr::GreaterThanEqual(l, r) => operand_check(*l, *r, checked(*r, checked(*l, s))),
        Expr::LessThanEqual(l, r) => operand_check(*l, *r, checked(*r, checked(*l, s))),
        Expr::Addition(l, r) => operand_check(*l, *r, checked(*r, checked(*l, s))),
        Expr::Subtraction(l, r) => operand_check(*l, *r, checked(*r, checked(*l, s))),
        Expr::Multiplication(l, r) => operand_check(*l, *r, checked(*r, checked(*l, s))),
        Expr::Division(l, r) => operand_check(*l, *r, checked(*r, checked(*l, s))),
        Expr::Power(l, r) => operand_check(*l, *r, checked(*r, checked(*l, s))),
        _ => s,
    }
}

/// The state after checking a sequence of statements in order.
pub open spec fn checked_all(es: Seq<Expr>, s: AnalysisView) -> AnalysisView
    decreases es,
{
    if es.len() == 0 {
        s
    } else {
        checked(es[es.len() - 1], checked_all(es.subrange(0, es.len() - 1), s))
    }
}

/// The state of an analyzer that has seen nothing yet.
pub open spec fn initial_state() -> AnalysisView {
    AnalysisView { functions: Map::empty(), variables: Map::empty(), diagnostics: Seq::empty() }
}

/// The state after registering the signature that `e` declares, if it is a function; any
/// other node leaves the state as it is.
pub open spec fn declared(e: Expr, s: AnalysisView) -> AnalysisView {
    match e {
        Expr::Function(name, params, ret, _, span) => AnalysisView {
            functions: s.functions.insert(name@, signature_of(params@, ret, span)),
            ..s
        },
        _ => s,
    }
}

/// The state after registering every function signature of a program, in order.
pub open spec fn declared_all(es: Seq<Expr>, s: AnalysisView) -> AnalysisView
    decreases es.len(),
{
    if es.len() == 0 {
        s
    } else {
        declared(es[es.len() - 1], declared_all(es.subrange(0, es.len() - 1), s))
    }
}

/// Analyzing a program: every signature is registered first, so that a call may name a
/// function declared later; then each item is checked in order.
pub open spec fn analyzed(program: Seq<Expr>, s: AnalysisView) -> AnalysisView {
    checked_all(program, declared_all(program, s))
}

pub(crate) proof fn lemma_table_suffix<V>(s: Seq<(Seq<char>, V)>, i: int, k: Seq<char>)
    requires
        0 <= i <= s.len(),
        forall|j: int| i <= j < s.len() ==> s[j].0 != k,
    ensures
        table(s).contains_key(k) == table(s.take(i)).contains_key(k),
        table(s).contains_key(k) ==> table(s)[k] == table(s.take(i))[k],
    decreases s.len(),
{
    if s.len() == i {
        assert(s.take(i) =~= s);
    } else {
        lemma_table_suffix(s.drop_last(), i, k);
        assert(s.drop_last().take(i) =~= s.take(i));
    }
}

/// Where the entry at `i` is the last one for `k`, the table maps `k` to its value.
pub(crate) proof fn lemma_table_hit<V>(s: Seq<(Seq<char>, V)>, i: int, k: Seq<char>)
    requires
        0 <= i < s.len(),
        s[i].0 == k,
        forall|j: int| i < j < s.len() ==> s[j].0 != k,
    ensures
        table(s).contains_key(k),
        table(s)[k] == s[i].1,
{
    lemma_table_suffix(s, i + 1, k);
    assert(s.take(i + 1).drop_last() =~= s.take(i));
}

impl Analysis {
    pub fn new(src: String, filename: String) -> (r: Self)
        ensures
            r@.functions == Map::<Seq<char>, SigView>::empty(),
            r@.variables == Map::<Seq<char>, Type>::empty(),
            r@.diagnostics == Seq::<TypeError>::empty(),
            r.source() == src,
            r.filename() == filename,
    {
        let r = Self {
            functions: Vec::new(),
            variables: Vec::new(),
            source: src,
            filename: filename,
            diagnostics: Vec::new(),
        };
        assert(function_entries(r.functions@) =~= Seq::empty());
        assert(variable_entries(r.variables@) =~= Seq::empty());
        r
    }

    pub closed spec fn source(&self) -> String {
        self.source
    }

    pub closed spec fn filename(&self) -> String {
        self.filename
    }

    /// The index of the entry that the signature table holds for `name`.
    fn find_function(&self, name: &String) -> (r: Option<usize>)
        ensures
            match r {
                Some(i) => {
                    &&& i < self.functions.len()
                    &&& self@.functions.contains_key(name@)
                    &&& self@.functions[name@] == self.functions@[i as int].1@
                },
                None => !self@.functions.contains_key(name@),
            },
    {
        let ghost entries = function_entries(self.functions@);
        let mut i: usize = self.functions.len();
        while i > 0
            invariant
                i <= self.functions.len(),
                entries == function_entries(self.functions@),
                forall|j: int| i <= j < entries.len() ==> entries[j].0 != name@,
            decreases i,
        {
            if self.functions[i - 1].0 == *name {
                proof {
                    lemma_table_hit(entries, i - 1, name@);
                }
                return Some(i - 1);
            }
            i = i - 1;
        }
        proof {
            lemma_table_suffix(entries, 0, name@);
        }
        None
    }

    /// The index of the entry that the variable table holds for `name`.
    fn find_variable(&self, name: &String) -> (r: Option<usize>)
        ensures
            match r {
                Some(i) => {
                    &&& i < self.variables.len()
                    &&& self@.variables.contains_key(name@)
                    &&& self@.variables[name@] == self.variables@[i as int].1.ty
                },
                None => !self@.variables.contains_key(name@),
            },
    {
        let ghost entries = variable_entries(self.variables@);
        let mut i: usize = self.variables.len();
        while i > 0
            invariant
                i <= self.variables.len(),
                entries == variable_entries(self.variables@),
                forall|j: int| i <= j < entries.len() ==> entries[j].0 != name@,
            decreases i,
        {
            if self.variables[i - 1].0 == *name {
                proof {
                    lemma_table_hit(entries, i - 1, name@);
                }
                return Some(i - 1);
            }
            i = i - 1;
        }
        proof {
            lemma_table_suffix(entries, 0, name@);
        }
        None
    }

    /// The signature registered under `name`, if any.
    pub fn function(&self, name: &String) -> (r: Option<&FuncSig>)
        ensures
            match r {
                Some(f) => self@.functions.contains_key(name@) && self@.functions[name@] == f@,
                None => !self@.functions.contains_key(name@),
            },
    {
        match self.find_function(name) {
            Some(i) => Some(&self.functions[i].1),
            None => None,
        }
    }

    /// The binding recorded for `name`, if any.
    pub fn variable(&self, name: &String) -> (r: Option<VarSig>)
        ensures
            match r {
                Some(v) => self@.variables.contains_key(name@) && self@.variables[name@] == v.ty,
                None => !self@.variables.contains_key(name@),
            },
    {
        match self.find_variable(name) {
            Some(i) => Some(self.variables[i].1),
            None => None,
        }
    }
}

impl Analysis {
    fn report(&mut self, d: TypeError)
        ensures
            final(self)@ == old(self)@.report(d),
            final(self).functions == old(self).functions,
    {
        self.diagnostics.push(d);
    }

    fn bind(&mut self, name: &String, ty: Type)
        ensures
            final(self)@ == old(self)@.bind(name@, ty),
    {
        let ghost before = self.variables@;
        self.variables.push((name.clone(), VarSig { ty }));
        assert(variable_entries(self.variables@).drop_last() =~= variable_entries(before));
    }

    fn declare(&mut self, name: &String, sig: FuncSig)
        ensures
            final(self)@ == (AnalysisView {
                functions: old(self)@.functions.insert(name@, sig@),
                ..old(self)@
            }),
    {
        let ghost before = self.functions@;
        self.functions.push((name.clone(), sig));
        assert(function_entries(self.functions@).drop_last() =~= function_entries(before));
    }

    /// The diagnostics found so far, in the order they were found.
    pub fn diagnostics(&self) -> (r: &Vec<TypeError>)
        ensures
            r@ == self@.diagnostics,
    {
        &self.diagnostics
    }

    /// The diagnostics found, in order, giving up the analyzer.
    pub fn into_diagnostics(self) -> (r: Vec<TypeError>)
        ensures
            r@ == self@.diagnostics,
    {
        self.diagnostics
    }

    /// How many diagnostics have been found.
    pub fn error_count(&self) -> (r: usize)
        ensures
            r == self@.diagnostics.len(),
    {
        self.diagnostics.len()
    }

    /// The source text that the diagnostics point into.
    pub fn source_text(&self) -> (r: &String)
        ensures
            *r == self.source(),
    {
        &self.source
    }

    /// The name of the file the source was read from.
    pub fn file_name(&self) -> (r: &String)
        ensures
            *r == self.filename(),
    {
        &self.filename
    }
}

/// The signature that a declaration with these parameters records.
fn signature_from(params: &Vec<(Parameter, Span)>, ret: Type, span: Span) -> (r: FuncSig)
    ensures
        r@ == signature_of(params@, ret, span),
{
    let mut types: Vec<(Type, Span)> = Vec::new();
    let mut i: usize = 0;
    while i < params.len()
        invariant
            i <= params.len(),
            types@ =~= params@.take(i as int).map_values(|p: (Parameter, Span)| (p.0.typename, p.1)),
        decreases params.len() - i,
    {
        types.push((params[i].0.typename, params[i].1));
        i = i + 1;
        assert(params@.take(i as int).drop_last() =~= params@.take(i - 1));
    }
    assert(params@.take(i as int) =~= params@);
    FuncSig { return_type: ret, param_types: types, error_metadata: span }
}

/// The variable bindings that the parameters make on entry to a function body.
fn parameter_bindings(params: &Vec<(Parameter, Span)>) -> (r: Vec<(String, VarSig)>)
    ensures
        table(variable_entries(r@)) == parameter_table(params@),
{
    let mut out: Vec<(String, VarSig)> = Vec::new();
    let mut i: usize = 0;
    while i < params.len()
        invariant
            i <= params.len(),
            variable_entries(out@) =~= params@.take(i as int).map_values(
                |p: (Parameter, Span)| (p.0.name@, p.0.typename),
            ),
        decreases params.len() - i,
    {
        let ghost before = out@;
        let name = params[i].0.name.clone();
        out.push((name, VarSig { ty: params[i].0.typename }));
        assert(variable_entries(out@) =~= variable_entries(before).push(
            (params@[i as int].0.name@, params@[i as int].0.typename),
        ));
        i = i + 1;
        assert(params@.take(i as int).drop_last() =~= params@.take(i - 1));
    }
    assert(params@.take(i as int) =~= params@);
    out
}

/// Checks a call after its arguments: the callee must be registered, the argument count
/// must match, and each argument's type must match its parameter's.
fn check_call(name: &String, args: &Vec<Expr>, name_span: Span, args_span: Span, a: &mut Analysis)
    requires
        all_well_formed(args@),
    ensures
        final(a)@ == old(a)@.report_all(
            call_diagnostics(*name, args@, name_span, args_span, old(a)@.functions, old(a)@.variables),
        ),
{
    let ghost s0 = a@;
    proof {
        lemma_all_well_formed(args@);
    }
    match a.find_function(name) {
        None => {
            a.report(TypeError::FunctionDoesNotExist(name.clone(), name_span));
            assert(s0.diagnostics.push(TypeError::FunctionDoesNotExist(*name, name_span))
                =~= s0.diagnostics + seq![TypeError::FunctionDoesNotExist(*name, name_span)]);
        },
        Some(fi) => {
            let ghost params = s0.functions[name@].params;
            let n = a.functions[fi].1.param_types.len();
            let m = args.len();
            let ghost arity = if m != n {
                seq![TypeError::ArityMismatch(args_span, n, m)]
            } else {
                Seq::<TypeError>::empty()
            };
            if m != n {
                a.report(TypeError::ArityMismatch(args_span, n, m));
            }
            assert(a@.diagnostics =~= s0.diagnostics + arity);
            let k = if m < n { m } else { n };
            let mut i: usize = 0;
            while i < k
                invariant
                    i <= k,
                    k <= m,
                    k <= n,
                    m == args.len(),
                    fi < a.functions.len(),
                    n == a.functions@[fi as int].1.param_types@.len(),
                    a.functions@[fi as int].1@.params == params,
                    a@.functions == s0.functions,
                    a@.variables == s0.variables,
                    forall|j: int| 0 <= j < args.len() ==> #[trigger] well_formed(args[j]),
                    a@.diagnostics =~= s0.diagnostics + arity + argument_mismatches(
                        args@,
                        params,
                        i as nat,
                        s0.functions,
                        s0.variables,
                    ),
                decreases k - i,
            {
                let (pty, pspan) = a.functions[fi].1.param_types[i];
                let aty = infer_type(&args[i], a);
                if aty != pty {
                    assert(well_formed(args@[i as int]));
                    proof {
                        lemma_well_formed_has_span(args@[i as int]);
                    }
                    let at = args[i].expression_range();
                    a.report(TypeError::ArgumentTypeMismatch(pspan, at, pty, aty));
                }
                i = i + 1;
            }
            assert(a@.diagnostics =~= s0.diagnostics + call_diagnostics(
                *name,
                args@,
                name_span,
                args_span,
                s0.functions,
                s0.variables,
            ));
        },
    }
}

/// Checks that the operands of a binary operator have the same type.
fn check_operands(l: &Expr, r: &Expr, a: &mut Analysis)
    requires
        well_formed(*l),
        well_formed(*r),
    ensures
        final(a)@ == operand_check(*l, *r, old(a)@),
{
    let tl = infer_type(l, a);
    let tr = infer_type(r, a);
    if tl != tr {
        proof {
            lemma_well_formed_has_span(*l);
            lemma_well_formed_has_span(*r);
        }
        let sl = l.expression_range();
        let sr = r.expression_range();
        a.report(TypeError::OperandTypeMismatch(sl, sr, tl, tr));
    }
}

/// Checks a sequence of statements in order.
fn check_all(es: &Vec<Expr>, a: &mut Analysis)
    requires
        all_well_formed(es@),
    ensures
        final(a)@ == checked_all(es@, old(a)@),
    decreases es,
{
    let ghost s0 = a@;
    proof {
        lemma_all_well_formed(es@);
    }
    let mut i: usize = 0;
    while i < es.len()
        invariant
            i <= es.len(),
            forall|j: int| 0 <= j < es.len() ==> #[trigger] well_formed(es[j]),
            a@ == checked_all(es@.take(i as int), s0),
        decreases es.len() - i,
    {
        check_expr(&es[i], a);
        i = i + 1;
        assert(es@.take(i as int).subrange(0, i - 1) =~= es@.take(i - 1));
    }
    assert(es@.take(i as int) =~= es@);
}

/// Checks `e` against the analyzer's tables, recording what it declares and binds and every
/// diagnostic it finds; a diagnostic never stops the walk.
pub fn check_expr(e: &Expr, a: &mut Analysis)
    requires
        well_formed(*e),
    ensures
        final(a)@ == checked(*e, old(a)@),
    decreases e,
{
    match e {
        Expr::Function(name, params, ret, body, span) => {
            let ghost s0 = a@;
            let sig = signature_from(params, *ret, *span);
            a.declare(name, sig);
            let mut scope = parameter_bindings(params);
            std::mem::swap(&mut a.variables, &mut scope);
            check_all(body, a);
            std::mem::swap(&mut a.variables, &mut scope);
        },
        Expr::Else(body, _) => check_all(body, a),
        Expr::Elif(c, body, _) => {
            check_expr(c, a);
            check_all(body, a);
        },
        Expr::If(c, body, elifs, els, _) => {
            check_expr(c, a);
            check_all(body, a);
            match elifs {
                Some(es) => check_all(es, a),
                None => {},
            }
            match els {
                Some(x) => check_expr(x, a),
                None => {},
            }
        },
        Expr::While(c, body, _) => {
            check_expr(c, a);
            check_all(body, a);
        },
        Expr::List(items, _) => check_all(items, a),
        Expr::Call(name, args, name_span, args_span) => {
            check_all(args, a);
            check_call(name, args, *name_span, *args_span, a);
        },
        Expr::Var(name, span) => {
            if a.find_variable(name).is_none() {
                a.report(TypeError::UnboundVariable(*span));
            }
        },
        Expr::Assign(name, v, _) => {
            check_expr(v, a);
            let t = infer_type(v, a);
            a.bind(name, t);
        },
        Expr::Reassign(name, v, span) => {
            check_expr(v, a);
            if a.find_variable(name).is_none() {
                a.report(TypeError::UnboundVariable(*span));
            }
        },
        Expr::Equality(l, r) => {
            check_expr(l, a);
            check_expr(r, a);
            check_operands(l, r, a);
        },
        Expr::NotEqual(l, r) => {
            check_expr(l, a);
            check_expr(r, a);
            check_operands(l, r, a);
        },
        Expr::GreaterThan(l, r) => {
            check_expr(l, a);
            check_expr(r, a);
            check_operands(l, r, a);
        },
        Expr::LessThan(l, r) => {
            check_expr(l, a);
            check_expr(r, a);
            check_operands(l, r, a);
        },
        Expr::GreaterThanEqual(l, r) => {
            check_expr(l, a);
            check_expr(r, a);
            check_operands(l, r, a);
        },
        Expr::LessThanEqual(l, r) => {
            check_expr(l, a);
            check_expr(r, a);
            check_operands(l, r, a);
        },
        Expr::Addition(l, r) => {
            check_expr(l, a);
            check_expr(r, a);
            check_operands(l, r, a);
        },
        Expr::Subtraction(l, r) => {
            check_expr(l, a);
            check_expr(r, a);
            check_operands(l, r, a);
        },
        Expr::Multiplication(l, r) => {
            check_expr(l, a);
            check_expr(r, a);
            check_operands(l, r, a);
        },
        Expr::Division(l, r) => {
            check_expr(l, a);
            check_expr(r, a);
            check_operands(l, r, a);
        },
        Expr::Power(l, r) => {
            check_expr(l, a);
            check_expr(r, a);
            check_operands(l, r, a);
        },
        _ => {},
    }
}

impl Analysis {
    /// Registers the signature that `e` declares, if it is a function, without checking its
    /// body.
    pub fn register_signature(&mut self, e: &Expr)
        ensures
            final(self)@ == declared(*e, old(self)@),
    {
        match e {
            Expr::Function(name, params, ret, _, span) => {
                let sig = signature_from(params, *ret, *span);
                self.declare(name, sig);
            },
            _ => {},
        }
    }

    /// Analyzes a whole program in two phases: registers every function's signature, then
    /// checks every item in order. Diagnostics accumulate; none stops the analysis.
    pub fn analyze_program(&mut self, program: &Vec<Expr>)
        requires
            all_well_formed(program@),
        ensures
            final(self)@ == analyzed(program@, old(self)@),
    {
        let ghost s0 = self@;
        let mut i: usize = 0;
        while i < program.len()
            invariant
                i <= program.len(),
                self@ == declared_all(program@.take(i as int), s0),
            decreases program.len() - i,
        {
            self.register_signature(&program[i]);
            i = i + 1;
            assert(program@.take(i as int).subrange(0, i - 1) =~= program@.take(i - 1));
        }
        assert(program@.take(i as int) =~= program@);
        check_all(program, self);
    }
}

/// Type inference and checking of expressions against an analyzer's tables.
pub trait Lower {
    /// The node may be handed to the analyzer.
    spec fn lowerable(&self) -> bool;

    /// The type the node has under the given state.
    spec fn inferred(&self, s: AnalysisView) -> Type;

    /// The state after the node has been checked.
    spec fn lowered(&self, s: AnalysisView) -> AnalysisView;

    fn get_type(&self, analysis: &Analysis) -> (r: Type)
        ensures
            r == self.inferred(analysis@),
    ;

    fn lower_expr(&self, analysis: &mut Analysis)
        requires
            self.lowerable(),
        ensures
            final(analysis)@ == self.lowered(old(analysis)@),
    ;
}

impl Lower for Expr {
    open spec fn lowerable(&self) -> bool {
        well_formed(*self)
    }

    open spec fn inferred(&self, s: AnalysisView) -> Type {
        type_of(*self, s.functions, s.variables)
    }

    open spec fn lowered(&self, s: AnalysisView) -> AnalysisView {
        checked(*self, s)
    }

    fn get_type(&self, analysis: &Analysis) -> (r: Type) {
        infer_type(self, analysis)
    }

    fn lower_expr(&self, analysis: &mut Analysis) {
        check_expr(self, analysis)
    }
}

/// The type of `e` under the analyzer's current tables.
pub fn infer_type(e: &Expr, a: &Analysis) -> (r: Type)
    ensures
        r == type_of(*e, a@.functions, a@.variables),
    decreases e,
{
    match e {
        Expr::NoExpr => Type::Void,
        Expr::Number(_, _) => Type::Int,
        Expr::String(_, _) => Type::String,
        Expr::Parameter(p, _) => p.typename,
        Expr::Function(_, _, ret, _, _) => *ret,
        Expr::Else(body, _) => if body.len() > 0 {
            infer_type(&body[body.len() - 1], a)
        } else {
            Type::Void
        },
        Expr::Elif(_, body, _) => if body.len() > 0 {
            infer_type(&body[body.len() - 1], a)
        } else {
            Type::Void
        },
        Expr::If(_, body, _, _, _) => if body.len() > 0 {
            infer_type(&body[body.len() - 1], a)
        } else {
            Type::Void
        },
        Expr::While(_, body, _) => if body.len() > 0 {
            infer_type(&body[body.len() - 1], a)
        } else {
            Type::Void
        },
        Expr::Call(name, _, _, _) => match a.function(name) {
            Some(f) => f.return_type,
            None => Type::Void,
        },
        Expr::List(items, _) => if items.len() > 0 {
            infer_type(&items[0], a)
        } else {
            Type::Void
        },
        Expr::Var(name, _) => match a.variable(name) {
            Some(v) => v.ty,
            None => Type::Void,
        },
        Expr::Assign(_, v, _) => infer_type(v, a),
        Expr::Reassign(_, v, _) => infer_type(v, a),
        Expr::Equality(_, _) => Type::Bool,
        Expr::NotEqual(_, _) => Type::Bool,
        Expr::GreaterThan(_, _) => Type::Bool,
        Expr::LessThan(_, _) => Type::Bool,
        Expr::GreaterThanEqual(_, _) => Type::Bool,
        Expr::LessThanEqual(_, _) => Type::Bool,
        Expr::Addition(_, _) => Type::Number,
        Expr::Subtraction(_, _) => Type::Number,
        Expr::Multiplication(_, _) => Type::Number,
        Expr::Division(_, _) => Type::Number,
        Expr::Power(_, _) => Type::Number,
    }
}

} // verus!
