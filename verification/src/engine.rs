use crate::analysis::{function_contains_user_function_calls, spec_block_has_call};
use crate::env::{vars_map, vars_set, vars_snapshot, vars_wf, Environment};
use crate::fastpath::{fast_call, spec_fast_call, FastErr, FastOut};
use crate::lex::{lex, spec_lex, LangNumber, LangRealNumber, Token, TokenView};
use crate::parse::{
    fun_view, is_op1, is_sym, items_view, lemma_items_view, parse_block, parse_function_arguments,
    remaining, spec_args, spec_parse, sym_name, sym_text, tok_is_op1, tok_is_sym, FunView, ItemView,
    LangBlockItem, LangFunction,
};
use crate::postfix::{
    execute_postfix_tokens, infix_to_postfix, preprocess_unary_minus, spec_exec_postfix,
    spec_postfix, spec_unary, EvalError, PfOutcome,
};
use crate::text::{dec_str, u64_to_string};
use crate::value::{bits_is_nan, is_nan_bits};
use vstd::prelude::*;
use vstd::string::StringExecFns;

verus! {

broadcast use {vstd::std_specs::vec::group_vec_axioms, vstd::seq::group_seq_axioms};

/// How deep calls may nest before the evaluator gives up.
pub const CALL_FUEL: u64 = 64;

/// The environment's mathematical content: its two tables.
pub struct EnvView {
    pub vars: Map<Seq<char>, u64>,
    pub funcs: Map<Seq<char>, FunView>,
}

impl View for Environment {
    type V = EnvView;

    open spec fn view(&self) -> EnvView {
        EnvView { vars: self.vars(), funcs: self.funcs() }
    }
}

pub enum CallOut {
    Val(u64, EnvView),
    Bad(EvalError, EnvView),
}

pub enum ArgsOut {
    Vals(Seq<u64>, EnvView),
    Bad(EvalError, EnvView),
}

pub enum ExprOut {
    Val(Option<u64>, EnvView),
    Bad(EvalError, EnvView),
}

pub enum PrepOut {
    Toks(Seq<TokenView>, EnvView),
    Bad(EvalError, EnvView),
}

/// The name given to an anonymous function: its parameter count and the
/// count of stored functions, joined under a fixed stem.
pub open spec fn anon_name(params: nat, stored: nat) -> Seq<char> {
    seq!['f', 'u', 'n', 'c', '_'] + dec_str(params) + seq!['_'] + dec_str(stored)
}

/// Defining a function: its name is bound in the function table, variables
/// untouched; a redefinition overwrites in place.
pub open spec fn spec_store(name: Seq<char>, f: FunView, env: EnvView) -> EnvView {
    EnvView { vars: env.vars, funcs: env.funcs.insert(name, f) }
}

/// The interpreter's parameter overlay: each parameter bound over the
/// caller's variables, position by position.
pub open spec fn spec_overlay(
    params: Seq<Seq<char>>,
    vals: Seq<u64>,
    j: nat,
    base: Map<Seq<char>, u64>,
) -> Map<Seq<char>, u64>
    decreases j,
{
    if j == 0 {
        base
    } else {
        spec_overlay(params, vals, (j - 1) as nat, base).insert(params[j - 1], vals[j - 1])
    }
}

pub open spec fn overlay_len(params: Seq<Seq<char>>, vals: Seq<u64>) -> nat {
    if params.len() <= vals.len() {
        params.len()
    } else {
        vals.len()
    }
}

// ---------------------------------------------------------------------------
// The call dispatcher and the interpreter, as one mutually recursive
// specification.  Every function burns one unit of fuel per cross step, so
// only call chains nested beyond the fuel are cut off, with a depth error.
// ---------------------------------------------------------------------------
/// One function call: look the target up, evaluate the arguments (each with
/// the call pre-pass), check the arity, and choose a path by the static
/// gate: a body that reaches another stored function is interpreted under a
/// parameter overlay; a call-free body takes the fast path, where more than
/// five parameters are a reported capability limit, a NaN result is
/// re-raised as a division by zero, and a late `HasCalls` verdict falls
/// back silently to the interpreter.
pub open spec fn spec_exec_fn_call(
    name: Seq<char>,
    args: Seq<Seq<TokenView>>,
    env: EnvView,
    fuel: nat,
) -> CallOut
    decreases fuel, 0nat, 0nat,
{
    if fuel == 0 {
        CallOut::Bad(EvalError::DepthLimit, env)
    } else if !env.funcs.contains_key(name) {
        CallOut::Bad(EvalError::UnknownFunction, env)
    } else {
        let f = env.funcs[name];
        match spec_eval_args(args, 0, Seq::empty(), env, (fuel - 1) as nat) {
            ArgsOut::Bad(e, env2) => CallOut::Bad(e, env2),
            ArgsOut::Vals(vals, env2) => spec_dispatch_call(f, vals, env2, (fuel - 1) as nat),
        }
    }
}

/// The dispatch of a call whose argument values are in hand: the arity
/// check, the static choice between the two execution strategies, and the
/// native path's capability limit and NaN policy.
pub open spec fn spec_dispatch_call(f: FunView, vals: Seq<u64>, env: EnvView, fuel: nat) -> CallOut
    decreases fuel, 1nat, 0nat,
{
    if vals.len() != f.params.len() {
        CallOut::Bad(EvalError::ArityMismatch, env)
    } else if spec_block_has_call(f.body, env.funcs.dom()) {
        spec_eval_at_runtime(f, vals, env, fuel)
    } else {
        match spec_fast_call(f, vals, env.vars, env.funcs.dom()) {
            FastOut::Bad(FastErr::HasCalls) => spec_eval_at_runtime(f, vals, env, fuel),
            FastOut::Bad(FastErr::Unsupported) => CallOut::Bad(EvalError::BackendFailure, env),
            FastOut::Val(v) => {
                if f.params.len() > 5 {
                    CallOut::Bad(EvalError::BackendFailure, env)
                } else if is_nan_bits(v) {
                    CallOut::Bad(EvalError::DivisionByZero, env)
                } else {
                    CallOut::Val(v, env)
                }
            },
        }
    }
}

/// The arguments of a call, each one evaluated as a full expression; one
/// that yields no value fails the call.
pub open spec fn spec_eval_args(
    args: Seq<Seq<TokenView>>,
    j: nat,
    acc: Seq<u64>,
    env: EnvView,
    fuel: nat,
) -> ArgsOut
    decreases fuel, args.len() - j, 0nat,
{
    if fuel == 0 {
        ArgsOut::Bad(EvalError::DepthLimit, env)
    } else if j >= args.len() {
        ArgsOut::Vals(acc, env)
    } else {
        match spec_eval_expr(args[j as int], env, (fuel - 1) as nat) {
            ExprOut::Val(Some(v), env2) => spec_eval_args(args, j + 1, acc.push(v), env2, fuel),
            ExprOut::Val(None, env2) => ArgsOut::Bad(EvalError::NoValue, env2),
            ExprOut::Bad(e, env2) => ArgsOut::Bad(e, env2),
        }
    }
}

/// One expression: nested calls are evaluated and their results substituted
/// as literals, unary minus is normalized, the tokens are converted to
/// postfix order and run against the variables.
pub open spec fn spec_eval_expr(toks: Seq<TokenView>, env: EnvView, fuel: nat) -> ExprOut
    decreases fuel, toks.len(), 1nat,
{
    if fuel == 0 {
        ExprOut::Bad(EvalError::DepthLimit, env)
    } else {
        match spec_preprocess(toks, 0, Seq::empty(), env, fuel) {
            PrepOut::Bad(e, env2) => ExprOut::Bad(e, env2),
            PrepOut::Toks(ptoks, env2) => {
                let pf = spec_postfix(spec_unary(ptoks, 0, Seq::empty()));
                match spec_exec_postfix(pf, 0, Seq::empty(), Seq::empty(), env2.vars) {
                    PfOutcome::Done(o, vars2) => ExprOut::Val(
                        o,
                        EnvView { vars: vars2, funcs: env2.funcs },
                    ),
                    PfOutcome::Failed(e, vars2) => ExprOut::Bad(
                        e,
                        EnvView { vars: vars2, funcs: env2.funcs },
                    ),
                }
            },
        }
    }
}

/// The call pre-pass: each `name ( arguments )` in the token run is
/// dispatched and replaced by its numeric result as a real literal.
pub open spec fn spec_preprocess(
    toks: Seq<TokenView>,
    i: nat,
    out: Seq<TokenView>,
    env: EnvView,
    fuel: nat,
) -> PrepOut
    decreases fuel, remaining(toks, i), 0nat,
{
    if fuel == 0 {
        PrepOut::Bad(EvalError::DepthLimit, env)
    } else if i >= toks.len() {
        PrepOut::Toks(out, env)
    } else if i + 1 < toks.len() && is_sym(toks[i as int]) && is_op1(toks[i as int + 1], '(') {
        let name = sym_text(toks[i as int]);
        let (args, ca) = spec_args(toks, i + 2, 0, Seq::empty(), Seq::empty());
        match spec_exec_fn_call(name, args, env, (fuel - 1) as nat) {
            CallOut::Val(v, env2) => spec_preprocess(
                toks,
                i + 2 + ca,
                out.push(TokenView::RealLit(v)),
                env2,
                fuel,
            ),
            CallOut::Bad(e, env2) => PrepOut::Bad(e, env2),
        }
    } else {
        spec_preprocess(toks, i + 1, out.push(toks[i as int]), env, fuel)
    }
}

/// One statement line: a failing expression yields no value, keeping
/// whatever bindings were made before the failure.
pub open spec fn spec_eval_line(toks: Seq<TokenView>, env: EnvView, fuel: nat) -> (
    Option<u64>,
    EnvView,
)
    decreases fuel, toks.len() + 1, 0nat,
{
    match spec_eval_expr(toks, env, fuel) {
        ExprOut::Val(o, env2) => (o, env2),
        ExprOut::Bad(e, env2) => (None, env2),
    }
}

/// A block inside a function body: lines and calls run in order; a line
/// yielding no value keeps the previous last value, a failing call stops
/// the body with no value, definitions are noted but not stored, and a
/// body that held any definition yields no value.
pub open spec fn spec_eval_block_pre(
    items: Seq<ItemView>,
    i: nat,
    last: Option<u64>,
    has_defs: bool,
    env: EnvView,
    fuel: nat,
) -> (Option<u64>, EnvView)
    decreases fuel, items.len() - i, 0nat,
{
    if fuel == 0 {
        (None, env)
    } else if i >= items.len() {
        (
            if has_defs {
                None
            } else {
                last
            },
            env,
        )
    } else {
        match items[i as int] {
            ItemView::Line(toks) => {
                let (o, env2) = spec_eval_line(toks, env, (fuel - 1) as nat);
                spec_eval_block_pre(
                    items,
                    i + 1,
                    if o is Some {
                        o
                    } else {
                        last
                    },
                    has_defs,
                    env2,
                    fuel,
                )
            },
            ItemView::Block(b) => {
                let (o, env2) = spec_eval_block_pre(b.items, 0, None, false, env, (fuel - 1) as nat);
                spec_eval_block_pre(
                    items,
                    i + 1,
                    if o is Some {
                        o
                    } else {
                        last
                    },
                    has_defs,
                    env2,
                    fuel,
                )
            },
            ItemView::Function(_) => spec_eval_block_pre(items, i + 1, last, true, env, fuel),
            ItemView::NamedFunction(_) => spec_eval_block_pre(items, i + 1, last, true, env, fuel),
            ItemView::FunctionCall(c) => {
                match spec_exec_fn_call(c.name, c.args, env, (fuel - 1) as nat) {
                    CallOut::Val(v, env2) => spec_eval_block_pre(
                        items,
                        i + 1,
                        Some(v),
                        has_defs,
                        env2,
                        fuel,
                    ),
                    CallOut::Bad(e, env2) => (None, env2),
                }
            },
        }
    }
}

/// The interpreted path of a call: the parameters are bound over the
/// caller's variables, the body runs, and the variables are restored
/// exactly, whatever happened; a body yielding no value fails the call.
pub open spec fn spec_eval_at_runtime(
    f: FunView,
    vals: Seq<u64>,
    env: EnvView,
    fuel: nat,
) -> CallOut
    decreases fuel, 0nat, 0nat,
{
    if fuel == 0 {
        CallOut::Bad(EvalError::DepthLimit, env)
    } else {
        let bound = spec_overlay(f.params, vals, overlay_len(f.params, vals), env.vars);
        let (o, env2) = spec_eval_block_pre(
            f.body.items,
            0,
            None,
            false,
            EnvView { vars: bound, funcs: env.funcs },
            (fuel - 1) as nat,
        );
        let env3 = EnvView { vars: env.vars, funcs: env2.funcs };
        match o {
            Some(v) => CallOut::Val(v, env3),
            None => CallOut::Bad(EvalError::NoValue, env3),
        }
    }
}

/// A top-level block: lines and nested blocks set the last value (even to
/// nothing), definitions are stored (an anonymous one under a generated
/// name), a failing call clears the last value and evaluation goes on, and
/// a block that held any definition yields no value.
pub open spec fn spec_eval_block(
    items: Seq<ItemView>,
    i: nat,
    last: Option<u64>,
    has_defs: bool,
    env: EnvView,
    fuel: nat,
) -> (Option<u64>, EnvView)
    decreases fuel, items.len() - i, 0nat,
{
    if fuel == 0 {
        (None, env)
    } else if i >= items.len() {
        (
            if has_defs {
                None
            } else {
                last
            },
            env,
        )
    } else {
        match items[i as int] {
            ItemView::Line(toks) => {
                let (o, env2) = spec_eval_line(toks, env, (fuel - 1) as nat);
                spec_eval_block(items, i + 1, o, has_defs, env2, fuel)
            },
            ItemView::Block(b) => {
                let (o, env2) = spec_eval_block(b.items, 0, None, false, env, (fuel - 1) as nat);
                spec_eval_block(items, i + 1, o, has_defs, env2, fuel)
            },
            ItemView::Function(fv) => {
                let name = anon_name(fv.params.len(), env.funcs.dom().len());
                let env2 = spec_store(name, fv, env);
                spec_eval_block(items, i + 1, None, true, env2, fuel)
            },
            ItemView::NamedFunction(nf) => {
                let env2 = spec_store(nf.name, FunView { params: nf.params, body: nf.body }, env);
                spec_eval_block(items, i + 1, None, true, env2, fuel)
            },
            ItemView::FunctionCall(c) => {
                match spec_exec_fn_call(c.name, c.args, env, (fuel - 1) as nat) {
                    CallOut::Val(v, env2) => spec_eval_block(
                        items,
                        i + 1,
                        Some(v),
                        has_defs,
                        env2,
                        fuel,
                    ),
                    CallOut::Bad(e, env2) => spec_eval_block(items, i + 1, None, has_defs, env2, fuel),
                }
            },
        }
    }
}

/// One chunk of source, start to finish: lexed, parsed as a block, and
/// evaluated against the environment; the last produced value comes back,
/// or nothing.  (Token runs longer than the address space are refused.)
pub open spec fn spec_run(text: Seq<char>, env: EnvView, fuel: nat) -> (Option<u64>, EnvView) {
    let toks = spec_lex(text);
    if toks.len() >= usize::MAX - 4 {
        (None, env)
    } else {
        let (items, c) = spec_parse(toks, 0, Seq::empty(), Seq::empty());
        spec_eval_block(items, 0, None, false, env, fuel)
    }
}

// ---------------------------------------------------------------------------
// The executable engine.
// ---------------------------------------------------------------------------
impl Environment {
    /// Dispatches one function call.
    pub fn execute_function_call(&mut self, name: &String, args: &Vec<Vec<Token>>, fuel: u64) -> (r:
        Result<u64, EvalError>)
        requires
            old(self).wf(),
        ensures
            final(self).wf(),
            ({
                let res = spec_exec_fn_call(name@, args.deep_view(), old(self)@, fuel as nat);
                match res {
                    CallOut::Val(v, e2) => r == Ok::<u64, EvalError>(v) && final(self)@ == e2,
                    CallOut::Bad(e, e2) => r == Err::<u64, EvalError>(e) && final(self)@ == e2,
                }
            }),
        decreases fuel, 0nat, 0nat,
    {
        if fuel == 0 {
            return Err(EvalError::DepthLimit);
        }
        match self.get_function(name) {
            None => Err(EvalError::UnknownFunction),
            Some(f) => {
                let acc: Vec<u64> = Vec::new();
                proof {
                    assert(acc@ =~= Seq::<u64>::empty());
                }
                match self.eval_args(args, 0, acc, fuel - 1) {
                    Err(e) => Err(e),
                    Ok(vals) => {
                        if vals.len() != f.parameters.len() {
                            Err(EvalError::ArityMismatch)
                        } else if function_contains_user_function_calls(&f, self) {
                            self.evaluate_function_at_runtime(&f, &vals, fuel - 1)
                        } else {
                            match fast_call(&f, &vals, self) {
                                Err(FastErr::HasCalls) => self.evaluate_function_at_runtime(
                                    &f,
                                    &vals,
                                    fuel - 1,
                                ),
                                Err(FastErr::Unsupported) => Err(EvalError::BackendFailure),
                                Ok(v) => {
                                    if f.parameters.len() > 5 {
                                        Err(EvalError::BackendFailure)
                                    } else if bits_is_nan(v) {
                                        Err(EvalError::DivisionByZero)
                                    } else {
                                        Ok(v)
                                    }
                                },
                            }
                        }
                    },
                }
            },
        }
    }

    /// Evaluates a call's arguments in order.
    fn eval_args(&mut self, args: &Vec<Vec<Token>>, j: usize, acc: Vec<u64>, fuel: u64) -> (r:
        Result<Vec<u64>, EvalError>)
        requires
            old(self).wf(),
        ensures
            final(self).wf(),
            ({
                let res = spec_eval_args(args.deep_view(), j as nat, acc@, old(self)@, fuel as nat);
                match res {
                    ArgsOut::Vals(vs, e2) => r is Ok && r->Ok_0@ == vs && final(self)@ == e2,
                    ArgsOut::Bad(e, e2) => r == Err::<Vec<u64>, EvalError>(e) && final(self)@
                        == e2,
                }
            }),
        decreases fuel, args@.len() - j, 0nat,
    {
        if fuel == 0 {
            return Err(EvalError::DepthLimit);
        }
        if j >= args.len() {
            return Ok(acc);
        }
        match self.eval_expr(&args[j], fuel - 1) {
            Ok(Some(v)) => {
                let mut acc = acc;
                acc.push(v);
                self.eval_args(args, j + 1, acc, fuel)
            },
            Ok(None) => Err(EvalError::NoValue),
            Err(e) => Err(e),
        }
    }

    /// Evaluates one expression's tokens.
    fn eval_expr(&mut self, tokens: &Vec<Token>, fuel: u64) -> (r: Result<Option<u64>, EvalError>)
        requires
            old(self).wf(),
        ensures
            final(self).wf(),
            ({
                let res = spec_eval_expr(tokens.deep_view(), old(self)@, fuel as nat);
                match res {
                    ExprOut::Val(o, e2) => r == Ok::<Option<u64>, EvalError>(o) && final(self)@
                        == e2,
                    ExprOut::Bad(e, e2) => r == Err::<Option<u64>, EvalError>(e) && final(self)@
                        == e2,
                }
            }),
        decreases fuel, tokens@.len(), 1nat,
    {
        if fuel == 0 {
            return Err(EvalError::DepthLimit);
        }
        let out: Vec<Token> = Vec::new();
        proof {
            assert(out.deep_view() =~= Seq::<TokenView>::empty());
        }
        match self.preprocess_tokens_for_function_calls(tokens, 0, out, fuel) {
            Err(e) => Err(e),
            Ok(ptoks) => {
                let normalized = preprocess_unary_minus(&ptoks);
                let pf = infix_to_postfix(&normalized);
                let ghost funcs_before = self@.funcs;
                let r = execute_postfix_tokens(&pf, &mut self.variables);
                proof {
                    assert(self@.funcs == funcs_before);
                }
                r
            },
        }
    }

    /// The call pre-pass over a token run.
    pub fn preprocess_tokens_for_function_calls(
        &mut self,
        tokens: &Vec<Token>,
        i: usize,
        out: Vec<Token>,
        fuel: u64,
    ) -> (r: Result<Vec<Token>, EvalError>)
        requires
            old(self).wf(),
        ensures
            final(self).wf(),
            ({
                let res = spec_preprocess(
                    tokens.deep_view(),
                    i as nat,
                    out.deep_view(),
                    old(self)@,
                    fuel as nat,
                );
                match res {
                    PrepOut::Toks(ts, e2) => r is Ok && r->Ok_0.deep_view() == ts && final(self)@
                        == e2,
                    PrepOut::Bad(e, e2) => r == Err::<Vec<Token>, EvalError>(e) && final(self)@
                        == e2,
                }
            }),
        decreases fuel, remaining(tokens.deep_view(), i as nat), 0nat,
    {
        if fuel == 0 {
            return Err(EvalError::DepthLimit);
        }
        let n = tokens.len();
        if i >= n {
            return Ok(out);
        }
        if i + 1 < n && tok_is_sym(&tokens[i]) && tok_is_op1(&tokens[i + 1], '(') {
            let name = sym_name(&tokens[i]);
            let (args, k) = parse_function_arguments(tokens, i + 2);
            match self.execute_function_call(&name, &args, fuel - 1) {
                Ok(v) => {
                    let ghost before = out.deep_view();
                    let mut out = out;
                    out.push(Token::Number(LangNumber::RealNumber(LangRealNumber { bits: v })));
                    proof {
                        assert(out.deep_view() =~= before.push(TokenView::RealLit(v)));
                    }
                    self.preprocess_tokens_for_function_calls(tokens, k, out, fuel)
                },
                Err(e) => Err(e),
            }
        } else {
            let ghost before = out.deep_view();
            let mut out = out;
            out.push(tokens[i].duplicate());
            proof {
                assert(out.deep_view() =~= before.push(tokens.deep_view()[i as int]));
            }
            self.preprocess_tokens_for_function_calls(tokens, i + 1, out, fuel)
        }
    }

    /// Interprets a call: binds the parameters over the variables, runs the
    /// body, restores the variables exactly.
    pub fn evaluate_function_at_runtime(&mut self, f: &LangFunction, vals: &Vec<u64>, fuel: u64) -> (r:
        Result<u64, EvalError>)
        requires
            old(self).wf(),
        ensures
            final(self).wf(),
            ({
                let res = spec_eval_at_runtime(fun_view(*f), vals@, old(self)@, fuel as nat);
                match res {
                    CallOut::Val(v, e2) => r == Ok::<u64, EvalError>(v) && final(self)@ == e2,
                    CallOut::Bad(e, e2) => r == Err::<u64, EvalError>(e) && final(self)@ == e2,
                }
            }),
        decreases fuel, 0nat, 0nat,
    {
        if fuel == 0 {
            return Err(EvalError::DepthLimit);
        }
        let saved = vars_snapshot(&self.variables);
        let ghost base = self@.vars;
        let bound = if f.parameters.len() <= vals.len() {
            f.parameters.len()
        } else {
            vals.len()
        };
        let mut j: usize = 0;
        while j < bound
            invariant
                bound <= f.parameters@.len(),
                bound <= vals@.len(),
                j <= bound,
                self.wf(),
                vars_map(self.variables@) == spec_overlay(
                    f.parameters.deep_view(),
                    vals@,
                    j as nat,
                    base,
                ),
                self.functions@ == old(self).functions@,
            decreases bound - j,
        {
            vars_set(&mut self.variables, &f.parameters[j], vals[j]);
            proof {
                assert(f.parameters.deep_view()[j as int] == f.parameters@[j as int]@);
            }
            j = j + 1;
        }
        proof {
            assert(vars_map(self.variables@) == spec_overlay(
                f.parameters.deep_view(),
                vals@,
                overlay_len(f.parameters.deep_view(), vals@),
                base,
            ));
        }
        let o = self.eval_block_pre(&f.body.items, 0, None, false, fuel - 1);
        let ghost funcs_after = self@.funcs;
        self.variables = saved;
        proof {
            assert(vars_map(self.variables@) == base);
            assert(vars_wf(self.variables@));
        }
        match o {
            Some(v) => Ok(v),
            None => Err(EvalError::NoValue),
        }
    }

    /// Runs a block inside a function body.
    fn eval_block_pre(
        &mut self,
        items: &Vec<LangBlockItem>,
        i: usize,
        last: Option<u64>,
        has_defs: bool,
        fuel: u64,
    ) -> (r: Option<u64>)
        requires
            old(self).wf(),
        ensures
            final(self).wf(),
            ({
                let res = spec_eval_block_pre(
                    items_view(items@),
                    i as nat,
                    last,
                    has_defs,
                    old(self)@,
                    fuel as nat,
                );
                r == res.0 && final(self)@ == res.1
            }),
        decreases fuel, items@.len() - i, 0nat,
    {
        proof {
            lemma_items_view(items@);
        }
        if fuel == 0 {
            return None;
        }
        if i >= items.len() {
            return if has_defs {
                None
            } else {
                last
            };
        }
        match &items[i] {
            LangBlockItem::Line(l) => {
                let o = self.eval_line(&l.tokens, fuel - 1);
                let last2 = if o.is_some() {
                    o
                } else {
                    last
                };
                self.eval_block_pre(items, i + 1, last2, has_defs, fuel)
            },
            LangBlockItem::Block(b) => {
                let o = self.eval_block_pre(&b.items, 0, None, false, fuel - 1);
                let last2 = if o.is_some() {
                    o
                } else {
                    last
                };
                self.eval_block_pre(items, i + 1, last2, has_defs, fuel)
            },
            LangBlockItem::Function(_) => self.eval_block_pre(items, i + 1, last, true, fuel),
            LangBlockItem::NamedFunction(_) => self.eval_block_pre(items, i + 1, last, true, fuel),
            LangBlockItem::FunctionCall(c) => {
                let args = crate::parse::duplicate_token_runs(&c.arguments);
                match self.execute_function_call(&c.name, &args, fuel - 1) {
                    Ok(v) => self.eval_block_pre(items, i + 1, Some(v), has_defs, fuel),
                    Err(_) => None,
                }
            },
        }
    }

    /// Evaluates one statement line, swallowing its failure into no value.
    fn eval_line(&mut self, tokens: &Vec<Token>, fuel: u64) -> (r: Option<u64>)
        requires
            old(self).wf(),
        ensures
            final(self).wf(),
            ({
                let res = spec_eval_line(tokens.deep_view(), old(self)@, fuel as nat);
                r == res.0 && final(self)@ == res.1
            }),
        decreases fuel, tokens@.len() + 1, 0nat,
    {
        match self.eval_expr(tokens, fuel) {
            Ok(o) => o,
            Err(_) => None,
        }
    }

    /// Stores a function definition under a name: storing never fails,
    /// whatever a later compilation of the body would say.
    pub fn store_named_function(&mut self, name: &String, f: LangFunction)
        requires
            old(self).wf(),
        ensures
            final(self).wf(),
            final(self)@ == spec_store(name@, fun_view(f), old(self)@),
    {
        self.set_function(name, f)
    }

    /// Runs a top-level block.
    fn eval_block(
        &mut self,
        items: &Vec<LangBlockItem>,
        i: usize,
        last: Option<u64>,
        has_defs: bool,
        fuel: u64,
    ) -> (r: Option<u64>)
        requires
            old(self).wf(),
        ensures
            final(self).wf(),
            ({
                let res = spec_eval_block(
                    items_view(items@),
                    i as nat,
                    last,
                    has_defs,
                    old(self)@,
                    fuel as nat,
                );
                r == res.0 && final(self)@ == res.1
            }),
        decreases fuel, items@.len() - i, 0nat,
    {
        proof {
            lemma_items_view(items@);
        }
        if fuel == 0 {
            return None;
        }
        if i >= items.len() {
            return if has_defs {
                None
            } else {
                last
            };
        }
        match &items[i] {
            LangBlockItem::Line(l) => {
                let o = self.eval_line(&l.tokens, fuel - 1);
                self.eval_block(items, i + 1, o, has_defs, fuel)
            },
            LangBlockItem::Block(b) => {
                let o = self.eval_block(&b.items, 0, None, false, fuel - 1);
                self.eval_block(items, i + 1, o, has_defs, fuel)
            },
            LangBlockItem::Function(f) => {
                let pcount = f.parameters.len();
                let fcount = self.function_count();
                let name = anon_name_exec(pcount, fcount);
                let stored = LangFunction {
                    parameters: crate::parse::duplicate_strings(&f.parameters),
                    body: f.body.duplicate(),
                };
                self.store_named_function(&name, stored);
                self.eval_block(items, i + 1, None, true, fuel)
            },
            LangBlockItem::NamedFunction(nf) => {
                let stored = LangFunction {
                    parameters: crate::parse::duplicate_strings(&nf.parameters),
                    body: nf.body.duplicate(),
                };
                self.store_named_function(&nf.name, stored);
                self.eval_block(items, i + 1, None, true, fuel)
            },
            LangBlockItem::FunctionCall(c) => {
                let args = crate::parse::duplicate_token_runs(&c.arguments);
                match self.execute_function_call(&c.name, &args, fuel - 1) {
                    Ok(v) => self.eval_block(items, i + 1, Some(v), has_defs, fuel),
                    Err(_) => self.eval_block(items, i + 1, None, has_defs, fuel),
                }
            },
        }
    }

    /// Parses and runs one chunk of source against this environment,
    /// yielding the last produced value, if any.
    pub fn run(&mut self, line: &str) -> (r: Option<u64>)
        requires
            old(self).wf(),
        ensures
            final(self).wf(),
            ({
                let res = spec_run(line@, old(self)@, CALL_FUEL as nat);
                r == res.0 && final(self)@ == res.1
            }),
    {
        let tokens = lex(line);
        if tokens.len() >= usize::MAX - 4 {
            return None;
        }
        let mut pos: usize = 0;
        let block = parse_block(&tokens, &mut pos);
        self.eval_block(&block.items, 0, None, false, CALL_FUEL)
    }

    /// How many parameters the stored function of that name takes.
    pub fn get_function_param_count(&self, name: &String) -> (r: Option<usize>)
        requires
            self.wf(),
        ensures
            match r {
                Some(n) => self.funcs().contains_key(name@) && n == self.funcs()[name@].params.len(),
                None => !self.funcs().contains_key(name@),
            },
    {
        match self.get_function(name) {
            Some(f) => Some(f.parameters.len()),
            None => None,
        }
    }
}

/// The generated name of an anonymous function.
fn anon_name_exec(params: usize, stored: usize) -> (r: String)
    ensures
        r@ == anon_name(params as nat, stored as nat),
{
    let mut s = u64_to_string(params as u64);
    let t = u64_to_string(stored as u64);
    let mut name = String::new();
    name.append("func_");
    name.append(s.as_str());
    name.append("_");
    name.append(t.as_str());
    proof {
        reveal_strlit("func_");
        reveal_strlit("_");
        assert("func_"@ =~= seq!['f', 'u', 'n', 'c', '_']);
        assert("_"@ =~= seq!['_']);
        assert(name@ =~= anon_name(params as nat, stored as nat));
    }
    name
}

} // verus!
