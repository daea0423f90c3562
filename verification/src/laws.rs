use crate::engine::{
    spec_dispatch_call, spec_eval_at_runtime, spec_eval_line, spec_overlay, CallOut, EnvView,
};
use crate::fastpath::spec_fast_call;
use crate::lex::TokenView;
use crate::parse::{FunView, ItemView};
use crate::postfix::{
    spec_exec_postfix, spec_pop_paren, spec_pop_while, spec_postfix, spec_postfix_go, spec_unary,
    PfOutcome,
};
use crate::value::{add_bits, int_bits, is_nan_bits, is_zero_bits, mul_bits};
use vstd::prelude::*;

verus! {

broadcast use {vstd::std_specs::vec::group_vec_axioms, vstd::seq::group_seq_axioms};

// ---------------------------------------------------------------------------
// Laws of the evaluator.  Each proof function below states, over every
// choice of its inputs, something the library promises of evaluation.
// ---------------------------------------------------------------------------
/// The one-character operator texts are pairwise distinct.
proof fn lemma_op_chars()
    ensures
        seq!['='] != seq!['+'],
        seq!['='] != seq!['-'],
        seq!['='] != seq!['*'],
        seq!['='] != seq!['/'],
        seq!['='] != seq!['('],
        seq!['='] != seq![')'],
        seq!['+'] != seq!['-'],
        seq!['+'] != seq!['*'],
        seq!['+'] != seq!['/'],
        seq!['+'] != seq!['('],
        seq!['+'] != seq![')'],
        seq!['-'] != seq!['*'],
        seq!['-'] != seq!['/'],
        seq!['-'] != seq!['('],
        seq!['-'] != seq![')'],
        seq!['*'] != seq!['/'],
        seq!['*'] != seq!['('],
        seq!['*'] != seq![')'],
        seq!['/'] != seq!['('],
        seq!['/'] != seq![')'],
        seq!['('] != seq![')'],
{
    assert(seq!['='][0] == '=');
    assert(seq!['+'][0] == '+');
    assert(seq!['-'][0] == '-');
    assert(seq!['*'][0] == '*');
    assert(seq!['/'][0] == '/');
    assert(seq!['('][0] == '(');
    assert(seq![')'][0] == ')');
}

/// Multiplication binds before addition: a line `a + b * c` evaluates to
/// `a + (b * c)` over the literals' binary64 values, for every choice of
/// literals, and leaves the environment untouched.
#[verifier::rlimit(100)]
pub proof fn lemma_precedence_mul_before_add(a: i64, b: i64, c: i64, env: EnvView, fuel: nat)
    requires
        fuel >= 1,
    ensures
        ({
            let toks = seq![
                TokenView::IntLit(a),
                TokenView::Oper(seq!['+']),
                TokenView::IntLit(b),
                TokenView::Oper(seq!['*']),
                TokenView::IntLit(c),
            ];
            spec_eval_line(toks, env, fuel) == (
                Some(add_bits(int_bits(a), mul_bits(int_bits(b), int_bits(c)))),
                env,
            )
        }),
{
    let toks = seq![
        TokenView::IntLit(a),
        TokenView::Oper(seq!['+']),
        TokenView::IntLit(b),
        TokenView::Oper(seq!['*']),
        TokenView::IntLit(c),
    ];
    lemma_op_chars();
    let pr = crate::engine::spec_preprocess(toks, 0, Seq::empty(), env, fuel);
    assert(pr is Toks && pr->Toks_1 == env && pr->Toks_0 =~= toks) by {
        reveal_with_fuel(crate::engine::spec_preprocess, 7);
    }
    assert(spec_unary(toks, 0, Seq::empty()) =~= toks) by {
        reveal_with_fuel(spec_unary, 7);
    }
    let pf = seq![
        TokenView::IntLit(a),
        TokenView::IntLit(b),
        TokenView::IntLit(c),
        TokenView::Oper(seq!['*']),
        TokenView::Oper(seq!['+']),
    ];
    assert(spec_postfix(toks) =~= pf) by {
        reveal_with_fuel(spec_postfix_go, 7);
        reveal_with_fuel(spec_pop_while, 4);
        reveal_with_fuel(crate::postfix::spec_drain, 4);
    }
    assert(spec_exec_postfix(pf, 0, Seq::empty(), Seq::empty(), env.vars) == PfOutcome::Done(
        Some(add_bits(int_bits(a), mul_bits(int_bits(b), int_bits(c)))),
        env.vars,
    )) by {
        reveal_with_fuel(spec_exec_postfix, 7);
    }
    assert(spec_eval_line(toks, env, fuel) == (
        Some(add_bits(int_bits(a), mul_bits(int_bits(b), int_bits(c)))),
        env,
    ));
}

/// Parentheses override precedence: a line `( a + b ) * c` evaluates to
/// `(a + b) * c`, for every choice of literals, and leaves the environment
/// untouched.
#[verifier::rlimit(100)]
pub proof fn lemma_parentheses_group(a: i64, b: i64, c: i64, env: EnvView, fuel: nat)
    requires
        fuel >= 1,
    ensures
        ({
            let toks = seq![
                TokenView::Oper(seq!['(']),
                TokenView::IntLit(a),
                TokenView::Oper(seq!['+']),
                TokenView::IntLit(b),
                TokenView::Oper(seq![')']),
                TokenView::Oper(seq!['*']),
                TokenView::IntLit(c),
            ];
            spec_eval_line(toks, env, fuel) == (
                Some(mul_bits(add_bits(int_bits(a), int_bits(b)), int_bits(c))),
                env,
            )
        }),
{
    let toks = seq![
        TokenView::Oper(seq!['(']),
        TokenView::IntLit(a),
        TokenView::Oper(seq!['+']),
        TokenView::IntLit(b),
        TokenView::Oper(seq![')']),
        TokenView::Oper(seq!['*']),
        TokenView::IntLit(c),
    ];
    lemma_op_chars();
    let pr = crate::engine::spec_preprocess(toks, 0, Seq::empty(), env, fuel);
    assert(pr is Toks && pr->Toks_1 == env && pr->Toks_0 =~= toks) by {
        reveal_with_fuel(crate::engine::spec_preprocess, 9);
    }
    assert(spec_unary(toks, 0, Seq::empty()) =~= toks) by {
        reveal_with_fuel(spec_unary, 9);
    }
    let pf = seq![
        TokenView::IntLit(a),
        TokenView::IntLit(b),
        TokenView::Oper(seq!['+']),
        TokenView::IntLit(c),
        TokenView::Oper(seq!['*']),
    ];
    assert(spec_postfix(toks) =~= pf) by {
        reveal_with_fuel(spec_postfix_go, 9);
        reveal_with_fuel(spec_pop_while, 4);
        reveal_with_fuel(spec_pop_paren, 4);
        reveal_with_fuel(crate::postfix::spec_drain, 4);
    }
    assert(spec_exec_postfix(pf, 0, Seq::empty(), Seq::empty(), env.vars) == PfOutcome::Done(
        Some(mul_bits(add_bits(int_bits(a), int_bits(b)), int_bits(c))),
        env.vars,
    )) by {
        reveal_with_fuel(spec_exec_postfix, 9);
    }
    assert(spec_eval_line(toks, env, fuel) == (
        Some(mul_bits(add_bits(int_bits(a), int_bits(b)), int_bits(c))),
        env,
    ));
}

/// Assignment yields its value and chains to the right: `x = y = v` yields
/// `v` and binds first `y`, then `x`, to it, for every pair of names and
/// every literal.
#[verifier::rlimit(100)]
pub proof fn lemma_assignment_chains(
    x: Seq<char>,
    y: Seq<char>,
    v: u64,
    env: EnvView,
    fuel: nat,
)
    requires
        fuel >= 1,
        x.len() > 0,
        y.len() > 0,
    ensures
        ({
            let toks = seq![
                TokenView::Symbol(x),
                TokenView::Oper(seq!['=']),
                TokenView::Symbol(y),
                TokenView::Oper(seq!['=']),
                TokenView::RealLit(v),
            ];
            spec_eval_line(toks, env, fuel) == (
                Some(v),
                EnvView { vars: env.vars.insert(y, v).insert(x, v), funcs: env.funcs },
            )
        }),
{
    let toks = seq![
        TokenView::Symbol(x),
        TokenView::Oper(seq!['=']),
        TokenView::Symbol(y),
        TokenView::Oper(seq!['=']),
        TokenView::RealLit(v),
    ];
    lemma_op_chars();
    let pr = crate::engine::spec_preprocess(toks, 0, Seq::empty(), env, fuel);
    assert(pr is Toks && pr->Toks_1 == env && pr->Toks_0 =~= toks) by {
        reveal_with_fuel(crate::engine::spec_preprocess, 7);
    }
    assert(spec_unary(toks, 0, Seq::empty()) =~= toks) by {
        reveal_with_fuel(spec_unary, 7);
    }
    let pf = seq![
        TokenView::Symbol(x),
        TokenView::Symbol(y),
        TokenView::RealLit(v),
        TokenView::Oper(seq!['=']),
        TokenView::Oper(seq!['=']),
    ];
    assert(spec_postfix(toks) =~= pf) by {
        reveal_with_fuel(spec_postfix_go, 7);
        reveal_with_fuel(spec_pop_while, 4);
        reveal_with_fuel(crate::postfix::spec_drain, 4);
    }
    assert(spec_exec_postfix(pf, 0, Seq::empty(), Seq::empty(), env.vars) == PfOutcome::Done(
        Some(v),
        env.vars.insert(y, v).insert(x, v),
    )) by {
        reveal_with_fuel(spec_exec_postfix, 7);
    }
    assert(spec_eval_line(toks, env, fuel) == (
        Some(v),
        EnvView { vars: env.vars.insert(y, v).insert(x, v), funcs: env.funcs },
    ));
}

/// An unbound variable reads as the zero value rather than failing: a line
/// holding just that name yields the all-clear bit pattern, which encodes
/// 0.0, and changes nothing.
#[verifier::rlimit(100)]
pub proof fn lemma_undefined_variable_reads_zero(u: Seq<char>, env: EnvView, fuel: nat)
    requires
        fuel >= 1,
        !env.vars.contains_key(u),
    ensures
        spec_eval_line(seq![TokenView::Symbol(u)], env, fuel) == (Some(0u64), env),
{
    let toks = seq![TokenView::Symbol(u)];
    lemma_op_chars();
    reveal_with_fuel(crate::engine::spec_preprocess, 3);
    reveal_with_fuel(spec_unary, 3);
    reveal_with_fuel(spec_postfix_go, 3);
    reveal_with_fuel(crate::postfix::spec_drain, 2);
    reveal_with_fuel(spec_exec_postfix, 3);
    assert(spec_eval_line(toks, env, fuel) == (Some(0u64), env));
}

/// A division by zero yields no result, and an assignment waiting for that
/// result binds nothing: after `x = a / z` with a zero divisor, the whole
/// environment is exactly what it was.
#[verifier::rlimit(100)]
pub proof fn lemma_division_by_zero_yields_nothing(
    x: Seq<char>,
    a: i64,
    z: u64,
    env: EnvView,
    fuel: nat,
)
    requires
        fuel >= 1,
        is_zero_bits(z),
    ensures
        ({
            let toks = seq![
                TokenView::Symbol(x),
                TokenView::Oper(seq!['=']),
                TokenView::IntLit(a),
                TokenView::Oper(seq!['/']),
                TokenView::RealLit(z),
            ];
            spec_eval_line(toks, env, fuel) == (None::<u64>, env)
        }),
{
    let toks = seq![
        TokenView::Symbol(x),
        TokenView::Oper(seq!['=']),
        TokenView::IntLit(a),
        TokenView::Oper(seq!['/']),
        TokenView::RealLit(z),
    ];
    lemma_op_chars();
    let pr = crate::engine::spec_preprocess(toks, 0, Seq::empty(), env, fuel);
    assert(pr is Toks && pr->Toks_1 == env && pr->Toks_0 =~= toks) by {
        reveal_with_fuel(crate::engine::spec_preprocess, 7);
    }
    assert(spec_unary(toks, 0, Seq::empty()) =~= toks) by {
        reveal_with_fuel(spec_unary, 7);
    }
    let pf = seq![
        TokenView::Symbol(x),
        TokenView::IntLit(a),
        TokenView::RealLit(z),
        TokenView::Oper(seq!['/']),
        TokenView::Oper(seq!['=']),
    ];
    assert(spec_postfix(toks) =~= pf) by {
        reveal_with_fuel(spec_postfix_go, 7);
        reveal_with_fuel(spec_pop_while, 4);
        reveal_with_fuel(crate::postfix::spec_drain, 4);
    }
    assert(spec_exec_postfix(pf, 0, Seq::empty(), Seq::empty(), env.vars) == PfOutcome::Failed(
        crate::postfix::EvalError::DivisionByZero,
        env.vars,
    )) by {
        reveal_with_fuel(spec_exec_postfix, 7);
    }
    assert(spec_eval_line(toks, env, fuel) == (None::<u64>, env));
}

/// A call run by the interpreter restores the caller's variables exactly,
/// whether it yields a value or fails: parameter binding never leaks out.
pub proof fn lemma_call_restores_variables(f: FunView, vals: Seq<u64>, env: EnvView, fuel: nat)
    ensures
        match spec_eval_at_runtime(f, vals, env, fuel) {
            CallOut::Val(_, env2) => env2.vars == env.vars,
            CallOut::Bad(_, env2) => env2.vars == env.vars,
        },
{
}

/// Inside a call, a parameter shadows any global of the same name: the
/// overlay binds each pairwise-distinct parameter to its argument, whatever
/// the globals held.
pub proof fn lemma_parameter_shadows_global(
    params: Seq<Seq<char>>,
    vals: Seq<u64>,
    base: Map<Seq<char>, u64>,
    j: int,
    n: nat,
)
    requires
        params.len() == vals.len(),
        n <= params.len(),
        0 <= j < n,
        forall|p: int, q: int| 0 <= p < q < params.len() ==> params[p] != params[q],
    ensures
        spec_overlay(params, vals, n, base).contains_key(params[j]),
        spec_overlay(params, vals, n, base)[params[j]] == vals[j],
    decreases n,
{
    if j == n - 1 {
    } else {
        lemma_parameter_shadows_global(params, vals, base, j, (n - 1) as nat);
    }
}

/// A call-free function over the fast path reads the environment and never
/// writes it: dispatching it yields its value and the untouched
/// environment, so re-running it with the same arguments, however many
/// times and with whatever fuel, yields the same value every time.
pub proof fn lemma_fast_path_idempotent(
    f: FunView,
    vals: Seq<u64>,
    env: EnvView,
    fuel1: nat,
    fuel2: nat,
)
    requires
        vals.len() == f.params.len(),
        f.params.len() <= 5,
        !crate::analysis::spec_block_has_call(f.body, env.funcs.dom()),
        spec_fast_call(f, vals, env.vars, env.funcs.dom()) is Val,
        !is_nan_bits(spec_fast_call(f, vals, env.vars, env.funcs.dom())->Val_0),
    ensures
        spec_dispatch_call(f, vals, env, fuel1) == CallOut::Val(
            spec_fast_call(f, vals, env.vars, env.funcs.dom())->Val_0,
            env,
        ),
        spec_dispatch_call(f, vals, env, fuel1) == spec_dispatch_call(f, vals, env, fuel2),
{
}

// ---------------------------------------------------------------------------
// The two execution strategies agree.
// ---------------------------------------------------------------------------
/// The interpreter's overlay and the fast path's two-level lookup see the
/// same store: a name reads as its parameter binding when it has one, else
/// as its global value.
pub open spec fn lookup_agree(
    vars: Map<Seq<char>, u64>,
    params: Map<Seq<char>, u64>,
    globals: Map<Seq<char>, u64>,
) -> bool {
    forall|k: Seq<char>|
        #![trigger vars.contains_key(k)]
        #![trigger params.contains_key(k)]
        {
            &&& (vars.contains_key(k) <==> (params.contains_key(k) || globals.contains_key(k)))
            &&& (params.contains_key(k) ==> vars.contains_key(k) && vars[k] == params[k])
            &&& (!params.contains_key(k) && globals.contains_key(k) ==> vars.contains_key(k)
                && vars[k] == globals[k])
        }
}

/// Binding parameters over the globals is the same store as keeping them
/// beside the globals and reading parameters first.
pub proof fn lemma_overlay_lookup(
    params: Seq<Seq<char>>,
    vals: Seq<u64>,
    j: nat,
    base: Map<Seq<char>, u64>,
)
    requires
        j <= params.len(),
        j <= vals.len(),
    ensures
        lookup_agree(
            spec_overlay(params, vals, j, base),
            crate::fastpath::spec_bind_upto(params, vals, j),
            base,
        ),
    decreases j,
{
    if j > 0 {
        lemma_overlay_lookup(params, vals, (j - 1) as nat, base);
    }
}

/// On a postfix run that both machines finish, they finish with the same
/// value, and the interpreting machine leaves the variables alone.
proof fn lemma_pf_agree(
    toks: Seq<TokenView>,
    i: nat,
    vals: Seq<u64>,
    marks: Seq<Seq<char>>,
    vars: Map<Seq<char>, u64>,
    params: Map<Seq<char>, u64>,
    globals: Map<Seq<char>, u64>,
)
    requires
        lookup_agree(vars, params, globals),
        spec_exec_postfix(toks, i, vals, marks, vars) is Done,
        crate::fastpath::spec_fast_postfix(toks, i, vals, params, globals) is Val,
    ensures
        spec_exec_postfix(toks, i, vals, marks, vars) == PfOutcome::Done(
            Some(crate::fastpath::spec_fast_postfix(toks, i, vals, params, globals)->Val_0),
            vars,
        ),
    decreases toks.len() - i,
{
    lemma_op_chars();
    if i >= toks.len() {
    } else {
        let t = toks[i as int];
        match t {
            TokenView::IntLit(v) => {
                lemma_pf_agree(
                    toks,
                    i + 1,
                    vals.push(int_bits(v)),
                    marks.push(Seq::empty()),
                    vars,
                    params,
                    globals,
                );
            },
            TokenView::RealLit(b) => {
                lemma_pf_agree(
                    toks,
                    i + 1,
                    vals.push(b),
                    marks.push(Seq::empty()),
                    vars,
                    params,
                    globals,
                );
            },
            TokenView::Symbol(name) => {
                assert(vars.contains_key(name) <==> (params.contains_key(name)
                    || globals.contains_key(name)));
                let v1 = if vars.contains_key(name) {
                    vars[name]
                } else {
                    0u64
                };
                let v2 = if params.contains_key(name) {
                    params[name]
                } else if globals.contains_key(name) {
                    globals[name]
                } else {
                    0u64
                };
                assert(v1 == v2);
                lemma_pf_agree(toks, i + 1, vals.push(v1), marks.push(name), vars, params, globals);
            },
            TokenView::Text(_) => {
                assert(false);
            },
            TokenView::Oper(op) => {
                if op == seq!['+'] || op == seq!['-'] || op == seq!['*'] || op == seq!['/'] {
                    if vals.len() >= 2 {
                        let b = vals.last();
                        let a = vals[vals.len() - 2];
                        if op == seq!['/'] && is_zero_bits(b) {
                            assert(spec_exec_postfix(toks, i, vals, marks, vars) is Failed);
                        } else {
                            let r = if op == seq!['+'] {
                                add_bits(a, b)
                            } else if op == seq!['-'] {
                                crate::value::sub_bits(a, b)
                            } else if op == seq!['*'] {
                                mul_bits(a, b)
                            } else {
                                crate::value::div_bits(a, b)
                            };
                            lemma_pf_agree(
                                toks,
                                i + 1,
                                vals.drop_last().drop_last().push(r),
                                crate::postfix::marks_after_binop(marks),
                                vars,
                                params,
                                globals,
                            );
                        }
                    } else {
                        lemma_pf_agree(toks, i + 1, vals, marks, vars, params, globals);
                    }
                } else {
                    assert(crate::fastpath::spec_fast_postfix(toks, i, vals, params, globals)
                        is Bad);
                }
            },
        }
    }
}

/// Where no line of a token run calls a stored function, the call pre-pass
/// hands the tokens through unchanged, provided it finishes at all.
proof fn lemma_preprocess_identity(
    toks: Seq<TokenView>,
    i: nat,
    out: Seq<TokenView>,
    env: EnvView,
    fuel: nat,
)
    requires
        fuel >= 1,
        i <= toks.len(),
        !crate::analysis::spec_line_has_call(toks, env.funcs.dom()),
        crate::engine::spec_preprocess(toks, i, out, env, fuel) is Toks,
    ensures
        crate::engine::spec_preprocess(toks, i, out, env, fuel) == crate::engine::PrepOut::Toks(
            out + toks.skip(i as int),
            env,
        ),
    decreases toks.len() - i,
{
    if i >= toks.len() {
        assert(out + toks.skip(i as int) =~= out);
    } else {
        let t = toks[i as int];
        if i + 1 < toks.len() && crate::parse::is_sym(t) && crate::parse::is_op1(
            toks[i as int + 1],
            '(',
        ) {
            let name = crate::parse::sym_text(t);
            if env.funcs.dom().contains(name) {
                assert(crate::analysis::spec_line_has_call(toks, env.funcs.dom())) by {
                    assert(crate::parse::is_sym(toks[i as int]) && crate::parse::is_op1(
                        toks[i as int + 1],
                        '(',
                    ) && env.funcs.dom().contains(crate::parse::sym_text(toks[i as int])));
                }
            } else {
                assert(!env.funcs.contains_key(name));
                assert(crate::engine::spec_exec_fn_call(
                    name,
                    crate::parse::spec_args(toks, i + 2, 0, Seq::empty(), Seq::empty()).0,
                    env,
                    (fuel - 1) as nat,
                ) is Bad);
            }
        } else {
            lemma_preprocess_identity(toks, i + 1, out.push(t), env, fuel);
            assert(out.push(t) + toks.skip(i as int + 1) =~= out + toks.skip(i as int));
        }
    }
}

/// The two execution strategies agree: a function whose body is one
/// call-free line yields, whenever both the fast path and the interpreter
/// finish it, the same value over either, for every choice of arguments and
/// environment.
pub proof fn lemma_dual_paths_agree(f: FunView, vals: Seq<u64>, env: EnvView, fuel: nat)
    requires
        f.body.items.len() == 1,
        f.body.items[0] is Line,
        vals.len() == f.params.len(),
        fuel >= 3,
        spec_fast_call(f, vals, env.vars, env.funcs.dom()) is Val,
        spec_eval_at_runtime(f, vals, env, fuel) is Val,
    ensures
        spec_eval_at_runtime(f, vals, env, fuel)->Val_0 == spec_fast_call(
            f,
            vals,
            env.vars,
            env.funcs.dom(),
        )->Val_0,
        spec_eval_at_runtime(f, vals, env, fuel)->Val_1.vars == env.vars,
{
    let toks = f.body.items[0]->Line_0;
    let dom = env.funcs.dom();
    let bind = crate::fastpath::spec_bind(f.params, vals);
    // the fast side, piece by piece
    reveal_with_fuel(crate::fastpath::spec_fast_block, 3);
    assert(!crate::analysis::spec_line_has_call(toks, dom));
    let fl = crate::fastpath::spec_fast_line(toks, bind, env.vars);
    assert(fl is Val);
    let v = fl->Val_0;
    assert(spec_fast_call(f, vals, env.vars, dom)->Val_0 == v);
    // the interpreted side
    let bound = spec_overlay(f.params, vals, crate::engine::overlay_len(f.params, vals), env.vars);
    let envb = EnvView { vars: bound, funcs: env.funcs };
    let fuel1 = (fuel - 1) as nat;
    let fuel2 = (fuel - 2) as nat;
    reveal_with_fuel(crate::engine::spec_eval_block_pre, 3);
    let line_out = spec_eval_line(toks, envb, fuel2);
    let pr = crate::engine::spec_preprocess(toks, 0, Seq::empty(), envb, fuel2);
    assert(pr is Toks) by {
        if pr is Bad {
            assert(spec_eval_at_runtime(f, vals, env, fuel) is Bad);
        }
    }
    lemma_preprocess_identity(toks, 0, Seq::empty(), envb, fuel2);
    assert(pr->Toks_0 =~= toks);
    let pf = spec_postfix(spec_unary(toks, 0, Seq::empty()));
    let ex = spec_exec_postfix(pf, 0, Seq::empty(), Seq::empty(), bound);
    assert(ex is Done) by {
        if ex is Failed {
            assert(spec_eval_at_runtime(f, vals, env, fuel) is Bad);
        }
    }
    assert(crate::fastpath::spec_fast_postfix(pf, 0, Seq::empty(), bind, env.vars) is Val);
    lemma_overlay_lookup(f.params, vals, f.params.len(), env.vars);
    lemma_pf_agree(pf, 0, Seq::empty(), Seq::empty(), bound, bind, env.vars);
    assert(ex == PfOutcome::Done(Some(v), bound));
    assert(line_out == (Some(v), envb));
    assert(spec_eval_at_runtime(f, vals, env, fuel)->Val_0 == v);
}

/// The dispatcher's choice of strategy does not matter: for a function whose
/// body is one call-free line, within the native path's capability limits,
/// whenever both strategies finish, the dispatched call returns exactly the
/// value the interpreter would have returned, and the environment it started
/// from.
pub proof fn lemma_dispatch_strategies_agree(f: FunView, vals: Seq<u64>, env: EnvView, fuel: nat)
    requires
        f.body.items.len() == 1,
        f.body.items[0] is Line,
        vals.len() == f.params.len(),
        f.params.len() <= 5,
        fuel >= 3,
        !crate::analysis::spec_block_has_call(f.body, env.funcs.dom()),
        spec_fast_call(f, vals, env.vars, env.funcs.dom()) is Val,
        !is_nan_bits(spec_fast_call(f, vals, env.vars, env.funcs.dom())->Val_0),
        spec_eval_at_runtime(f, vals, env, fuel) is Val,
    ensures
        spec_dispatch_call(f, vals, env, fuel) == CallOut::Val(
            spec_eval_at_runtime(f, vals, env, fuel)->Val_0,
            env,
        ),
{
    lemma_fast_path_idempotent(f, vals, env, fuel, fuel);
    lemma_dual_paths_agree(f, vals, env, fuel);
}

/// Every item from position `i` on is a line and, run in order by the
/// interpreter, each yields a value.
pub open spec fn lines_yield(items: Seq<ItemView>, i: nat, env: EnvView, fuel: nat) -> bool
    decreases items.len() - i,
{
    if fuel == 0 {
        false
    } else if i >= items.len() {
        true
    } else {
        match items[i as int] {
            ItemView::Line(toks) => {
                let (o, env2) = spec_eval_line(toks, env, (fuel - 1) as nat);
                o is Some && lines_yield(items, i + 1, env2, fuel)
            },
            _ => false,
        }
    }
}

/// Both machines, walked over a block of lines together: where the fast
/// path finishes and every interpreted line yields a value, the interpreter
/// finishes with the fast path's value and the store untouched.
proof fn lemma_block_lines_agree(
    items: Seq<ItemView>,
    i: nat,
    last_i: Option<u64>,
    last_f: u64,
    envb: EnvView,
    bind: Map<Seq<char>, u64>,
    globals: Map<Seq<char>, u64>,
    fuel: nat,
)
    requires
        lookup_agree(envb.vars, bind, globals),
        lines_yield(items, i, envb, fuel),
        crate::fastpath::spec_fast_block(items, i, last_f, bind, globals, envb.funcs.dom())
            is Val,
        last_i is Some ==> last_i->0 == last_f,
    ensures
        ({
            let (o, env2) = crate::engine::spec_eval_block_pre(items, i, last_i, false, envb, fuel);
            env2 == envb && (o is Some ==> o->0 == crate::fastpath::spec_fast_block(
                items,
                i,
                last_f,
                bind,
                globals,
                envb.funcs.dom(),
            )->Val_0) && ((i < items.len() || last_i is Some) ==> o is Some)
        }),
    decreases items.len() - i,
{
    if i >= items.len() {
    } else {
        let toks = items[i as int]->Line_0;
        let dom = envb.funcs.dom();
        assert(!crate::analysis::spec_line_has_call(toks, dom));
        let fl = crate::fastpath::spec_fast_line(toks, bind, globals);
        assert(fl is Val);
        let v = fl->Val_0;
        let fuel1 = (fuel - 1) as nat;
        let (o1, env1) = spec_eval_line(toks, envb, fuel1);
        assert(o1 is Some);
        let pr = crate::engine::spec_preprocess(toks, 0, Seq::empty(), envb, fuel1);
        assert(fuel1 >= 1 && pr is Toks) by {
            if fuel1 == 0 || pr is Bad {
                assert(o1 is None);
            }
        }
        lemma_preprocess_identity(toks, 0, Seq::empty(), envb, fuel1);
        assert(pr->Toks_0 =~= toks);
        let pf = spec_postfix(spec_unary(toks, 0, Seq::empty()));
        let ex = spec_exec_postfix(pf, 0, Seq::empty(), Seq::empty(), envb.vars);
        assert(ex is Done) by {
            if ex is Failed {
                assert(o1 is None);
            }
        }
        assert(crate::fastpath::spec_fast_postfix(pf, 0, Seq::empty(), bind, globals) is Val);
        lemma_pf_agree(pf, 0, Seq::empty(), Seq::empty(), envb.vars, bind, globals);
        assert(ex == PfOutcome::Done(Some(v), envb.vars));
        assert(o1 == Some(v) && env1 == envb);
        lemma_block_lines_agree(items, i + 1, Some(v), v, envb, bind, globals, fuel);
    }
}

/// The two execution strategies agree on whole bodies: for a function whose
/// body is lines alone, whenever the fast path finishes it and each line,
/// interpreted in order under the call's parameter binding, yields a value,
/// the interpreter finishes the call with exactly the fast path's value,
/// and hands back the caller's variables exactly.
pub proof fn lemma_dual_paths_agree_general(f: FunView, vals: Seq<u64>, env: EnvView, fuel: nat)
    requires
        f.body.items.len() > 0,
        vals.len() == f.params.len(),
        fuel >= 2,
        spec_fast_call(f, vals, env.vars, env.funcs.dom()) is Val,
        lines_yield(
            f.body.items,
            0,
            EnvView {
                vars: spec_overlay(
                    f.params,
                    vals,
                    crate::engine::overlay_len(f.params, vals),
                    env.vars,
                ),
                funcs: env.funcs,
            },
            (fuel - 1) as nat,
        ),
    ensures
        spec_eval_at_runtime(f, vals, env, fuel) == CallOut::Val(
            spec_fast_call(f, vals, env.vars, env.funcs.dom())->Val_0,
            EnvView { vars: env.vars, funcs: env.funcs },
        ),
{
    let bind = crate::fastpath::spec_bind(f.params, vals);
    let bound = spec_overlay(f.params, vals, crate::engine::overlay_len(f.params, vals), env.vars);
    let envb = EnvView { vars: bound, funcs: env.funcs };
    lemma_overlay_lookup(f.params, vals, f.params.len(), env.vars);
    lemma_block_lines_agree(f.body.items, 0, None, 0, envb, bind, env.vars, (fuel - 1) as nat);
}

} // verus!
