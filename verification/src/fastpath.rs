use crate::analysis::{contains_user_function_calls_in_line, spec_line_has_call};
use crate::env::{vars_get, vars_map, vars_set, vars_wf, Environment};
use crate::lex::{LangNumber, Token, TokenView};
use crate::parse::{
    fun_view, items_view, lemma_items_view, FunView, ItemView, LangBlockItem, LangFunction,
};
use crate::postfix::{infix_to_postfix, preprocess_unary_minus, spec_postfix, spec_unary, NAN_BITS};
use crate::text::str_is_char;
use crate::value::{
    add_bits, bits_is_zero, div_bits, int_bits, int_to_bits, is_zero_bits, mul_bits, real_add,
    real_div, real_mul, real_sub, sub_bits,
};
use vstd::prelude::*;

verus! {

broadcast use {vstd::std_specs::vec::group_vec_axioms, vstd::seq::group_seq_axioms};

// ---------------------------------------------------------------------------
// The fast path.
//
// A call-free function goes to the native back end, whose contract this
// machine captures: parameters are bound, global values are read, the body's
// lines are folded left to right, and a division's zero check yields a quiet
// NaN rather than stopping.  Assignment, strings, unknown operators, calls
// and nested definitions are not native-compilable; a body that turns out to
// reach another stored function asks for the interpreter instead.
// ---------------------------------------------------------------------------
/// Why native compilation is refused.
#[derive(Clone, Copy, PartialEq, Eq, Structural, Debug)]
pub enum FastErr {
    /// The body reaches another stored function: interpret instead.
    HasCalls,
    /// A construct the back end does not compile.
    Unsupported,
}

/// The yield of the fast path: a value or a refusal.
pub enum FastOut {
    Val(u64),
    Bad(FastErr),
}

/// Runs a postfix sequence on values alone: parameters shadow globals,
/// unbound names count as zero, a zero divisor yields a quiet NaN, and the
/// machine refuses everything the back end cannot compile.  An empty final
/// stack is refused too.
pub open spec fn spec_fast_postfix(
    toks: Seq<TokenView>,
    i: nat,
    vals: Seq<u64>,
    params: Map<Seq<char>, u64>,
    globals: Map<Seq<char>, u64>,
) -> FastOut
    decreases toks.len() - i,
{
    if i >= toks.len() {
        if vals.len() > 0 {
            FastOut::Val(vals.last())
        } else {
            FastOut::Bad(FastErr::Unsupported)
        }
    } else {
        let t = toks[i as int];
        match t {
            TokenView::IntLit(v) => spec_fast_postfix(
                toks,
                i + 1,
                vals.push(int_bits(v)),
                params,
                globals,
            ),
            TokenView::RealLit(b) => spec_fast_postfix(toks, i + 1, vals.push(b), params, globals),
            TokenView::Symbol(name) => {
                let v = if params.contains_key(name) {
                    params[name]
                } else if globals.contains_key(name) {
                    globals[name]
                } else {
                    0
                };
                spec_fast_postfix(toks, i + 1, vals.push(v), params, globals)
            },
            TokenView::Text(_) => FastOut::Bad(FastErr::Unsupported),
            TokenView::Oper(op) => {
                if op == seq!['+'] || op == seq!['-'] || op == seq!['*'] || op == seq!['/'] {
                    if vals.len() >= 2 {
                        let b = vals.last();
                        let a = vals[vals.len() - 2];
                        let r = if op == seq!['+'] {
                            add_bits(a, b)
                        } else if op == seq!['-'] {
                            sub_bits(a, b)
                        } else if op == seq!['*'] {
                            mul_bits(a, b)
                        } else if is_zero_bits(b) {
                            NAN_BITS
                        } else {
                            div_bits(a, b)
                        };
                        spec_fast_postfix(
                            toks,
                            i + 1,
                            vals.drop_last().drop_last().push(r),
                            params,
                            globals,
                        )
                    } else {
                        spec_fast_postfix(toks, i + 1, vals, params, globals)
                    }
                } else {
                    FastOut::Bad(FastErr::Unsupported)
                }
            },
        }
    }
}

/// One line of a call-free body: unary normalization, conversion to
/// postfix, and the value machine.
pub open spec fn spec_fast_line(
    toks: Seq<TokenView>,
    params: Map<Seq<char>, u64>,
    globals: Map<Seq<char>, u64>,
) -> FastOut {
    spec_fast_postfix(
        spec_postfix(spec_unary(toks, 0, Seq::empty())),
        0,
        Seq::empty(),
        params,
        globals,
    )
}

/// A call-free body: its lines fold left to right starting from the zero
/// value; a nested block starts again from zero and yields its own last
/// value.  A line or call that reaches a stored function asks for the
/// interpreter; nested definitions and unknown call targets are refused.
pub open spec fn spec_fast_block(
    items: Seq<ItemView>,
    i: nat,
    last: u64,
    params: Map<Seq<char>, u64>,
    globals: Map<Seq<char>, u64>,
    funcs: Set<Seq<char>>,
) -> FastOut
    decreases items, items.len() - i, 0nat,
{
    if i >= items.len() {
        FastOut::Val(last)
    } else {
        match items[i as int] {
            ItemView::Line(toks) => {
                if spec_line_has_call(toks, funcs) {
                    FastOut::Bad(FastErr::HasCalls)
                } else {
                    match spec_fast_line(toks, params, globals) {
                        FastOut::Val(v) => spec_fast_block(items, i + 1, v, params, globals, funcs),
                        FastOut::Bad(e) => FastOut::Bad(e),
                    }
                }
            },
            ItemView::Block(b) => {
                match spec_fast_block(b.items, 0, 0, params, globals, funcs) {
                    FastOut::Val(v) => spec_fast_block(items, i + 1, v, params, globals, funcs),
                    FastOut::Bad(e) => FastOut::Bad(e),
                }
            },
            ItemView::Function(_) => FastOut::Bad(FastErr::Unsupported),
            ItemView::NamedFunction(_) => FastOut::Bad(FastErr::Unsupported),
            ItemView::FunctionCall(c) => {
                if funcs.contains(c.name) {
                    FastOut::Bad(FastErr::HasCalls)
                } else {
                    FastOut::Bad(FastErr::Unsupported)
                }
            },
        }
    }
}

/// The parameter binding of a call: names bound to values position by
/// position, a later repetition of a name winning.
pub open spec fn spec_bind_upto(params: Seq<Seq<char>>, vals: Seq<u64>, j: nat) -> Map<
    Seq<char>,
    u64,
>
    decreases j,
{
    if j == 0 {
        Map::empty()
    } else {
        spec_bind_upto(params, vals, (j - 1) as nat).insert(
            params[j - 1],
            vals[j - 1],
        )
    }
}

pub open spec fn spec_bind(params: Seq<Seq<char>>, vals: Seq<u64>) -> Map<Seq<char>, u64> {
    spec_bind_upto(
        params,
        vals,
        if params.len() <= vals.len() {
            params.len()
        } else {
            vals.len()
        },
    )
}

/// What the fast path yields for a whole call: the body folded under the
/// call's parameter binding against the current globals.
pub open spec fn spec_fast_call(
    f: FunView,
    vals: Seq<u64>,
    globals: Map<Seq<char>, u64>,
    funcs: Set<Seq<char>>,
) -> FastOut {
    spec_fast_block(f.body.items, 0, 0, spec_bind(f.params, vals), globals, funcs)
}

// ---------------------------------------------------------------------------
// Executable twins.
// ---------------------------------------------------------------------------
fn fast_postfix_go(
    tokens: &Vec<Token>,
    i: usize,
    vals: Vec<u64>,
    params: &Vec<(String, u64)>,
    env: &Environment,
) -> (r: Result<u64, FastErr>)
    requires
        vars_wf(params@),
        env.wf(),
    ensures
        ({
            let res = spec_fast_postfix(
                tokens.deep_view(),
                i as nat,
                vals@,
                vars_map(params@),
                env.vars(),
            );
            match res {
                FastOut::Val(v) => r == Ok::<u64, FastErr>(v),
                FastOut::Bad(e) => r == Err::<u64, FastErr>(e),
            }
        }),
    decreases tokens@.len() - i,
{
    if i >= tokens.len() {
        if vals.len() > 0 {
            Ok(vals[vals.len() - 1])
        } else {
            Err(FastErr::Unsupported)
        }
    } else {
        match &tokens[i] {
            Token::Number(LangNumber::Integer(n)) => {
                let mut vals = vals;
                vals.push(int_to_bits(n.value));
                fast_postfix_go(tokens, i + 1, vals, params, env)
            },
            Token::Number(LangNumber::RealNumber(x)) => {
                let mut vals = vals;
                vals.push(x.bits);
                fast_postfix_go(tokens, i + 1, vals, params, env)
            },
            Token::Symbol(s) => {
                let v = match vars_get(params, &s.value) {
                    Some(v) => v,
                    None => match env.get_variable(&s.value) {
                        Some(v) => v,
                        None => 0,
                    },
                };
                let mut vals = vals;
                vals.push(v);
                fast_postfix_go(tokens, i + 1, vals, params, env)
            },
            Token::Str(_) => Err(FastErr::Unsupported),
            Token::Operator(o) => {
                let plus = str_is_char(&o.value, '+');
                let minus = str_is_char(&o.value, '-');
                let times = str_is_char(&o.value, '*');
                let over = str_is_char(&o.value, '/');
                if plus || minus || times || over {
                    if vals.len() >= 2 {
                        let b = vals[vals.len() - 1];
                        let a = vals[vals.len() - 2];
                        let result = if plus {
                            real_add(a, b)
                        } else if minus {
                            real_sub(a, b)
                        } else if times {
                            real_mul(a, b)
                        } else if bits_is_zero(b) {
                            NAN_BITS
                        } else {
                            real_div(a, b)
                        };
                        let ghost vv = vals@;
                        let mut vals = vals;
                        let n = vals.len();
                        vals.truncate(n - 2);
                        vals.push(result);
                        proof {
                            assert(vals@ =~= vv.drop_last().drop_last().push(result));
                        }
                        fast_postfix_go(tokens, i + 1, vals, params, env)
                    } else {
                        fast_postfix_go(tokens, i + 1, vals, params, env)
                    }
                } else {
                    Err(FastErr::Unsupported)
                }
            },
        }
    }
}

fn fast_line(tokens: &Vec<Token>, params: &Vec<(String, u64)>, env: &Environment) -> (r: Result<
    u64,
    FastErr,
>)
    requires
        vars_wf(params@),
        env.wf(),
    ensures
        ({
            let res = spec_fast_line(tokens.deep_view(), vars_map(params@), env.vars());
            match res {
                FastOut::Val(v) => r == Ok::<u64, FastErr>(v),
                FastOut::Bad(e) => r == Err::<u64, FastErr>(e),
            }
        }),
{
    let normalized = preprocess_unary_minus(tokens);
    let postfix = infix_to_postfix(&normalized);
    let vals: Vec<u64> = Vec::new();
    proof {
        assert(vals@ =~= Seq::<u64>::empty());
    }
    fast_postfix_go(&postfix, 0, vals, params, env)
}

fn fast_block(
    items: &Vec<LangBlockItem>,
    i: usize,
    last: u64,
    params: &Vec<(String, u64)>,
    env: &Environment,
) -> (r: Result<u64, FastErr>)
    requires
        vars_wf(params@),
        env.wf(),
    ensures
        ({
            let res = spec_fast_block(
                items_view(items@),
                i as nat,
                last,
                vars_map(params@),
                env.vars(),
                env.funcs().dom(),
            );
            match res {
                FastOut::Val(v) => r == Ok::<u64, FastErr>(v),
                FastOut::Bad(e) => r == Err::<u64, FastErr>(e),
            }
        }),
    decreases items@, items@.len() - i, 0nat,
{
    proof {
        lemma_items_view(items@);
    }
    if i >= items.len() {
        Ok(last)
    } else {
        match &items[i] {
            LangBlockItem::Line(l) => {
                if contains_user_function_calls_in_line(l, env) {
                    Err(FastErr::HasCalls)
                } else {
                    match fast_line(&l.tokens, params, env) {
                        Ok(v) => fast_block(items, i + 1, v, params, env),
                        Err(e) => Err(e),
                    }
                }
            },
            LangBlockItem::Block(b) => {
                match fast_block(&b.items, 0, 0, params, env) {
                    Ok(v) => fast_block(items, i + 1, v, params, env),
                    Err(e) => Err(e),
                }
            },
            LangBlockItem::Function(_) => Err(FastErr::Unsupported),
            LangBlockItem::NamedFunction(_) => Err(FastErr::Unsupported),
            LangBlockItem::FunctionCall(c) => {
                if env.has_function(&c.name) {
                    Err(FastErr::HasCalls)
                } else {
                    Err(FastErr::Unsupported)
                }
            },
        }
    }
}

/// Runs a call over the fast path: parameters bound position by position,
/// then the body folded on values alone.
pub fn fast_call(f: &LangFunction, vals: &Vec<u64>, env: &Environment) -> (r: Result<u64, FastErr>)
    requires
        env.wf(),
    ensures
        ({
            let res = spec_fast_call(fun_view(*f), vals@, env.vars(), env.funcs().dom());
            match res {
                FastOut::Val(v) => r == Ok::<u64, FastErr>(v),
                FastOut::Bad(e) => r == Err::<u64, FastErr>(e),
            }
        }),
{
    let mut table: Vec<(String, u64)> = Vec::new();
    proof {
        assert(crate::env::var_pairs_view(table@) =~= Seq::<(Seq<char>, u64)>::empty());
    }
    let bound = if f.parameters.len() <= vals.len() {
        f.parameters.len()
    } else {
        vals.len()
    };
    let mut j: usize = 0;
    while j < bound
        invariant
            bound <= f.parameters@.len(),
            bound <= vals@.len(),
            j <= bound,
            vars_wf(table@),
            vars_map(table@) == spec_bind_upto(f.parameters.deep_view(), vals@, j as nat),
        decreases bound - j,
    {
        vars_set(&mut table, &f.parameters[j], vals[j]);
        proof {
            assert(f.parameters.deep_view()[j as int] == f.parameters@[j as int]@);
        }
        j = j + 1;
    }
    proof {
        assert(vars_map(table@) == spec_bind(f.parameters.deep_view(), vals@));
    }
    fast_block(&f.body.items, 0, 0, &table, env)
}

} // verus!
