use crate::env::{vars_get, vars_map, vars_set, vars_wf};
use crate::lex::{LangNumber, Token, TokenView};
use crate::parse::is_op1;
use crate::text::str_is_char;
use crate::value::{add_bits, div_bits, int_bits, is_zero_bits, mul_bits, sub_bits};
use crate::value::{int_to_bits, real_add, real_div, real_mul, real_sub};
use vstd::prelude::*;

verus! {

broadcast use {vstd::std_specs::vec::group_vec_axioms, vstd::seq::group_seq_axioms};

/// The bit pattern of the quiet NaN that a guarded native division yields
/// for a zero divisor.
pub const NAN_BITS: u64 = 0x7ff8_0000_0000_0000;

/// How an evaluation can fail.
#[derive(Clone, Copy, PartialEq, Eq, Structural, Debug)]
pub enum EvalError {
    /// A `/` met a zero divisor.
    DivisionByZero,
    /// An `=` had no variable name to its left.
    MissingAssignmentTarget,
    /// A call named no stored function.
    UnknownFunction,
    /// A call's argument count differed from the function's parameter count.
    ArityMismatch,
    /// The native back end could not handle the function.
    BackendFailure,
    /// An expression or a function body yielded no value where one was needed.
    NoValue,
    /// Calls nested deeper than the evaluator's limit.
    DepthLimit,
}

// ---------------------------------------------------------------------------
// Unary minus normalization.
//
// A `-` that is first in the line or follows `( , = + - * /` is a sign, not
// a subtraction; it is rewritten as `0 -` so the evaluator only ever sees
// binary operators.
// ---------------------------------------------------------------------------
pub open spec fn marks_unary(t: TokenView) -> bool {
    is_op1(t, '(') || is_op1(t, ',') || is_op1(t, '=') || is_op1(t, '+') || is_op1(t, '-') || is_op1(
        t,
        '*',
    ) || is_op1(t, '/')
}

pub open spec fn spec_unary(toks: Seq<TokenView>, i: nat, out: Seq<TokenView>) -> Seq<TokenView>
    decreases toks.len() - i,
{
    if i >= toks.len() {
        out
    } else {
        let t = toks[i as int];
        let unary = is_op1(t, '-') && (i == 0 || marks_unary(toks[i as int - 1]));
        let out2 = if unary {
            out + seq![TokenView::IntLit(0), t]
        } else {
            out.push(t)
        };
        spec_unary(toks, i + 1, out2)
    }
}

fn unary_go(tokens: &Vec<Token>, i: usize, out: Vec<Token>) -> (r: Vec<Token>)
    ensures
        r.deep_view() == spec_unary(tokens.deep_view(), i as nat, out.deep_view()),
    decreases tokens@.len() - i,
{
    if i >= tokens.len() {
        out
    } else {
        let minus = tok_is_op1_local(&tokens[i], '-');
        let unary = minus && (i == 0 || {
            let p = &tokens[i - 1];
            tok_is_op1_local(p, '(') || tok_is_op1_local(p, ',') || tok_is_op1_local(p, '=')
                || tok_is_op1_local(p, '+') || tok_is_op1_local(p, '-') || tok_is_op1_local(p, '*')
                || tok_is_op1_local(p, '/')
        });
        let out2 = if unary {
            let ghost before = out.deep_view();
            let mut out = out;
            out.push(Token::Number(LangNumber::Integer(crate::lex::LangInteger { value: 0 })));
            out.push(tokens[i].duplicate());
            proof {
                assert(out.deep_view() =~= before + seq![
                    TokenView::IntLit(0),
                    tokens.deep_view()[i as int],
                ]);
            }
            out
        } else {
            let ghost before = out.deep_view();
            let mut out = out;
            out.push(tokens[i].duplicate());
            proof {
                assert(out.deep_view() =~= before.push(tokens.deep_view()[i as int]));
            }
            out
        };
        unary_go(tokens, i + 1, out2)
    }
}

fn tok_is_op1_local(t: &Token, c: char) -> (r: bool)
    ensures
        r == is_op1(t@, c),
{
    crate::parse::tok_is_op1(t, c)
}

/// Rewrites each unary `-` into the two tokens `0 -`.
pub fn preprocess_unary_minus(tokens: &Vec<Token>) -> (r: Vec<Token>)
    ensures
        r.deep_view() == spec_unary(tokens.deep_view(), 0, Seq::empty()),
{
    let out: Vec<Token> = Vec::new();
    proof {
        assert(out.deep_view() =~= Seq::<TokenView>::empty());
    }
    unary_go(tokens, 0, out)
}

// ---------------------------------------------------------------------------
// Infix to postfix: the shunting yard.
// ---------------------------------------------------------------------------
/// Operator binding strength: assignment below addition below
/// multiplication; anything else is unknown.
pub open spec fn spec_precedence(s: Seq<char>) -> int {
    if s == seq!['='] {
        0
    } else if s == seq!['+'] || s == seq!['-'] {
        1
    } else if s == seq!['*'] || s == seq!['/'] {
        2
    } else {
        -1
    }
}

/// The binding strength of an operator's text.
pub fn get_precedence(op: &str) -> (r: i32)
    ensures
        r as int == spec_precedence(op@),
{
    let n = op.unicode_len();
    if n == 1 {
        let c = op.get_char(0);
        proof {
            assert(op@ =~= seq![op@[0]]);
        }
        if c == '=' {
            0
        } else if c == '+' || c == '-' {
            1
        } else if c == '*' || c == '/' {
            2
        } else {
            -1
        }
    } else {
        proof {
            assert(forall|c: char| op@ == seq![c] ==> op@.len() == 1);
        }
        -1
    }
}

/// Text of an operator token, empty for other tokens.
pub open spec fn op_text(t: TokenView) -> Seq<char> {
    match t {
        TokenView::Oper(s) => s,
        _ => Seq::empty(),
    }
}

/// Pops operators bound at least (or, for the right-associative `=`,
/// strictly more) tightly than the incoming one.
pub open spec fn spec_pop_while(
    out: Seq<TokenView>,
    stack: Seq<TokenView>,
    p: int,
    strict: bool,
) -> (Seq<TokenView>, Seq<TokenView>)
    decreases stack.len(),
{
    if stack.len() > 0 && stack.last() is Oper && (if strict {
        spec_precedence(op_text(stack.last())) > p
    } else {
        spec_precedence(op_text(stack.last())) >= p
    }) {
        spec_pop_while(out.push(stack.last()), stack.drop_last(), p, strict)
    } else {
        (out, stack)
    }
}

/// Pops and emits until the matching opening parenthesis, which is dropped.
pub open spec fn spec_pop_paren(out: Seq<TokenView>, stack: Seq<TokenView>) -> (
    Seq<TokenView>,
    Seq<TokenView>,
)
    decreases stack.len(),
{
    if stack.len() == 0 {
        (out, stack)
    } else {
        let t = stack.last();
        if is_op1(t, '(') {
            (out, stack.drop_last())
        } else {
            spec_pop_paren(out.push(t), stack.drop_last())
        }
    }
}

/// Empties the operator stack onto the output, last in first out.
pub open spec fn spec_drain(out: Seq<TokenView>, stack: Seq<TokenView>) -> Seq<TokenView>
    decreases stack.len(),
{
    if stack.len() == 0 {
        out
    } else {
        spec_drain(out.push(stack.last()), stack.drop_last())
    }
}

pub open spec fn spec_postfix_go(
    toks: Seq<TokenView>,
    i: nat,
    out: Seq<TokenView>,
    stack: Seq<TokenView>,
) -> Seq<TokenView>
    decreases toks.len() - i,
{
    if i >= toks.len() {
        spec_drain(out, stack)
    } else {
        let t = toks[i as int];
        match t {
            TokenView::Oper(op) => {
                if op == seq!['='] {
                    let (out2, stack2) = spec_pop_while(out, stack, 0, true);
                    spec_postfix_go(toks, i + 1, out2, stack2.push(t))
                } else if op == seq!['+'] || op == seq!['-'] || op == seq!['*'] || op == seq![
                    '/',
                ] {
                    let (out2, stack2) = spec_pop_while(out, stack, spec_precedence(op), false);
                    spec_postfix_go(toks, i + 1, out2, stack2.push(t))
                } else if op == seq!['('] {
                    spec_postfix_go(toks, i + 1, out, stack.push(t))
                } else if op == seq![')'] {
                    let (out2, stack2) = spec_pop_paren(out, stack);
                    spec_postfix_go(toks, i + 1, out2, stack2)
                } else {
                    spec_postfix_go(toks, i + 1, out.push(t), stack)
                }
            },
            _ => spec_postfix_go(toks, i + 1, out.push(t), stack),
        }
    }
}

/// The postfix order of a line's tokens.
pub open spec fn spec_postfix(toks: Seq<TokenView>) -> Seq<TokenView> {
    spec_postfix_go(toks, 0, Seq::empty(), Seq::empty())
}

fn pop_while(out: Vec<Token>, stack: Vec<Token>, p: i32, strict: bool) -> (r: (
    Vec<Token>,
    Vec<Token>,
))
    ensures
        ({
            let (o, s) = spec_pop_while(out.deep_view(), stack.deep_view(), p as int, strict);
            r.0.deep_view() == o && r.1.deep_view() == s
        }),
    decreases stack@.len(),
{
    let n = stack.len();
    if n > 0 {
        let top_prec = match &stack[n - 1] {
            Token::Operator(o) => Some(get_precedence(o.value.as_str())),
            _ => None,
        };
        let go = match top_prec {
            Some(tp) => if strict {
                tp > p
            } else {
                tp >= p
            },
            None => false,
        };
        if go {
            let ghost outv = out.deep_view();
            let ghost stackv = stack.deep_view();
            let mut out = out;
            let mut stack = stack;
            let t = stack.pop().unwrap();
            out.push(t);
            proof {
                assert(stack.deep_view() =~= stackv.drop_last());
                assert(out.deep_view() =~= outv.push(stackv.last()));
            }
            pop_while(out, stack, p, strict)
        } else {
            (out, stack)
        }
    } else {
        (out, stack)
    }
}

fn pop_paren(out: Vec<Token>, stack: Vec<Token>) -> (r: (Vec<Token>, Vec<Token>))
    ensures
        ({
            let (o, s) = spec_pop_paren(out.deep_view(), stack.deep_view());
            r.0.deep_view() == o && r.1.deep_view() == s
        }),
    decreases stack@.len(),
{
    let n = stack.len();
    if n == 0 {
        (out, stack)
    } else {
        let ghost outv = out.deep_view();
        let ghost stackv = stack.deep_view();
        let mut out = out;
        let mut stack = stack;
        let t = stack.pop().unwrap();
        proof {
            assert(stack.deep_view() =~= stackv.drop_last());
        }
        if tok_is_op1_local(&t, '(') {
            (out, stack)
        } else {
            let ghost tv = t@;
            out.push(t);
            proof {
                assert(out.deep_view() =~= outv.push(tv));
            }
            pop_paren(out, stack)
        }
    }
}

fn drain(out: Vec<Token>, stack: Vec<Token>) -> (r: Vec<Token>)
    ensures
        r.deep_view() == spec_drain(out.deep_view(), stack.deep_view()),
    decreases stack@.len(),
{
    let n = stack.len();
    if n == 0 {
        out
    } else {
        let ghost outv = out.deep_view();
        let ghost stackv = stack.deep_view();
        let mut out = out;
        let mut stack = stack;
        let t = stack.pop().unwrap();
        let ghost tv = t@;
        out.push(t);
        proof {
            assert(stack.deep_view() =~= stackv.drop_last());
            assert(out.deep_view() =~= outv.push(tv));
        }
        drain(out, stack)
    }
}

fn postfix_go(tokens: &Vec<Token>, i: usize, out: Vec<Token>, stack: Vec<Token>) -> (r: Vec<Token>)
    ensures
        r.deep_view() == spec_postfix_go(
            tokens.deep_view(),
            i as nat,
            out.deep_view(),
            stack.deep_view(),
        ),
    decreases tokens@.len() - i,
{
    if i >= tokens.len() {
        drain(out, stack)
    } else {
        let t = &tokens[i];
        match t {
            Token::Operator(o) => {
                if str_is_char(&o.value, '=') {
                    let (out2, stack2) = pop_while(out, stack, 0, true);
                    let ghost s2 = stack2.deep_view();
                    let mut stack2 = stack2;
                    stack2.push(t.duplicate());
                    proof {
                        assert(stack2.deep_view() =~= s2.push(tokens.deep_view()[i as int]));
                    }
                    postfix_go(tokens, i + 1, out2, stack2)
                } else if str_is_char(&o.value, '+') || str_is_char(&o.value, '-') || str_is_char(
                    &o.value,
                    '*',
                ) || str_is_char(&o.value, '/') {
                    let p = get_precedence(o.value.as_str());
                    let (out2, stack2) = pop_while(out, stack, p, false);
                    let ghost s2 = stack2.deep_view();
                    let mut stack2 = stack2;
                    stack2.push(t.duplicate());
                    proof {
                        assert(stack2.deep_view() =~= s2.push(tokens.deep_view()[i as int]));
                    }
                    postfix_go(tokens, i + 1, out2, stack2)
                } else if str_is_char(&o.value, '(') {
                    let ghost s2 = stack.deep_view();
                    let mut stack = stack;
                    stack.push(t.duplicate());
                    proof {
                        assert(stack.deep_view() =~= s2.push(tokens.deep_view()[i as int]));
                    }
                    postfix_go(tokens, i + 1, out, stack)
                } else if str_is_char(&o.value, ')') {
                    let (out2, stack2) = pop_paren(out, stack);
                    postfix_go(tokens, i + 1, out2, stack2)
                } else {
                    let ghost o2 = out.deep_view();
                    let mut out = out;
                    out.push(t.duplicate());
                    proof {
                        assert(out.deep_view() =~= o2.push(tokens.deep_view()[i as int]));
                    }
                    postfix_go(tokens, i + 1, out, stack)
                }
            },
            _ => {
                let ghost o2 = out.deep_view();
                let mut out = out;
                out.push(t.duplicate());
                proof {
                    assert(out.deep_view() =~= o2.push(tokens.deep_view()[i as int]));
                }
                postfix_go(tokens, i + 1, out, stack)
            },
        }
    }
}

/// Converts a line's tokens from infix to postfix order.
pub fn infix_to_postfix(tokens: &Vec<Token>) -> (r: Vec<Token>)
    ensures
        r.deep_view() == spec_postfix(tokens.deep_view()),
{
    let out: Vec<Token> = Vec::new();
    let stack: Vec<Token> = Vec::new();
    proof {
        assert(out.deep_view() =~= Seq::<TokenView>::empty());
        assert(stack.deep_view() =~= Seq::<TokenView>::empty());
    }
    postfix_go(tokens, 0, out, stack)
}

// ---------------------------------------------------------------------------
// The postfix evaluator.
//
// A value stack and, beside it, a stack of markers that remember which
// values came from a bare variable name; `=` consults the marker of its
// left operand to find its target.
// ---------------------------------------------------------------------------
pub enum PfOutcome {
    Done(Option<u64>, Map<Seq<char>, u64>),
    Failed(EvalError, Map<Seq<char>, u64>),
}

/// After a binary operator, the two operand markers give way to one blank
/// marker for the result.
pub open spec fn marks_after_binop(marks: Seq<Seq<char>>) -> Seq<Seq<char>> {
    if marks.len() >= 2 {
        marks.drop_last().drop_last().push(Seq::empty())
    } else {
        marks
    }
}

/// Runs a postfix token sequence against a variable map: literals and
/// variable values are pushed (an unbound name counts as the zero value),
/// `+ - * /` fold the two topmost values (`/` fails on a zero divisor),
/// `=` binds the marker of its left operand and yields the assigned value,
/// and anything else is skipped.  The outcome is the topmost value, or
/// nothing for an empty stack, together with the updated variables.
pub open spec fn spec_exec_postfix(
    toks: Seq<TokenView>,
    i: nat,
    vals: Seq<u64>,
    marks: Seq<Seq<char>>,
    vars: Map<Seq<char>, u64>,
) -> PfOutcome
    decreases toks.len() - i,
{
    if i >= toks.len() {
        PfOutcome::Done(
            if vals.len() > 0 {
                Some(vals.last())
            } else {
                None
            },
            vars,
        )
    } else {
        let t = toks[i as int];
        match t {
            TokenView::IntLit(v) => spec_exec_postfix(
                toks,
                i + 1,
                vals.push(int_bits(v)),
                marks.push(Seq::empty()),
                vars,
            ),
            TokenView::RealLit(b) => spec_exec_postfix(
                toks,
                i + 1,
                vals.push(b),
                marks.push(Seq::empty()),
                vars,
            ),
            TokenView::Symbol(name) => spec_exec_postfix(
                toks,
                i + 1,
                vals.push(
                    if vars.contains_key(name) {
                        vars[name]
                    } else {
                        0
                    },
                ),
                marks.push(name),
                vars,
            ),
            TokenView::Text(_) => spec_exec_postfix(toks, i + 1, vals, marks, vars),
            TokenView::Oper(op) => {
                if op == seq!['='] {
                    if vals.len() >= 2 && marks.len() >= 2 {
                        let value = vals.last();
                        let target = marks[marks.len() - 2];
                        if target.len() > 0 {
                            spec_exec_postfix(
                                toks,
                                i + 1,
                                vals.drop_last().drop_last().push(value),
                                marks.drop_last().drop_last().push(Seq::empty()),
                                vars.insert(target, value),
                            )
                        } else {
                            PfOutcome::Failed(EvalError::MissingAssignmentTarget, vars)
                        }
                    } else {
                        PfOutcome::Failed(EvalError::MissingAssignmentTarget, vars)
                    }
                } else if op == seq!['+'] {
                    if vals.len() >= 2 {
                        let b = vals.last();
                        let a = vals[vals.len() - 2];
                        spec_exec_postfix(
                            toks,
                            i + 1,
                            vals.drop_last().drop_last().push(add_bits(a, b)),
                            marks_after_binop(marks),
                            vars,
                        )
                    } else {
                        spec_exec_postfix(toks, i + 1, vals, marks, vars)
                    }
                } else if op == seq!['-'] {
                    if vals.len() >= 2 {
                        let b = vals.last();
                        let a = vals[vals.len() - 2];
                        spec_exec_postfix(
                            toks,
                            i + 1,
                            vals.drop_last().drop_last().push(sub_bits(a, b)),
                            marks_after_binop(marks),
                            vars,
                        )
                    } else {
                        spec_exec_postfix(toks, i + 1, vals, marks, vars)
                    }
                } else if op == seq!['*'] {
                    if vals.len() >= 2 {
                        let b = vals.last();
                        let a = vals[vals.len() - 2];
                        spec_exec_postfix(
                            toks,
                            i + 1,
                            vals.drop_last().drop_last().push(mul_bits(a, b)),
                            marks_after_binop(marks),
                            vars,
                        )
                    } else {
                        spec_exec_postfix(toks, i + 1, vals, marks, vars)
                    }
                } else if op == seq!['/'] {
                    if vals.len() >= 2 {
                        let b = vals.last();
                        let a = vals[vals.len() - 2];
                        if is_zero_bits(b) {
                            PfOutcome::Failed(EvalError::DivisionByZero, vars)
                        } else {
                            spec_exec_postfix(
                                toks,
                                i + 1,
                                vals.drop_last().drop_last().push(div_bits(a, b)),
                                marks_after_binop(marks),
                                vars,
                            )
                        }
                    } else {
                        spec_exec_postfix(toks, i + 1, vals, marks, vars)
                    }
                } else {
                    spec_exec_postfix(toks, i + 1, vals, marks, vars)
                }
            },
        }
    }
}

/// One step of popping two values and pushing one, in the executable stacks.
fn binop_stacks(vals: &mut Vec<u64>, marks: &mut Vec<String>, result: u64)
    requires
        old(vals)@.len() >= 2,
    ensures
        final(vals)@ == old(vals)@.drop_last().drop_last().push(result),
        final(marks).deep_view() == marks_after_binop(old(marks).deep_view()),
{
    let n = vals.len();
    vals.truncate(n - 2);
    vals.push(result);
    proof {
        assert(vals@ =~= old(vals)@.drop_last().drop_last().push(result));
    }
    if marks.len() >= 2 {
        let m = marks.len();
        let ghost mv = marks.deep_view();
        marks.truncate(m - 2);
        proof {
            assert(marks.deep_view() =~= mv.drop_last().drop_last());
        }
        let ghost mv2 = marks.deep_view();
        marks.push(String::new());
        proof {
            assert(marks.deep_view() =~= mv2.push(Seq::<char>::empty()));
        }
    }
}

fn exec_postfix_go(
    tokens: &Vec<Token>,
    i: usize,
    vals: Vec<u64>,
    marks: Vec<String>,
    vars: &mut Vec<(String, u64)>,
) -> (r: Result<Option<u64>, EvalError>)
    requires
        vars_wf(old(vars)@),
    ensures
        vars_wf(final(vars)@),
        ({
            let res = spec_exec_postfix(
                tokens.deep_view(),
                i as nat,
                vals@,
                marks.deep_view(),
                vars_map(old(vars)@),
            );
            match res {
                PfOutcome::Done(o, m) => r == Ok::<Option<u64>, EvalError>(o) && vars_map(
                    final(vars)@,
                ) == m,
                PfOutcome::Failed(e, m) => r == Err::<Option<u64>, EvalError>(e) && vars_map(
                    final(vars)@,
                ) == m,
            }
        }),
    decreases tokens@.len() - i,
{
    if i >= tokens.len() {
        if vals.len() > 0 {
            Ok(Some(vals[vals.len() - 1]))
        } else {
            Ok(None)
        }
    } else {
        match &tokens[i] {
            Token::Number(LangNumber::Integer(n)) => {
                let ghost vv = vals@;
                let ghost mv = marks.deep_view();
                let mut vals = vals;
                let mut marks = marks;
                vals.push(int_to_bits(n.value));
                marks.push(String::new());
                proof {
                    assert(marks.deep_view() =~= mv.push(Seq::<char>::empty()));
                }
                exec_postfix_go(tokens, i + 1, vals, marks, vars)
            },
            Token::Number(LangNumber::RealNumber(x)) => {
                let ghost mv = marks.deep_view();
                let mut vals = vals;
                let mut marks = marks;
                vals.push(x.bits);
                marks.push(String::new());
                proof {
                    assert(marks.deep_view() =~= mv.push(Seq::<char>::empty()));
                }
                exec_postfix_go(tokens, i + 1, vals, marks, vars)
            },
            Token::Symbol(s) => {
                let ghost mv = marks.deep_view();
                let mut vals = vals;
                let mut marks = marks;
                let v = match vars_get(vars, &s.value) {
                    Some(v) => v,
                    None => 0,
                };
                vals.push(v);
                marks.push(s.value.clone());
                proof {
                    assert(marks.deep_view() =~= mv.push(tokens.deep_view()[i as int]->Symbol_0));
                }
                exec_postfix_go(tokens, i + 1, vals, marks, vars)
            },
            Token::Str(_) => exec_postfix_go(tokens, i + 1, vals, marks, vars),
            Token::Operator(o) => {
                if str_is_char(&o.value, '=') {
                    if vals.len() >= 2 && marks.len() >= 2 {
                        let value = vals[vals.len() - 1];
                        let target = marks[marks.len() - 2].clone();
                        if target.as_str().unicode_len() > 0 {
                            let ghost vv = vals@;
                            let ghost mv = marks.deep_view();
                            let mut vals = vals;
                            let mut marks = marks;
                            let n = vals.len();
                            vals.truncate(n - 2);
                            vals.push(value);
                            let m = marks.len();
                            marks.truncate(m - 2);
                            marks.push(String::new());
                            vars_set(vars, &target, value);
                            proof {
                                assert(vals@ =~= vv.drop_last().drop_last().push(value));
                                assert(marks.deep_view() =~= mv.drop_last().drop_last().push(
                                    Seq::<char>::empty(),
                                ));
                            }
                            exec_postfix_go(tokens, i + 1, vals, marks, vars)
                        } else {
                            Err(EvalError::MissingAssignmentTarget)
                        }
                    } else {
                        Err(EvalError::MissingAssignmentTarget)
                    }
                } else if str_is_char(&o.value, '+') {
                    if vals.len() >= 2 {
                        let b = vals[vals.len() - 1];
                        let a = vals[vals.len() - 2];
                        let mut vals = vals;
                        let mut marks = marks;
                        binop_stacks(&mut vals, &mut marks, real_add(a, b));
                        exec_postfix_go(tokens, i + 1, vals, marks, vars)
                    } else {
                        exec_postfix_go(tokens, i + 1, vals, marks, vars)
                    }
                } else if str_is_char(&o.value, '-') {
                    if vals.len() >= 2 {
                        let b = vals[vals.len() - 1];
                        let a = vals[vals.len() - 2];
                        let mut vals = vals;
                        let mut marks = marks;
                        binop_stacks(&mut vals, &mut marks, real_sub(a, b));
                        exec_postfix_go(tokens, i + 1, vals, marks, vars)
                    } else {
                        exec_postfix_go(tokens, i + 1, vals, marks, vars)
                    }
                } else if str_is_char(&o.value, '*') {
                    if vals.len() >= 2 {
                        let b = vals[vals.len() - 1];
                        let a = vals[vals.len() - 2];
                        let mut vals = vals;
                        let mut marks = marks;
                        binop_stacks(&mut vals, &mut marks, real_mul(a, b));
                        exec_postfix_go(tokens, i + 1, vals, marks, vars)
                    } else {
                        exec_postfix_go(tokens, i + 1, vals, marks, vars)
                    }
                } else if str_is_char(&o.value, '/') {
                    if vals.len() >= 2 {
                        let b = vals[vals.len() - 1];
                        let a = vals[vals.len() - 2];
                        if crate::value::bits_is_zero(b) {
                            Err(EvalError::DivisionByZero)
                        } else {
                            let mut vals = vals;
                            let mut marks = marks;
                            binop_stacks(&mut vals, &mut marks, real_div(a, b));
                            exec_postfix_go(tokens, i + 1, vals, marks, vars)
                        }
                    } else {
                        exec_postfix_go(tokens, i + 1, vals, marks, vars)
                    }
                } else {
                    exec_postfix_go(tokens, i + 1, vals, marks, vars)
                }
            },
        }
    }
}

/// Runs a postfix token sequence against the variable table.
pub fn execute_postfix_tokens(tokens: &Vec<Token>, vars: &mut Vec<(String, u64)>) -> (r: Result<
    Option<u64>,
    EvalError,
>)
    requires
        vars_wf(old(vars)@),
    ensures
        vars_wf(final(vars)@),
        ({
            let res = spec_exec_postfix(
                tokens.deep_view(),
                0,
                Seq::empty(),
                Seq::empty(),
                vars_map(old(vars)@),
            );
            match res {
                PfOutcome::Done(o, m) => r == Ok::<Option<u64>, EvalError>(o) && vars_map(
                    final(vars)@,
                ) == m,
                PfOutcome::Failed(e, m) => r == Err::<Option<u64>, EvalError>(e) && vars_map(
                    final(vars)@,
                ) == m,
            }
        }),
{
    let vals: Vec<u64> = Vec::new();
    let marks: Vec<String> = Vec::new();
    proof {
        assert(vals@ =~= Seq::<u64>::empty());
        assert(marks.deep_view() =~= Seq::<Seq<char>>::empty());
    }
    exec_postfix_go(tokens, 0, vals, marks, vars)
}

} // verus!
