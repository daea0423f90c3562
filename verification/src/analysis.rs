use crate::env::Environment;
use crate::lex::TokenView;
use crate::parse::{
    block_view, is_op1, is_sym, item_view, items_view, lemma_items_view, sym_text, tok_is_op1,
    tok_is_sym, BlockView, ItemView, LangBlock, LangBlockItem, LangFunction, LangLine,
};
use vstd::prelude::*;

verus! {

broadcast use {vstd::std_specs::vec::group_vec_axioms, vstd::seq::group_seq_axioms};

// ---------------------------------------------------------------------------
// The static gate of the call dispatcher: does a function body reach another
// stored function?  A line reaches one when some symbol in it is directly
// followed by `(` and names a stored function; a call item reaches one when
// its target is stored; nested blocks are searched, nested definitions are
// not.
// ---------------------------------------------------------------------------
pub open spec fn spec_line_has_call(toks: Seq<TokenView>, funcs: Set<Seq<char>>) -> bool {
    exists|i: int|
        0 <= i && i + 1 < toks.len() && is_sym(#[trigger] toks[i]) && is_op1(toks[i + 1], '(')
            && funcs.contains(sym_text(toks[i]))
}

pub open spec fn spec_item_has_call(it: ItemView, funcs: Set<Seq<char>>) -> bool
    decreases it, 0nat,
{
    match it {
        ItemView::Line(toks) => spec_line_has_call(toks, funcs),
        ItemView::Block(b) => spec_items_have_call(b.items, 0, funcs),
        ItemView::Function(_) => false,
        ItemView::NamedFunction(_) => false,
        ItemView::FunctionCall(c) => funcs.contains(c.name),
    }
}

pub open spec fn spec_items_have_call(items: Seq<ItemView>, i: nat, funcs: Set<Seq<char>>) -> bool
    decreases items, items.len() - i,
{
    if i >= items.len() {
        false
    } else {
        spec_item_has_call(items[i as int], funcs) || spec_items_have_call(items, i + 1, funcs)
    }
}

/// Whether a block reaches a stored function.
pub open spec fn spec_block_has_call(b: BlockView, funcs: Set<Seq<char>>) -> bool {
    spec_items_have_call(b.items, 0, funcs)
}

/// Whether a name is a stored function of the environment.
pub fn is_user_defined_function_global(name: &String, env: &Environment) -> (r: bool)
    requires
        env.wf(),
    ensures
        r == env.funcs().dom().contains(name@),
{
    env.has_function(name)
}

/// Whether a line holds a call to a stored function.
pub fn contains_user_function_calls_in_line(line: &LangLine, env: &Environment) -> (r: bool)
    requires
        env.wf(),
    ensures
        r == spec_line_has_call(line.tokens.deep_view(), env.funcs().dom()),
{
    let n = line.tokens.len();
    if n == 0 {
        return false;
    }
    let mut i: usize = 0;
    while i < n - 1
        invariant
            env.wf(),
            0 < n == line.tokens@.len(),
            i <= n - 1,
            forall|j: int|
                0 <= j && j < i && j + 1 < line.tokens.deep_view().len() ==> !(is_sym(
                    #[trigger] line.tokens.deep_view()[j],
                ) && is_op1(line.tokens.deep_view()[j + 1], '(') && env.funcs().dom().contains(
                    sym_text(line.tokens.deep_view()[j]),
                )),
        decreases n - i,
    {
        if tok_is_sym(&line.tokens[i]) && tok_is_op1(&line.tokens[i + 1], '(') {
            let name = match &line.tokens[i] {
                crate::lex::Token::Symbol(s) => s.value.clone(),
                _ => {
                    proof {
                        assert(false);
                    }
                    String::new()
                },
            };
            if env.has_function(&name) {
                proof {
                    assert(is_sym(line.tokens.deep_view()[i as int]) && is_op1(
                        line.tokens.deep_view()[i as int + 1],
                        '(',
                    ) && env.funcs().dom().contains(sym_text(line.tokens.deep_view()[i as int])));
                }
                return true;
            }
        }
        i = i + 1;
    }
    false
}

fn item_has_call_exec(it: &LangBlockItem, env: &Environment) -> (r: bool)
    requires
        env.wf(),
    ensures
        r == spec_item_has_call(item_view(*it), env.funcs().dom()),
    decreases *it, 0nat,
{
    match it {
        LangBlockItem::Line(l) => contains_user_function_calls_in_line(l, env),
        LangBlockItem::Block(b) => items_have_call_exec(&b.items, 0, env),
        LangBlockItem::Function(_) => false,
        LangBlockItem::NamedFunction(_) => false,
        LangBlockItem::FunctionCall(c) => env.has_function(&c.name),
    }
}

fn items_have_call_exec(items: &Vec<LangBlockItem>, i: usize, env: &Environment) -> (r: bool)
    requires
        env.wf(),
    ensures
        r == spec_items_have_call(items_view(items@), i as nat, env.funcs().dom()),
    decreases items@, items@.len() - i,
{
    proof {
        lemma_items_view(items@);
    }
    if i >= items.len() {
        false
    } else {
        if item_has_call_exec(&items[i], env) {
            true
        } else {
            items_have_call_exec(items, i + 1, env)
        }
    }
}

/// Whether a block holds, anywhere in it, a call to a stored function.
pub fn contains_user_function_calls_in_block(block: &LangBlock, env: &Environment) -> (r: bool)
    requires
        env.wf(),
    ensures
        r == spec_block_has_call(block_view(*block), env.funcs().dom()),
{
    items_have_call_exec(&block.items, 0, env)
}

/// Whether a function's body calls any stored function, which decides
/// between the native fast path and the interpreter.
pub fn function_contains_user_function_calls(function: &LangFunction, env: &Environment) -> (r:
    bool)
    requires
        env.wf(),
    ensures
        r == spec_block_has_call(crate::parse::fun_view(*function).body, env.funcs().dom()),
{
    contains_user_function_calls_in_block(&function.body, env)
}

} // verus!
