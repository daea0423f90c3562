use crate::lex::{Token, TokenView};
use crate::text::{str_is_2chars, str_is_char};
use vstd::prelude::*;

verus! {

broadcast use {vstd::std_specs::vec::group_vec_axioms, vstd::seq::group_seq_axioms};

// ---------------------------------------------------------------------------
// Parsed structures.
// ---------------------------------------------------------------------------
pub struct LangLine {
    pub tokens: Vec<Token>,
}

pub struct LangBlock {
    pub items: Vec<LangBlockItem>,
}

pub struct LangFunction {
    pub parameters: Vec<String>,
    pub body: LangBlock,
}

pub struct LangNamedFunction {
    pub name: String,
    pub parameters: Vec<String>,
    pub body: LangBlock,
}

pub struct LangFunctionCall {
    pub name: String,
    pub arguments: Vec<Vec<Token>>,
}

pub enum LangBlockItem {
    Line(LangLine),
    Block(LangBlock),
    Function(LangFunction),
    NamedFunction(LangNamedFunction),
    FunctionCall(LangFunctionCall),
}

// ---------------------------------------------------------------------------
// Their mathematical views.
// ---------------------------------------------------------------------------
pub struct BlockView {
    pub items: Seq<ItemView>,
}

pub struct FunView {
    pub params: Seq<Seq<char>>,
    pub body: BlockView,
}

pub struct NamedFunView {
    pub name: Seq<char>,
    pub params: Seq<Seq<char>>,
    pub body: BlockView,
}

pub struct CallView {
    pub name: Seq<char>,
    pub args: Seq<Seq<TokenView>>,
}

pub enum ItemView {
    Line(Seq<TokenView>),
    Block(BlockView),
    Function(FunView),
    NamedFunction(NamedFunView),
    FunctionCall(CallView),
}

pub open spec fn item_view(x: LangBlockItem) -> ItemView
    decreases x,
{
    match x {
        LangBlockItem::Line(l) => ItemView::Line(l.tokens.deep_view()),
        LangBlockItem::Block(b) => ItemView::Block(block_view(b)),
        LangBlockItem::Function(f) => ItemView::Function(fun_view(f)),
        LangBlockItem::NamedFunction(f) => ItemView::NamedFunction(named_fun_view(f)),
        LangBlockItem::FunctionCall(c) => ItemView::FunctionCall(call_view(c)),
    }
}

pub open spec fn block_view(b: LangBlock) -> BlockView
    decreases b,
{
    BlockView { items: items_view(b.items@) }
}

pub open spec fn fun_view(f: LangFunction) -> FunView
    decreases f,
{
    FunView { params: f.parameters.deep_view(), body: block_view(f.body) }
}

pub open spec fn named_fun_view(f: LangNamedFunction) -> NamedFunView
    decreases f,
{
    NamedFunView { name: f.name@, params: f.parameters.deep_view(), body: block_view(f.body) }
}

pub open spec fn call_view(c: LangFunctionCall) -> CallView {
    CallView { name: c.name@, args: c.arguments.deep_view() }
}

pub open spec fn items_view(s: Seq<LangBlockItem>) -> Seq<ItemView>
    decreases s,
{
    if s.len() == 0 {
        Seq::empty()
    } else {
        seq![item_view(s[0])] + items_view(s.drop_first())
    }
}

pub broadcast proof fn lemma_items_view(s: Seq<LangBlockItem>)
    ensures
        (#[trigger] items_view(s)).len() == s.len(),
        forall|i: int| 0 <= i < s.len() ==> items_view(s)[i] == item_view(s[i]),
    decreases s.len(),
{
    if s.len() > 0 {
        lemma_items_view(s.drop_first());
        assert forall|i: int| 0 <= i < s.len() implies items_view(s)[i] == item_view(s[i]) by {
            if i > 0 {
                assert(s.drop_first()[i - 1] == s[i]);
            }
        }
    }
}

// ---------------------------------------------------------------------------
// Token tests.
// ---------------------------------------------------------------------------
pub open spec fn is_op1(t: TokenView, c: char) -> bool {
    match t {
        TokenView::Oper(x) => x == seq![c],
        _ => false,
    }
}

pub open spec fn is_op2(t: TokenView, c0: char, c1: char) -> bool {
    match t {
        TokenView::Oper(x) => x == seq![c0, c1],
        _ => false,
    }
}

pub open spec fn is_sym(t: TokenView) -> bool {
    t is Symbol
}

pub open spec fn sym_text(t: TokenView) -> Seq<char>
    recommends
        t is Symbol,
{
    t->Symbol_0
}

pub fn tok_is_op1(t: &Token, c: char) -> (r: bool)
    ensures
        r == is_op1(t@, c),
{
    match t {
        Token::Operator(o) => str_is_char(&o.value, c),
        _ => false,
    }
}

pub fn tok_is_op2(t: &Token, c0: char, c1: char) -> (r: bool)
    ensures
        r == is_op2(t@, c0, c1),
{
    match t {
        Token::Operator(o) => str_is_2chars(&o.value, c0, c1),
        _ => false,
    }
}

pub fn tok_is_sym(t: &Token) -> (r: bool)
    ensures
        r == is_sym(t@),
{
    match t {
        Token::Symbol(_) => true,
        _ => false,
    }
}

// ---------------------------------------------------------------------------
// The specification of the block parser.
//
// Every helper returns, besides its yield, how many tokens it consumed from
// its starting position.
// ---------------------------------------------------------------------------
/// Flushing the pending line: an empty line adds no item.
pub open spec fn flush_view(items: Seq<ItemView>, line: Seq<TokenView>) -> Seq<ItemView> {
    if line.len() == 0 {
        items
    } else {
        items.push(ItemView::Line(line))
    }
}

/// Parameter list after an opening parenthesis: every symbol up to the first
/// closing parenthesis counts as a parameter; all other tokens are skipped.
pub open spec fn spec_params(toks: Seq<TokenView>, i: nat, acc: Seq<Seq<char>>) -> (Seq<
    Seq<char>,
>, nat)
    decreases toks.len() - i,
{
    if i >= toks.len() {
        (acc, 0)
    } else if is_op1(toks[i as int], ')') {
        (acc, 1)
    } else {
        let acc2 = if is_sym(toks[i as int]) {
            acc.push(sym_text(toks[i as int]))
        } else {
            acc
        };
        let (ps, c) = spec_params(toks, i + 1, acc2);
        (ps, 1 + c)
    }
}

/// The symbols among a token range: the parameters of a lambda header.
pub open spec fn spec_syms_range(toks: Seq<TokenView>, lo: int, hi: int, acc: Seq<Seq<char>>) -> Seq<
    Seq<char>,
>
    decreases hi - lo,
{
    if lo >= hi {
        acc
    } else {
        let acc2 = if 0 <= lo < toks.len() && is_sym(toks[lo]) {
            acc.push(sym_text(toks[lo]))
        } else {
            acc
        };
        spec_syms_range(toks, lo + 1, hi, acc2)
    }
}

/// Call arguments: token runs split on commas at parenthesis depth zero, up
/// to the matching closing parenthesis; empty runs are dropped; an
/// unterminated call loses its pending run.
pub open spec fn spec_args(
    toks: Seq<TokenView>,
    i: nat,
    depth: nat,
    cur: Seq<TokenView>,
    acc: Seq<Seq<TokenView>>,
) -> (Seq<Seq<TokenView>>, nat)
    decreases toks.len() - i,
{
    if i >= toks.len() {
        (acc, 0)
    } else {
        let t = toks[i as int];
        if is_op1(t, ')') && depth == 0 {
            (if cur.len() > 0 {
                acc.push(cur)
            } else {
                acc
            }, 1)
        } else if is_op1(t, '(') {
            let (r, c) = spec_args(toks, i + 1, depth + 1, cur.push(t), acc);
            (r, 1 + c)
        } else if is_op1(t, ')') {
            let (r, c) = spec_args(toks, i + 1, (depth - 1) as nat, cur.push(t), acc);
            (r, 1 + c)
        } else if is_op1(t, ',') && depth == 0 {
            let acc2 = if cur.len() > 0 {
                acc.push(cur)
            } else {
                acc
            };
            let (r, c) = spec_args(toks, i + 1, depth, Seq::empty(), acc2);
            (r, 1 + c)
        } else {
            let (r, c) = spec_args(toks, i + 1, depth, cur.push(t), acc);
            (r, 1 + c)
        }
    }
}

/// The bounded lookahead that tells a lambda assignment from an ordinary
/// one: scanning from just after the `=`, does a balanced parenthesis group
/// appear, immediately followed by `=>`, within a twenty-token window?
pub open spec fn spec_lambda_after_eq(
    toks: Seq<TokenView>,
    j: nat,
    count: int,
    found_open: bool,
    scanned: nat,
) -> bool
    decreases toks.len() - j,
{
    if j >= toks.len() {
        false
    } else {
        let t = toks[j as int];
        if is_op1(t, '(') {
            if scanned + 1 > 20 {
                false
            } else {
                spec_lambda_after_eq(toks, j + 1, count + 1, true, scanned + 1)
            }
        } else if is_op1(t, ')') {
            if count - 1 == 0 && found_open {
                j + 1 < toks.len() && is_op2(toks[j as int + 1], '=', '>')
            } else if scanned + 1 > 20 {
                false
            } else {
                spec_lambda_after_eq(toks, j + 1, count - 1, found_open, scanned + 1)
            }
        } else {
            if scanned + 1 > 20 {
                false
            } else {
                spec_lambda_after_eq(toks, j + 1, count, found_open, scanned + 1)
            }
        }
    }
}

/// The scan of a bare parenthesis group: from just after the `(`, consume up
/// to the balancing `)` and, when `=>` follows at once, that too.  Yields
/// whether the arrow was found and how many tokens the scan consumed.
pub open spec fn spec_scan_paren(toks: Seq<TokenView>, j: nat, count: nat) -> (bool, nat)
    decreases toks.len() - j,
{
    if j >= toks.len() {
        (false, 0)
    } else {
        let t = toks[j as int];
        if is_op1(t, '(') {
            let (f, c) = spec_scan_paren(toks, j + 1, count + 1);
            (f, 1 + c)
        } else if is_op1(t, ')') {
            if count == 1 {
                if j + 1 < toks.len() && is_op2(toks[j as int + 1], '=', '>') {
                    (true, 2)
                } else {
                    (false, 1)
                }
            } else {
                let (f, c) = spec_scan_paren(toks, j + 1, (count - 1) as nat);
                (f, 1 + c)
            }
        } else {
            let (f, c) = spec_scan_paren(toks, j + 1, count);
            (f, 1 + c)
        }
    }
}

/// What is left of the input from a position on.
pub open spec fn remaining(toks: Seq<TokenView>, i: nat) -> nat {
    if i <= toks.len() {
        (toks.len() - i) as nat
    } else {
        0
    }
}

/// The block parser: consumes tokens from position `i`, with the items and
/// the pending line collected so far, until the end of input or a matching
/// `}`.  Yields the block's items and how many tokens it consumed.
///
/// A `fn` header or a lambda header that turns out malformed is replayed:
/// the tokens it consumed become ordinary line tokens.
pub open spec fn spec_parse(
    toks: Seq<TokenView>,
    i: nat,
    items: Seq<ItemView>,
    line: Seq<TokenView>,
) -> (Seq<ItemView>, nat)
    decreases remaining(toks, i), 1nat,
{
    let n = toks.len();
    if i >= n {
        (flush_view(items, line), 0)
    } else {
        let t = toks[i as int];
        match t {
            TokenView::Symbol(name) => {
                if name == seq!['f', 'n'] {
                    spec_parse_fn_def(toks, i, items, line)
                } else if i + 1 < n && is_op1(toks[i as int + 1], '=') {
                    if spec_lambda_after_eq(toks, i + 2, 0, false, 0) {
                        spec_parse_lambda_assign(toks, i, items, line)
                    } else {
                        let (r, c) = spec_parse(toks, i + 1, items, line.push(t));
                        (r, 1 + c)
                    }
                } else if i + 1 < n && is_op1(toks[i as int + 1], '(') && line.len() == 0 {
                    // a call statement: name ( arguments ); a call in the
                    // middle of a pending line stays in the line, for the
                    // evaluator's call pre-pass
                    let (args, ca) = spec_args(toks, i + 2, 0, Seq::empty(), Seq::empty());
                    let items2 = flush_view(items, line).push(
                        ItemView::FunctionCall(CallView { name, args }),
                    );
                    let (r, c) = spec_parse(toks, i + 2 + ca, items2, Seq::empty());
                    (r, 2 + ca + c)
                } else {
                    let (r, c) = spec_parse(toks, i + 1, items, line.push(t));
                    (r, 1 + c)
                }
            },
            TokenView::Oper(op) => {
                if op == seq!['('] {
                    spec_parse_bare_paren(toks, i, items, line)
                } else if op == seq!['{'] {
                    let items2 = flush_view(items, line);
                    let (body, cb) = spec_parse(toks, i + 1, Seq::empty(), Seq::empty());
                    let items3 = items2.push(ItemView::Block(BlockView { items: body }));
                    let (r, c) = spec_parse(toks, i + 1 + cb, items3, Seq::empty());
                    (r, 1 + cb + c)
                } else if op == seq!['}'] {
                    (flush_view(items, line), 1)
                } else if op == seq!['\n'] || op == seq![';'] {
                    let (r, c) = spec_parse(toks, i + 1, flush_view(items, line), Seq::empty());
                    (r, 1 + c)
                } else {
                    let (r, c) = spec_parse(toks, i + 1, items, line.push(t));
                    (r, 1 + c)
                }
            },
            _ => {
                let (r, c) = spec_parse(toks, i + 1, items, line.push(t));
                (r, 1 + c)
            },
        }
    }
}

/// A named definition `fn name ( params ) { body }`, starting at the `fn`
/// symbol.  On any shape failure the consumed tokens join the pending line.
pub open spec fn spec_parse_fn_def(
    toks: Seq<TokenView>,
    i: nat,
    items: Seq<ItemView>,
    line: Seq<TokenView>,
) -> (Seq<ItemView>, nat)
    recommends
        i < toks.len(),
    decreases remaining(toks, i), 0nat,
{
    let n = toks.len();
    if i >= n {
        (flush_view(items, line), 0)
    } else if i + 1 >= n {
        // `fn` at the very end
        let (r, c) = spec_parse(toks, i + 1, items, line.push(toks[i as int]));
        (r, 1 + c)
    } else if !is_sym(toks[i as int + 1]) {
        let (r, c) = spec_parse(toks, i + 2, items, line + toks.subrange(i as int, i as int + 2));
        (r, 2 + c)
    } else if i + 2 >= n || !is_op1(toks[i as int + 2], '(') {
        let hi = if i + 3 <= n {
            i + 3
        } else {
            n
        };
        let (r, c) = spec_parse(toks, hi, items, line + toks.subrange(i as int, hi as int));
        (r, ((hi - i) + c) as nat)
    } else {
        let name = sym_text(toks[i as int + 1]);
        let (params, cp) = spec_params(toks, i + 3, Seq::empty());
        let k = i + 3 + cp;
        if k < n && is_op1(toks[k as int], '{') {
            let (body, cb) = spec_parse(toks, k + 1, Seq::empty(), Seq::empty());
            let items2 = flush_view(items, line).push(
                ItemView::NamedFunction(
                    NamedFunView { name, params, body: BlockView { items: body } },
                ),
            );
            let (r, c) = spec_parse(toks, k + 1 + cb, items2, Seq::empty());
            (r, ((k + 1 + cb - i) + c) as nat)
        } else {
            let hi = if k + 1 <= n {
                k + 1
            } else {
                n
            };
            let (r, c) = spec_parse(toks, hi, items, line + toks.subrange(i as int, hi as int));
            (r, ((hi - i) + c) as nat)
        }
    }
}

/// A lambda assignment `name = ( params ) => { body }`, starting at the
/// symbol, after the lookahead has confirmed the `( ... ) =>` pattern.  The
/// token right after the `=` is consumed as the opening parenthesis without
/// a further look.  On a shape failure the consumed tokens join the pending
/// line.
pub open spec fn spec_parse_lambda_assign(
    toks: Seq<TokenView>,
    i: nat,
    items: Seq<ItemView>,
    line: Seq<TokenView>,
) -> (Seq<ItemView>, nat)
    recommends
        i + 1 < toks.len(),
    decreases remaining(toks, i), 0nat,
{
    let n = toks.len();
    if i + 1 >= n {
        (flush_view(items, line), 0)
    } else {
    let name = sym_text(toks[i as int]);
    let (params, cp) = spec_params(toks, i + 3, Seq::empty());
    let k = i + 3 + cp;
    if k < n && is_op2(toks[k as int], '=', '>') {
        if k + 1 < n && is_op1(toks[k as int + 1], '{') {
            let (body, cb) = spec_parse(toks, k + 2, Seq::empty(), Seq::empty());
            let items2 = flush_view(items, line).push(
                ItemView::NamedFunction(
                    NamedFunView { name, params, body: BlockView { items: body } },
                ),
            );
            let (r, c) = spec_parse(toks, k + 2 + cb, items2, Seq::empty());
            (r, ((k + 2 + cb - i) + c) as nat)
        } else {
            let hi = if k + 2 <= n {
                k + 2
            } else {
                n
            };
            let (r, c) = spec_parse(toks, hi, items, line + toks.subrange(i as int, hi as int));
            (r, ((hi - i) + c) as nat)
        }
    } else {
        let hi = if k + 1 <= n {
            k + 1
        } else {
            n
        };
        let (r, c) = spec_parse(toks, hi, items, line + toks.subrange(i as int, hi as int));
        (r, ((hi - i) + c) as nat)
    }
    }
}

/// A bare parenthesis group, starting at the `(`: scanned for the lambda
/// pattern `( params ) => { body }`; when the arrow and a brace follow, an
/// unnamed function is produced, otherwise the scanned tokens replay into
/// the pending line.
pub open spec fn spec_parse_bare_paren(
    toks: Seq<TokenView>,
    i: nat,
    items: Seq<ItemView>,
    line: Seq<TokenView>,
) -> (Seq<ItemView>, nat)
    recommends
        i < toks.len(),
    decreases remaining(toks, i), 0nat,
{
    let n = toks.len();
    if i >= n {
        (flush_view(items, line), 0)
    } else {
    let (found, cs) = spec_scan_paren(toks, i + 1, 1);
    let e = i + 1 + cs;
    if found {
        // the scan ends right after `=>`; parameters sit between the opening
        // parenthesis and the closing `) =>` pair
        let params = spec_syms_range(toks, i as int + 1, e as int - 2, Seq::empty());
        if e < n && is_op1(toks[e as int], '{') {
            let (body, cb) = spec_parse(toks, e + 1, Seq::empty(), Seq::empty());
            let items2 = flush_view(items, line).push(
                ItemView::Function(FunView { params, body: BlockView { items: body } }),
            );
            let (r, c) = spec_parse(toks, e + 1 + cb, items2, Seq::empty());
            (r, ((e + 1 + cb - i) + c) as nat)
        } else {
            let (r, c) = spec_parse(toks, e, items, line + toks.subrange(i as int, e as int));
            (r, ((e - i) + c) as nat)
        }
    } else {
        let (r, c) = spec_parse(toks, e, items, line + toks.subrange(i as int, e as int));
        (r, ((e - i) + c) as nat)
    }
    }
}

// ---------------------------------------------------------------------------
// The executable parser.
// ---------------------------------------------------------------------------
proof fn lemma_items_view_push(s: Seq<LangBlockItem>, x: LangBlockItem)
    ensures
        items_view(s.push(x)) == items_view(s).push(item_view(x)),
    decreases s.len(),
{
    let s2 = s.push(x);
    if s.len() == 0 {
        assert(s2.drop_first() =~= Seq::<LangBlockItem>::empty());
        assert(items_view(s2.drop_first()) =~= Seq::<ItemView>::empty());
        assert(s2[0] == x);
        assert(items_view(s2) =~= seq![item_view(x)]);
        assert(items_view(s) =~= Seq::<ItemView>::empty());
        assert(items_view(s).push(item_view(x)) =~= seq![item_view(x)]);
    } else {
        lemma_items_view_push(s.drop_first(), x);
        assert(s2.drop_first() =~= s.drop_first().push(x));
        assert(items_view(s2.drop_first()) == items_view(s.drop_first()).push(item_view(x)));
        assert(s2[0] == s[0]);
        assert(items_view(s2) =~= seq![item_view(s[0])] + items_view(s.drop_first()).push(
            item_view(x),
        ));
        assert(seq![item_view(s[0])] + items_view(s.drop_first()).push(item_view(x)) =~= (seq![
            item_view(s[0]),
        ] + items_view(s.drop_first())).push(item_view(x)));
    }
}

fn push_item(items: Vec<LangBlockItem>, it: LangBlockItem) -> (r: Vec<LangBlockItem>)
    ensures
        items_view(r@) == items_view(items@).push(item_view(it)),
{
    let ghost s = items@;
    let ghost iv = item_view(it);
    let mut items = items;
    items.push(it);
    proof {
        lemma_items_view_push(s, items@.last());
        assert(items_view(items@) == items_view(s).push(iv));
    }
    items
}

fn flush_line(items: Vec<LangBlockItem>, line: Vec<Token>) -> (r: (Vec<LangBlockItem>, Vec<Token>))
    ensures
        items_view(r.0@) == flush_view(items_view(items@), line.deep_view()),
        r.1.deep_view() == Seq::<TokenView>::empty(),
{
    if line.len() == 0 {
        proof {
            assert(line.deep_view() =~= Seq::<TokenView>::empty());
        }
        (items, line)
    } else {
        let r = push_item(items, LangBlockItem::Line(LangLine { tokens: line }));
        let empty: Vec<Token> = Vec::new();
        proof {
            assert(empty.deep_view() =~= Seq::<TokenView>::empty());
        }
        (r, empty)
    }
}

/// Appends fresh copies of a token range to a line.
fn extend_from_range(line: Vec<Token>, tokens: &Vec<Token>, lo: usize, hi: usize) -> (r: Vec<Token>)
    requires
        lo <= hi,
        hi <= tokens@.len(),
    ensures
        r.deep_view() == line.deep_view() + tokens.deep_view().subrange(lo as int, hi as int),
{
    let mut line = line;
    let ghost base = line.deep_view();
    proof {
        assert(line.deep_view() =~= base + tokens.deep_view().subrange(lo as int, lo as int));
    }
    let mut j = lo;
    while j < hi
        invariant
            lo <= j <= hi,
            hi <= tokens@.len(),
            line.deep_view() =~= base + tokens.deep_view().subrange(lo as int, j as int),
        decreases hi - j,
    {
        let ghost before = line.deep_view();
        let t = tokens[j].duplicate();
        line.push(t);
        proof {
            assert(line.deep_view() =~= before.push(t@));
            assert(line.deep_view() =~= base + tokens.deep_view().subrange(lo as int, j + 1));
        }
        j = j + 1;
    }
    line
}

/// Appends a fresh copy of one token to a line.
fn push_tok(line: Vec<Token>, t: &Token) -> (r: Vec<Token>)
    ensures
        r.deep_view() == line.deep_view().push(t@),
{
    let ghost base = line.deep_view();
    let mut line = line;
    line.push(t.duplicate());
    proof {
        assert(line.deep_view() =~= base.push(t@));
    }
    line
}

/// The text of a symbol token.
/// The text of a symbol token.
pub fn sym_name(t: &Token) -> (r: String)
    requires
        is_sym(t@),
    ensures
        r@ == sym_text(t@),
{
    match t {
        Token::Symbol(s) => s.value.clone(),
        _ => {
            proof {
                assert(false);
            }
            String::new()
        },
    }
}

fn params_go(tokens: &Vec<Token>, i: usize, acc: Vec<String>) -> (r: (Vec<String>, usize))
    ensures
        ({
            let (ps, c) = spec_params(tokens.deep_view(), i as nat, acc.deep_view());
            r.0.deep_view() == ps && r.1 == i + c
        }),
        r.1 >= i,
        i <= tokens@.len() ==> r.1 <= tokens@.len(),
    decreases tokens@.len() - i,
{
    let n = tokens.len();
    if i >= n {
        (acc, i)
    } else if tok_is_op1(&tokens[i], ')') {
        (acc, i + 1)
    } else {
        let acc2 = if tok_is_sym(&tokens[i]) {
            let ghost before = acc.deep_view();
            let mut acc = acc;
            let name = sym_name(&tokens[i]);
            let ghost nv = name@;
            acc.push(name);
            proof {
                assert(acc.deep_view() =~= before.push(nv));
            }
            acc
        } else {
            acc
        };
        params_go(tokens, i + 1, acc2)
    }
}

/// Collects the parameter names between an opening parenthesis and the first
/// closing one; yields them and the position right after that parenthesis.
pub fn parse_function_parameters_until_paren(tokens: &Vec<Token>, pos: usize) -> (r: (
    Vec<String>,
    usize,
))
    ensures
        ({
            let (ps, c) = spec_params(tokens.deep_view(), pos as nat, Seq::empty());
            r.0.deep_view() == ps && r.1 == pos + c
        }),
        r.1 >= pos,
        pos <= tokens@.len() ==> r.1 <= tokens@.len(),
{
    let acc: Vec<String> = Vec::new();
    proof {
        assert(acc.deep_view() =~= Seq::<Seq<char>>::empty());
    }
    params_go(tokens, pos, acc)
}

fn syms_go(tokens: &Vec<Token>, lo: usize, hi: usize, acc: Vec<String>) -> (r: Vec<String>)
    ensures
        r.deep_view() == spec_syms_range(tokens.deep_view(), lo as int, hi as int, acc.deep_view()),
    decreases hi - lo,
{
    if lo >= hi {
        acc
    } else {
        let acc2 = if lo < tokens.len() && tok_is_sym(&tokens[lo]) {
            let ghost before = acc.deep_view();
            let mut acc = acc;
            let name = sym_name(&tokens[lo]);
            let ghost nv = name@;
            acc.push(name);
            proof {
                assert(acc.deep_view() =~= before.push(nv));
            }
            acc
        } else {
            acc
        };
        syms_go(tokens, lo + 1, hi, acc2)
    }
}

/// The symbols in a token range: the parameters of a lambda header.
pub fn parse_parameters(tokens: &Vec<Token>, lo: usize, hi: usize) -> (r: Vec<String>)
    ensures
        r.deep_view() == spec_syms_range(
            tokens.deep_view(),
            lo as int,
            hi as int,
            Seq::<Seq<char>>::empty(),
        ),
{
    let acc: Vec<String> = Vec::new();
    proof {
        assert(acc.deep_view() =~= Seq::<Seq<char>>::empty());
    }
    syms_go(tokens, lo, hi, acc)
}

fn args_go(
    tokens: &Vec<Token>,
    i: usize,
    depth: usize,
    cur: Vec<Token>,
    acc: Vec<Vec<Token>>,
) -> (r: (Vec<Vec<Token>>, usize))
    requires
        depth <= i,
    ensures
        ({
            let (a, c) = spec_args(
                tokens.deep_view(),
                i as nat,
                depth as nat,
                cur.deep_view(),
                acc.deep_view(),
            );
            r.0.deep_view() == a && r.1 == i + c
        }),
        r.1 >= i,
        i <= tokens@.len() ==> r.1 <= tokens@.len(),
    decreases tokens@.len() - i,
{
    let n = tokens.len();
    if i >= n {
        (acc, i)
    } else {
        let closing = tok_is_op1(&tokens[i], ')');
        if closing && depth == 0 {
            if cur.len() > 0 {
                let ghost before = acc.deep_view();
                let ghost cv = cur.deep_view();
                let mut acc = acc;
                acc.push(cur);
                proof {
                    assert(acc.deep_view() =~= before.push(cv));
                }
                (acc, i + 1)
            } else {
                proof {
                    assert(cur.deep_view().len() == 0);
                }
                (acc, i + 1)
            }
        } else if tok_is_op1(&tokens[i], '(') {
            let cur2 = push_tok(cur, &tokens[i]);
            args_go(tokens, i + 1, depth + 1, cur2, acc)
        } else if closing {
            let cur2 = push_tok(cur, &tokens[i]);
            args_go(tokens, i + 1, depth - 1, cur2, acc)
        } else if tok_is_op1(&tokens[i], ',') && depth == 0 {
            let acc2 = if cur.len() > 0 {
                let ghost before = acc.deep_view();
                let ghost cv = cur.deep_view();
                let mut acc = acc;
                acc.push(cur);
                proof {
                    assert(acc.deep_view() =~= before.push(cv));
                }
                acc
            } else {
                proof {
                    assert(cur.deep_view().len() == 0);
                }
                acc
            };
            let empty: Vec<Token> = Vec::new();
            proof {
                assert(empty.deep_view() =~= Seq::<TokenView>::empty());
            }
            args_go(tokens, i + 1, depth, empty, acc2)
        } else {
            let cur2 = push_tok(cur, &tokens[i]);
            args_go(tokens, i + 1, depth, cur2, acc)
        }
    }
}

/// Splits the arguments of a call, starting right after its opening
/// parenthesis; yields the argument token runs and the position right after
/// the matching closing parenthesis.
pub fn parse_function_arguments(tokens: &Vec<Token>, pos: usize) -> (r: (Vec<Vec<Token>>, usize))
    ensures
        ({
            let (a, c) = spec_args(
                tokens.deep_view(),
                pos as nat,
                0,
                Seq::empty(),
                Seq::empty(),
            );
            r.0.deep_view() == a && r.1 == pos + c
        }),
        r.1 >= pos,
        pos <= tokens@.len() ==> r.1 <= tokens@.len(),
{
    let cur: Vec<Token> = Vec::new();
    let acc: Vec<Vec<Token>> = Vec::new();
    proof {
        assert(cur.deep_view() =~= Seq::<TokenView>::empty());
        assert(acc.deep_view() =~= Seq::<Seq<TokenView>>::empty());
    }
    args_go(tokens, pos, 0, cur, acc)
}

fn lambda_after_eq(
    tokens: &Vec<Token>,
    j: usize,
    count: i64,
    found_open: bool,
    scanned: u64,
) -> (r: bool)
    requires
        scanned <= 20,
        -(scanned as int) <= count as int <= scanned as int,
    ensures
        r == spec_lambda_after_eq(
            tokens.deep_view(),
            j as nat,
            count as int,
            found_open,
            scanned as nat,
        ),
    decreases tokens@.len() - j,
{
    let n = tokens.len();
    if j >= n {
        false
    } else {
        if tok_is_op1(&tokens[j], '(') {
            if scanned + 1 > 20 {
                false
            } else {
                lambda_after_eq(tokens, j + 1, count + 1, true, scanned + 1)
            }
        } else if tok_is_op1(&tokens[j], ')') {
            if count - 1 == 0 && found_open {
                j + 1 < n && tok_is_op2(&tokens[j + 1], '=', '>')
            } else if scanned + 1 > 20 {
                false
            } else {
                lambda_after_eq(tokens, j + 1, count - 1, found_open, scanned + 1)
            }
        } else {
            if scanned + 1 > 20 {
                false
            } else {
                lambda_after_eq(tokens, j + 1, count, found_open, scanned + 1)
            }
        }
    }
}

fn scan_paren(tokens: &Vec<Token>, j: usize, count: usize) -> (r: (bool, usize))
    requires
        1 <= count <= j + 1,
        tokens@.len() < usize::MAX - 4,
    ensures
        ({
            let (f, c) = spec_scan_paren(tokens.deep_view(), j as nat, count as nat);
            r.0 == f && r.1 == j + c
        }),
        r.1 >= j,
        j <= tokens@.len() ==> r.1 <= tokens@.len(),
        r.0 ==> r.1 >= j + 2,
    decreases tokens@.len() - j,
{
    let n = tokens.len();
    if j >= n {
        (false, j)
    } else {
        if tok_is_op1(&tokens[j], '(') {
            scan_paren(tokens, j + 1, count + 1)
        } else if tok_is_op1(&tokens[j], ')') {
            if count == 1 {
                if j + 1 < n && tok_is_op2(&tokens[j + 1], '=', '>') {
                    (true, j + 2)
                } else {
                    (false, j + 1)
                }
            } else {
                scan_paren(tokens, j + 1, count - 1)
            }
        } else {
            scan_paren(tokens, j + 1, count)
        }
    }
}

fn parse_go(tokens: &Vec<Token>, i: usize, items: Vec<LangBlockItem>, line: Vec<Token>) -> (r: (
    Vec<LangBlockItem>,
    usize,
))
    requires
        tokens@.len() < usize::MAX - 4,
    ensures
        ({
            let (its, c) = spec_parse(
                tokens.deep_view(),
                i as nat,
                items_view(items@),
                line.deep_view(),
            );
            items_view(r.0@) == its && r.1 == i + c
        }),
        r.1 >= i,
        i <= tokens@.len() ==> r.1 <= tokens@.len(),
    decreases tokens@.len() - i, 1nat,
{
    let n = tokens.len();
    if i >= n {
        let (its, _rest) = flush_line(items, line);
        (its, i)
    } else if tok_is_sym(&tokens[i]) {
        let is_fn_kw = match &tokens[i] {
            Token::Symbol(s) => str_is_2chars(&s.value, 'f', 'n'),
            _ => false,
        };
        if is_fn_kw {
            parse_fn_def(tokens, i, items, line)
        } else if i + 1 < n && tok_is_op1(&tokens[i + 1], '=') {
            if lambda_after_eq(tokens, i + 2, 0, false, 0) {
                parse_lambda_assign(tokens, i, items, line)
            } else {
                let line2 = push_tok(line, &tokens[i]);
                parse_go(tokens, i + 1, items, line2)
            }
        } else if i + 1 < n && tok_is_op1(&tokens[i + 1], '(') && line.len() == 0 {
            let name = sym_name(&tokens[i]);
            let (args, k) = parse_function_arguments(tokens, i + 2);
            let (items2, line2) = flush_line(items, line);
            let items3 = push_item(
                items2,
                LangBlockItem::FunctionCall(LangFunctionCall { name, arguments: args }),
            );
            parse_go(tokens, k, items3, line2)
        } else {
            let line2 = push_tok(line, &tokens[i]);
            parse_go(tokens, i + 1, items, line2)
        }
    } else if tok_is_op1(&tokens[i], '(') {
        parse_bare_paren(tokens, i, items, line)
    } else if tok_is_op1(&tokens[i], '{') {
        let (items2, line2) = flush_line(items, line);
        let empty_items: Vec<LangBlockItem> = Vec::new();
        let empty_line: Vec<Token> = Vec::new();
        proof {
            assert(items_view(empty_items@) =~= Seq::<ItemView>::empty());
            assert(empty_line.deep_view() =~= Seq::<TokenView>::empty());
        }
        let (body, m) = parse_go(tokens, i + 1, empty_items, empty_line);
        let items3 = push_item(items2, LangBlockItem::Block(LangBlock { items: body }));
        parse_go(tokens, m, items3, line2)
    } else if tok_is_op1(&tokens[i], '}') {
        let (items2, _rest) = flush_line(items, line);
        (items2, i + 1)
    } else if tok_is_op1(&tokens[i], '\n') || tok_is_op1(&tokens[i], ';') {
        let (items2, line2) = flush_line(items, line);
        parse_go(tokens, i + 1, items2, line2)
    } else {
        let line2 = push_tok(line, &tokens[i]);
        parse_go(tokens, i + 1, items, line2)
    }
}

fn parse_fn_def(tokens: &Vec<Token>, i: usize, items: Vec<LangBlockItem>, line: Vec<Token>) -> (r: (
    Vec<LangBlockItem>,
    usize,
))
    requires
        tokens@.len() < usize::MAX - 4,
        i < tokens@.len(),
    ensures
        ({
            let (its, c) = spec_parse_fn_def(
                tokens.deep_view(),
                i as nat,
                items_view(items@),
                line.deep_view(),
            );
            items_view(r.0@) == its && r.1 == i + c
        }),
        r.1 >= i,
        r.1 <= tokens@.len(),
    decreases tokens@.len() - i, 0nat,
{
    let n = tokens.len();
    if i + 1 >= n {
        let line2 = push_tok(line, &tokens[i]);
        parse_go(tokens, i + 1, items, line2)
    } else if !tok_is_sym(&tokens[i + 1]) {
        let line2 = extend_from_range(line, tokens, i, i + 2);
        parse_go(tokens, i + 2, items, line2)
    } else if i + 2 >= n || !tok_is_op1(&tokens[i + 2], '(') {
        let hi = if i + 3 <= n {
            i + 3
        } else {
            n
        };
        let line2 = extend_from_range(line, tokens, i, hi);
        parse_go(tokens, hi, items, line2)
    } else {
        let name = sym_name(&tokens[i + 1]);
        let (params, k) = parse_function_parameters_until_paren(tokens, i + 3);
        if k < n && tok_is_op1(&tokens[k], '{') {
            let empty_items: Vec<LangBlockItem> = Vec::new();
            let empty_line: Vec<Token> = Vec::new();
            proof {
                assert(items_view(empty_items@) =~= Seq::<ItemView>::empty());
                assert(empty_line.deep_view() =~= Seq::<TokenView>::empty());
            }
            let (body, m) = parse_go(tokens, k + 1, empty_items, empty_line);
            let (items2, line2) = flush_line(items, line);
            let items3 = push_item(
                items2,
                LangBlockItem::NamedFunction(
                    LangNamedFunction { name, parameters: params, body: LangBlock { items: body } },
                ),
            );
            parse_go(tokens, m, items3, line2)
        } else {
            let hi = if k + 1 <= n {
                k + 1
            } else {
                n
            };
            let line2 = extend_from_range(line, tokens, i, hi);
            parse_go(tokens, hi, items, line2)
        }
    }
}

fn parse_lambda_assign(
    tokens: &Vec<Token>,
    i: usize,
    items: Vec<LangBlockItem>,
    line: Vec<Token>,
) -> (r: (Vec<LangBlockItem>, usize))
    requires
        tokens@.len() < usize::MAX - 4,
        i + 1 < tokens@.len(),
        is_sym(tokens.deep_view()[i as int]),
    ensures
        ({
            let (its, c) = spec_parse_lambda_assign(
                tokens.deep_view(),
                i as nat,
                items_view(items@),
                line.deep_view(),
            );
            items_view(r.0@) == its && r.1 == i + c
        }),
        r.1 >= i,
        r.1 <= tokens@.len(),
    decreases tokens@.len() - i, 0nat,
{
    let n = tokens.len();
    let name = sym_name(&tokens[i]);
    let (params, k) = parse_function_parameters_until_paren(tokens, i + 3);
    if k < n && tok_is_op2(&tokens[k], '=', '>') {
        if k + 1 < n && tok_is_op1(&tokens[k + 1], '{') {
            let empty_items: Vec<LangBlockItem> = Vec::new();
            let empty_line: Vec<Token> = Vec::new();
            proof {
                assert(items_view(empty_items@) =~= Seq::<ItemView>::empty());
                assert(empty_line.deep_view() =~= Seq::<TokenView>::empty());
            }
            let (body, m) = parse_go(tokens, k + 2, empty_items, empty_line);
            let (items2, line2) = flush_line(items, line);
            let items3 = push_item(
                items2,
                LangBlockItem::NamedFunction(
                    LangNamedFunction { name, parameters: params, body: LangBlock { items: body } },
                ),
            );
            parse_go(tokens, m, items3, line2)
        } else {
            let hi = if k + 2 <= n {
                k + 2
            } else {
                n
            };
            let line2 = extend_from_range(line, tokens, i, hi);
            parse_go(tokens, hi, items, line2)
        }
    } else {
        let hi = if k + 1 <= n {
            k + 1
        } else {
            n
        };
        let line2 = extend_from_range(line, tokens, i, hi);
        parse_go(tokens, hi, items, line2)
    }
}

fn parse_bare_paren(
    tokens: &Vec<Token>,
    i: usize,
    items: Vec<LangBlockItem>,
    line: Vec<Token>,
) -> (r: (Vec<LangBlockItem>, usize))
    requires
        tokens@.len() < usize::MAX - 4,
        i < tokens@.len(),
    ensures
        ({
            let (its, c) = spec_parse_bare_paren(
                tokens.deep_view(),
                i as nat,
                items_view(items@),
                line.deep_view(),
            );
            items_view(r.0@) == its && r.1 == i + c
        }),
        r.1 >= i,
        r.1 <= tokens@.len(),
    decreases tokens@.len() - i, 0nat,
{
    let n = tokens.len();
    let (found, e) = scan_paren(tokens, i + 1, 1);
    if found {
        let params = parse_parameters(tokens, i + 1, e - 2);
        if e < n && tok_is_op1(&tokens[e], '{') {
            let empty_items: Vec<LangBlockItem> = Vec::new();
            let empty_line: Vec<Token> = Vec::new();
            proof {
                assert(items_view(empty_items@) =~= Seq::<ItemView>::empty());
                assert(empty_line.deep_view() =~= Seq::<TokenView>::empty());
            }
            let (body, m) = parse_go(tokens, e + 1, empty_items, empty_line);
            let (items2, line2) = flush_line(items, line);
            let items3 = push_item(
                items2,
                LangBlockItem::Function(
                    LangFunction { parameters: params, body: LangBlock { items: body } },
                ),
            );
            parse_go(tokens, m, items3, line2)
        } else {
            let line2 = extend_from_range(line, tokens, i, e);
            parse_go(tokens, e, items, line2)
        }
    } else {
        let line2 = extend_from_range(line, tokens, i, e);
        parse_go(tokens, e, items, line2)
    }
}

/// Parses tokens from `*pos` into a block, until the end of input or a
/// matching `}`; `*pos` ends up right after what was consumed.
pub fn parse_block(tokens: &Vec<Token>, pos: &mut usize) -> (b: LangBlock)
    requires
        tokens@.len() < usize::MAX - 4,
    ensures
        ({
            let (its, c) = spec_parse(
                tokens.deep_view(),
                *old(pos) as nat,
                Seq::empty(),
                Seq::empty(),
            );
            block_view(b) == (BlockView { items: its }) && *final(pos) == *old(pos) + c
        }),
        *final(pos) >= *old(pos),
        *old(pos) <= tokens@.len() ==> *final(pos) <= tokens@.len(),
{
    let empty_items: Vec<LangBlockItem> = Vec::new();
    let empty_line: Vec<Token> = Vec::new();
    proof {
        assert(items_view(empty_items@) =~= Seq::<ItemView>::empty());
        assert(empty_line.deep_view() =~= Seq::<TokenView>::empty());
    }
    let (its, end) = parse_go(tokens, *pos, empty_items, empty_line);
    *pos = end;
    LangBlock { items: its }
}

// ---------------------------------------------------------------------------
// Fresh copies.
// ---------------------------------------------------------------------------
/// A fresh copy of a vector of names.
pub fn duplicate_strings(v: &Vec<String>) -> (r: Vec<String>)
    ensures
        r.deep_view() == v.deep_view(),
{
    let mut out: Vec<String> = Vec::new();
    let mut i: usize = 0;
    while i < v.len()
        invariant
            i <= v.len(),
            out.deep_view() =~= v.deep_view().subrange(0, i as int),
        decreases v.len() - i,
    {
        let ghost before = out.deep_view();
        let s = v[i].clone();
        let ghost sv = s@;
        out.push(s);
        proof {
            assert(out.deep_view() =~= before.push(sv));
            assert(out.deep_view() =~= v.deep_view().subrange(0, i + 1));
        }
        i = i + 1;
    }
    proof {
        assert(v.deep_view().subrange(0, v.len() as int) =~= v.deep_view());
    }
    out
}

/// A fresh copy of a vector of token runs.
pub fn duplicate_token_runs(v: &Vec<Vec<Token>>) -> (r: Vec<Vec<Token>>)
    ensures
        r.deep_view() == v.deep_view(),
{
    let mut out: Vec<Vec<Token>> = Vec::new();
    let mut i: usize = 0;
    while i < v.len()
        invariant
            i <= v.len(),
            out.deep_view() =~= v.deep_view().subrange(0, i as int),
        decreases v.len() - i,
    {
        let ghost before = out.deep_view();
        let run = crate::lex::duplicate_tokens(&v[i]);
        let ghost rv = run.deep_view();
        out.push(run);
        proof {
            assert(out.deep_view() =~= before.push(rv));
            assert(out.deep_view() =~= v.deep_view().subrange(0, i + 1));
        }
        i = i + 1;
    }
    proof {
        assert(v.deep_view().subrange(0, v.len() as int) =~= v.deep_view());
    }
    out
}

impl LangBlockItem {
    /// A fresh item with the same view.
    pub fn duplicate(&self) -> (r: LangBlockItem)
        ensures
            item_view(r) == item_view(*self),
        decreases *self,
    {
        match self {
            LangBlockItem::Line(l) => LangBlockItem::Line(
                LangLine { tokens: crate::lex::duplicate_tokens(&l.tokens) },
            ),
            LangBlockItem::Block(b) => LangBlockItem::Block(b.duplicate()),
            LangBlockItem::Function(f) => LangBlockItem::Function(
                LangFunction { parameters: duplicate_strings(&f.parameters), body: f.body.duplicate() },
            ),
            LangBlockItem::NamedFunction(f) => LangBlockItem::NamedFunction(
                LangNamedFunction {
                    name: f.name.clone(),
                    parameters: duplicate_strings(&f.parameters),
                    body: f.body.duplicate(),
                },
            ),
            LangBlockItem::FunctionCall(c) => LangBlockItem::FunctionCall(
                LangFunctionCall {
                    name: c.name.clone(),
                    arguments: duplicate_token_runs(&c.arguments),
                },
            ),
        }
    }
}

impl LangBlock {
    /// A fresh block with the same view.
    pub fn duplicate(&self) -> (r: LangBlock)
        ensures
            block_view(r) == block_view(*self),
        decreases *self,
    {
        let mut out: Vec<LangBlockItem> = Vec::new();
        let mut i: usize = 0;
        while i < self.items.len()
            invariant
                i <= self.items.len(),
                out@.len() == i,
                forall|j: int| 0 <= j < i ==> item_view(out@[j]) == item_view(self.items@[j]),
            decreases self.items.len() - i,
        {
            let it = self.items[i].duplicate();
            out.push(it);
            i = i + 1;
        }
        proof {
            lemma_items_view(out@);
            lemma_items_view(self.items@);
            assert(items_view(out@) =~= items_view(self.items@));
        }
        LangBlock { items: out }
    }
}

impl LangFunction {
    /// A fresh function with the same view.
    pub fn duplicate(&self) -> (r: LangFunction)
        ensures
            fun_view(r) == fun_view(*self),
    {
        LangFunction { parameters: duplicate_strings(&self.parameters), body: self.body.duplicate() }
    }
}

} // verus!
