use crate::text::{
    char_is_alphabetic, char_is_alphanumeric, char_is_numeric, char_is_whitespace, is_alnum_char,
    is_alpha_char, is_numeric_char, is_space_char, parse_i64_digits, push_char, spec_parse_i64,
    str_contains_char, str_is_char, string_of_char,
};
use crate::value::real_bits_of;
use crate::value::parse_real_bits;
use vstd::prelude::*;

verus! {

// ---------------------------------------------------------------------------
// Tokens.
// ---------------------------------------------------------------------------
pub struct LangInteger {
    pub value: i64,
}

/// A real-number literal, carried as the bit pattern of its binary64 value.
pub struct LangRealNumber {
    pub bits: u64,
}

pub enum LangNumber {
    Integer(LangInteger),
    RealNumber(LangRealNumber),
}

pub struct LangSymbol {
    pub value: String,
}

pub struct LangString {
    pub value: String,
}

pub struct LangOperator {
    pub value: String,
}

pub enum Token {
    Number(LangNumber),
    Symbol(LangSymbol),
    Str(LangString),
    Operator(LangOperator),
}

/// The mathematical shape of a token: its kind and its text or value.
pub enum TokenView {
    IntLit(i64),
    RealLit(u64),
    Symbol(Seq<char>),
    Text(Seq<char>),
    Oper(Seq<char>),
}

impl View for Token {
    type V = TokenView;

    open spec fn view(&self) -> TokenView {
        match self {
            Token::Number(LangNumber::Integer(n)) => TokenView::IntLit(n.value),
            Token::Number(LangNumber::RealNumber(r)) => TokenView::RealLit(r.bits),
            Token::Symbol(s) => TokenView::Symbol(s.value@),
            Token::Str(s) => TokenView::Text(s.value@),
            Token::Operator(o) => TokenView::Oper(o.value@),
        }
    }
}

impl DeepView for Token {
    type V = TokenView;

    open spec fn deep_view(&self) -> TokenView {
        self.view()
    }
}

impl Token {
    /// A fresh token equal to this one.
    pub fn duplicate(&self) -> (r: Token)
        ensures
            r@ == self@,
    {
        match self {
            Token::Number(LangNumber::Integer(n)) => Token::Number(
                LangNumber::Integer(LangInteger { value: n.value }),
            ),
            Token::Number(LangNumber::RealNumber(x)) => Token::Number(
                LangNumber::RealNumber(LangRealNumber { bits: x.bits }),
            ),
            Token::Symbol(s) => Token::Symbol(LangSymbol { value: s.value.clone() }),
            Token::Str(s) => Token::Str(LangString { value: s.value.clone() }),
            Token::Operator(o) => Token::Operator(LangOperator { value: o.value.clone() }),
        }
    }

    /// A fresh operator token with the given single-character text.
    pub fn operator_of_char(c: char) -> (r: Token)
        ensures
            r@ == TokenView::Oper(seq![c]),
    {
        Token::Operator(LangOperator { value: string_of_char(c) })
    }
}

/// A fresh copy of a token vector.
pub fn duplicate_tokens(ts: &Vec<Token>) -> (r: Vec<Token>)
    ensures
        r.deep_view() == ts.deep_view(),
{
    let mut out: Vec<Token> = Vec::new();
    let mut i: usize = 0;
    while i < ts.len()
        invariant
            i <= ts.len(),
            out.deep_view() =~= ts.deep_view().subrange(0, i as int),
        decreases ts.len() - i,
    {
        let ghost before = out.deep_view();
        let t = ts[i].duplicate();
        out.push(t);
        proof {
            assert(out.deep_view() =~= before.push(t.deep_view()));
            assert(out.deep_view() =~= ts.deep_view().subrange(0, i + 1));
        }
        i = i + 1;
    }
    proof {
        assert(ts.deep_view().subrange(0, ts.len() as int) =~= ts.deep_view());
    }
    out
}

// ---------------------------------------------------------------------------
// The lexer's state machine.
//
// One token is in progress at a time.  A character either extends it or
// finishes it and starts the next one; `\r` is dropped everywhere, and `\n`
// finishes whatever is in progress and is emitted as its own operator token.
// Whitespace runs and comments are dropped.  The separators and brackets
// `{ } ( ) , ;` always stand alone as one-character operator tokens; other
// operator text accumulates as a maximal run.  A `/` operator followed by
// `/` or `*` becomes a comment; a line comment runs to the next newline, a
// block comment to its closing `*/`.
// ---------------------------------------------------------------------------
/// A token in progress, as text accumulated so far.
pub enum PartialView {
    Idle,
    Ws,
    Num(Seq<char>),
    Sym(Seq<char>),
    Text(Seq<char>),
    Oper(Seq<char>),
    Com(Seq<char>),
}

/// The characters that always stand alone as one-character operator
/// tokens, whatever run they would otherwise join.
pub open spec fn is_structural(c: char) -> bool {
    c == '{' || c == '}' || c == '(' || c == ')' || c == ',' || c == ';'
}

/// The token in progress that a character begins: a quote opens a string
/// (the quote itself excluded), a letter or `_` a symbol, a numeric
/// character a number, whitespace a whitespace run, anything else an
/// operator run.
pub open spec fn start_class(c: char) -> PartialView {
    if c == '"' {
        PartialView::Text(Seq::empty())
    } else if is_alpha_char(c) || c == '_' {
        PartialView::Sym(seq![c])
    } else if is_numeric_char(c) {
        PartialView::Num(seq![c])
    } else if is_space_char(c) {
        PartialView::Ws
    } else {
        PartialView::Oper(seq![c])
    }
}

/// The tokens (none or one) that a finished token-in-progress yields.
/// Number text holding a dot denotes a real literal, other number text an
/// integer literal; either falls back to value zero when malformed.
pub open spec fn materialize_view(p: PartialView) -> Seq<TokenView> {
    match p {
        PartialView::Idle => Seq::empty(),
        PartialView::Ws => Seq::empty(),
        PartialView::Com(_) => Seq::empty(),
        PartialView::Num(cs) => if cs.contains('.') {
            seq![TokenView::RealLit(real_bits_of(cs))]
        } else {
            seq![TokenView::IntLit(spec_parse_i64(cs))]
        },
        PartialView::Sym(cs) => seq![TokenView::Symbol(cs)],
        PartialView::Text(cs) => seq![TokenView::Text(cs)],
        PartialView::Oper(cs) => seq![TokenView::Oper(cs)],
    }
}

/// The tokens of the input from position `i` on, given the token in
/// progress and the tokens already produced.
pub open spec fn spec_lex_from(
    s: Seq<char>,
    i: nat,
    p: PartialView,
    out: Seq<TokenView>,
) -> Seq<TokenView>
    decreases s.len() - i,
{
    if i >= s.len() {
        out + materialize_view(p)
    } else {
        let c = s[i as int];
        if c == '\r' {
            spec_lex_from(s, i + 1, p, out)
        } else if c == '\n' {
            spec_lex_from(
                s,
                i + 1,
                PartialView::Idle,
                out + materialize_view(p) + seq![TokenView::Oper(seq!['\n'])],
            )
        } else if is_structural(c) && !(p is Text) && !(p is Com) {
            spec_lex_from(
                s,
                i + 1,
                PartialView::Idle,
                out + materialize_view(p) + seq![TokenView::Oper(seq![c])],
            )
        } else {
            match p {
                PartialView::Idle => spec_lex_from(s, i + 1, start_class(c), out),
                PartialView::Ws => if is_space_char(c) {
                    spec_lex_from(s, i + 1, PartialView::Ws, out)
                } else {
                    spec_lex_from(s, i + 1, start_class(c), out)
                },
                PartialView::Num(cs) => if is_numeric_char(c) || c == '.' {
                    spec_lex_from(s, i + 1, PartialView::Num(cs.push(c)), out)
                } else {
                    spec_lex_from(
                        s,
                        i + 1,
                        start_class(c),
                        out + materialize_view(PartialView::Num(cs)),
                    )
                },
                PartialView::Sym(cs) => if is_alnum_char(c) || c == '_' {
                    spec_lex_from(s, i + 1, PartialView::Sym(cs.push(c)), out)
                } else {
                    spec_lex_from(s, i + 1, start_class(c), out + seq![TokenView::Symbol(cs)])
                },
                PartialView::Text(cs) => if c == '"' {
                    spec_lex_from(s, i + 1, PartialView::Idle, out + seq![TokenView::Text(cs)])
                } else {
                    spec_lex_from(s, i + 1, PartialView::Text(cs.push(c)), out)
                },
                PartialView::Oper(cs) => if cs == seq!['/'] && (c == '/' || c == '*') {
                    spec_lex_from(s, i + 1, PartialView::Com(seq!['/', c]), out)
                } else if c == '"' || is_space_char(c) || is_alnum_char(c) {
                    spec_lex_from(s, i + 1, start_class(c), out + seq![TokenView::Oper(cs)])
                } else {
                    spec_lex_from(s, i + 1, PartialView::Oper(cs.push(c)), out)
                },
                PartialView::Com(cs) => {
                    let cs2 = cs.push(c);
                    if cs2.len() >= 3 && cs2[1] == '*' && cs2[cs2.len() - 2] == '*' && cs2[cs2.len()
                        - 1] == '/' {
                        spec_lex_from(s, i + 1, PartialView::Idle, out)
                    } else {
                        spec_lex_from(s, i + 1, PartialView::Com(cs2), out)
                    }
                },
            }
        }
    }
}

/// The token stream of a piece of source text.
pub open spec fn spec_lex(s: Seq<char>) -> Seq<TokenView> {
    spec_lex_from(s, 0, PartialView::Idle, Seq::empty())
}

// ---------------------------------------------------------------------------
// The executable lexer.
// ---------------------------------------------------------------------------
pub enum Partial {
    Idle,
    Ws,
    Num(String),
    Sym(String),
    Text(String),
    Oper(String),
    Com(String),
}

impl View for Partial {
    type V = PartialView;

    open spec fn view(&self) -> PartialView {
        match self {
            Partial::Idle => PartialView::Idle,
            Partial::Ws => PartialView::Ws,
            Partial::Num(cs) => PartialView::Num(cs@),
            Partial::Sym(cs) => PartialView::Sym(cs@),
            Partial::Text(cs) => PartialView::Text(cs@),
            Partial::Oper(cs) => PartialView::Oper(cs@),
            Partial::Com(cs) => PartialView::Com(cs@),
        }
    }
}

pub fn start_of(c: char) -> (p: Partial)
    ensures
        p@ == start_class(c),
{
    if c == '"' {
        Partial::Text(String::new())
    } else if char_is_alphabetic(c) || c == '_' {
        Partial::Sym(string_of_char(c))
    } else if char_is_numeric(c) {
        Partial::Num(string_of_char(c))
    } else if char_is_whitespace(c) {
        Partial::Ws
    } else {
        Partial::Oper(string_of_char(c))
    }
}

/// Appends the finished token (if any) of a token-in-progress.
fn push_materialized(out: Vec<Token>, p: Partial) -> (r: Vec<Token>)
    ensures
        r.deep_view() == out.deep_view() + materialize_view(p@),
{
    let mut out = out;
    match p {
        Partial::Idle => {
            proof {
                assert(out.deep_view() =~= out.deep_view() + materialize_view(PartialView::Idle));
            }
        },
        Partial::Ws => {
            proof {
                assert(out.deep_view() =~= out.deep_view() + materialize_view(PartialView::Ws));
            }
        },
        Partial::Com(cs) => {
            proof {
                assert(out.deep_view() =~= out.deep_view() + materialize_view(
                    PartialView::Com(cs@),
                ));
            }
        },
        Partial::Num(cs) => {
            let ghost pv = PartialView::Num(cs@);
            let t = if str_contains_char(&cs, '.') {
                Token::Number(
                    LangNumber::RealNumber(LangRealNumber { bits: parse_real_bits(cs.as_str()) }),
                )
            } else {
                Token::Number(LangNumber::Integer(LangInteger { value: parse_i64_digits(&cs) }))
            };
            let ghost before = out.deep_view();
            out.push(t);
            proof {
                assert(out.deep_view() =~= before + materialize_view(pv));
            }
        },
        Partial::Sym(cs) => {
            let ghost pv = PartialView::Sym(cs@);
            let ghost before = out.deep_view();
            out.push(Token::Symbol(LangSymbol { value: cs }));
            proof {
                assert(out.deep_view() =~= before + materialize_view(pv));
            }
        },
        Partial::Text(cs) => {
            let ghost pv = PartialView::Text(cs@);
            let ghost before = out.deep_view();
            out.push(Token::Str(LangString { value: cs }));
            proof {
                assert(out.deep_view() =~= before + materialize_view(pv));
            }
        },
        Partial::Oper(cs) => {
            let ghost pv = PartialView::Oper(cs@);
            let ghost before = out.deep_view();
            out.push(Token::Operator(LangOperator { value: cs }));
            proof {
                assert(out.deep_view() =~= before + materialize_view(pv));
            }
        },
    }
    out
}

fn lex_go(line: &str, i: usize, p: Partial, out: Vec<Token>) -> (r: Vec<Token>)
    requires
        i <= line@.len(),
    ensures
        r.deep_view() == spec_lex_from(line@, i as nat, p@, out.deep_view()),
    decreases line@.len() - i,
{
    if i == line.unicode_len() {
        push_materialized(out, p)
    } else {
        let c = line.get_char(i);
        if c == '\r' {
            lex_go(line, i + 1, p, out)
        } else if c == '\n' {
            let mut out2 = push_materialized(out, p);
            let ghost before = out2.deep_view();
            out2.push(Token::operator_of_char('\n'));
            proof {
                assert(out2.deep_view() =~= before + seq![TokenView::Oper(seq!['\n'])]);
            }
            lex_go(line, i + 1, Partial::Idle, out2)
        } else if (c == '{' || c == '}' || c == '(' || c == ')' || c == ',' || c == ';') && (match &p {
            Partial::Text(_) => false,
            Partial::Com(_) => false,
            _ => true,
        }) {
            let mut out2 = push_materialized(out, p);
            let ghost before = out2.deep_view();
            out2.push(Token::operator_of_char(c));
            proof {
                assert(out2.deep_view() =~= before + seq![TokenView::Oper(seq![c])]);
            }
            lex_go(line, i + 1, Partial::Idle, out2)
        } else {
            match p {
                Partial::Idle => lex_go(line, i + 1, start_of(c), out),
                Partial::Ws => {
                    if char_is_whitespace(c) {
                        lex_go(line, i + 1, Partial::Ws, out)
                    } else {
                        lex_go(line, i + 1, start_of(c), out)
                    }
                },
                Partial::Num(mut cs) => {
                    if char_is_numeric(c) || c == '.' {
                        push_char(&mut cs, c);
                        lex_go(line, i + 1, Partial::Num(cs), out)
                    } else {
                        let out2 = push_materialized(out, Partial::Num(cs));
                        lex_go(line, i + 1, start_of(c), out2)
                    }
                },
                Partial::Sym(mut cs) => {
                    if char_is_alphanumeric(c) || c == '_' {
                        push_char(&mut cs, c);
                        lex_go(line, i + 1, Partial::Sym(cs), out)
                    } else {
                        let out2 = push_materialized(out, Partial::Sym(cs));
                        lex_go(line, i + 1, start_of(c), out2)
                    }
                },
                Partial::Text(mut cs) => {
                    if c == '"' {
                        let out2 = push_materialized(out, Partial::Text(cs));
                        lex_go(line, i + 1, Partial::Idle, out2)
                    } else {
                        push_char(&mut cs, c);
                        lex_go(line, i + 1, Partial::Text(cs), out)
                    }
                },
                Partial::Oper(mut cs) => {
                    if str_is_char(&cs, '/') && (c == '/' || c == '*') {
                        push_char(&mut cs, c);
                        proof {
                            assert(cs@ =~= seq!['/', c]);
                        }
                        lex_go(line, i + 1, Partial::Com(cs), out)
                    } else if c == '"' || char_is_whitespace(c) || char_is_alphanumeric(c) {
                        let out2 = push_materialized(out, Partial::Oper(cs));
                        lex_go(line, i + 1, start_of(c), out2)
                    } else {
                        push_char(&mut cs, c);
                        lex_go(line, i + 1, Partial::Oper(cs), out)
                    }
                },
                Partial::Com(mut cs) => {
                    push_char(&mut cs, c);
                    let n = cs.as_str().unicode_len();
                    let closed = n >= 3 && cs.as_str().get_char(1) == '*' && cs.as_str().get_char(
                        n - 2,
                    ) == '*' && cs.as_str().get_char(n - 1) == '/';
                    if closed {
                        lex_go(line, i + 1, Partial::Idle, out)
                    } else {
                        lex_go(line, i + 1, Partial::Com(cs), out)
                    }
                },
            }
        }
    }
}

/// Converts source text into its token stream.
pub fn lex(line: &str) -> (r: Vec<Token>)
    ensures
        r.deep_view() == spec_lex(line@),
{
    let out: Vec<Token> = Vec::new();
    proof {
        assert(out.deep_view() =~= Seq::<TokenView>::empty());
    }
    lex_go(line, 0, Partial::Idle, out)
}

} // verus!
