use crate::lex::{LangNumber, Token};
use crate::parse::{LangBlock, LangBlockItem};
use crate::text::{dec_str, string_of_char, u64_to_string};
use rustc_apfloat::ieee::Double;
use rustc_apfloat::Float;
use vstd::prelude::*;
use vstd::string::StringExecFns;

verus! {

broadcast use {vstd::std_specs::vec::group_vec_axioms, vstd::seq::group_seq_axioms};

/// The decimal text a real literal's bit pattern renders as.
pub uninterp spec fn real_text_of(b: u64) -> Seq<char>;

/// Relies on rustc_apfloat's `Display` for `ieee::Double`: the decimal text
/// of the binary64 value with the given bits, a function of the bits alone.
#[verifier::external_body]
fn real_text(b: u64) -> (r: String)
    ensures
        r@ == real_text_of(b),
{
    format!("{}", Double::from_bits(b as u128))
}

/// The text of a signed integer.
pub open spec fn int_text(v: i64) -> Seq<char> {
    if v >= 0 {
        dec_str(v as nat)
    } else {
        seq!['-'] + dec_str((-(v as int)) as nat)
    }
}

fn i64_to_string(v: i64) -> (r: String)
    ensures
        r@ == int_text(v),
{
    if v >= 0 {
        u64_to_string(v as u64)
    } else {
        let m: u64 = (-(v as i128)) as u64;
        proof {
            assert(m as nat == (-(v as int)) as nat);
        }
        let mut s = string_of_char('-');
        let digits = u64_to_string(m);
        s.append(digits.as_str());
        proof {
            assert(s@ =~= seq!['-'] + dec_str(m as nat));
        }
        s
    }
}

/// The display text of one token.
fn token_text(t: &Token) -> String {
    match t {
        Token::Number(LangNumber::Integer(n)) => i64_to_string(n.value),
        Token::Number(LangNumber::RealNumber(x)) => real_text(x.bits),
        Token::Symbol(s) => s.value.clone(),
        Token::Str(s) => {
            let mut out = string_of_char('"');
            out.append(s.value.as_str());
            out.append("\"");
            out
        },
        Token::Operator(o) => o.value.clone(),
    }
}

fn spaced_tokens(tokens: &Vec<Token>) -> String {
    let mut out = String::new();
    let mut i: usize = 0;
    while i < tokens.len()
        decreases tokens@.len() - i,
    {
        if i > 0 {
            out.append(" ");
        }
        let piece = token_text(&tokens[i]);
        out.append(piece.as_str());
        i = i + 1;
    }
    out
}

fn joined_names(names: &Vec<String>) -> String {
    let mut out = String::new();
    let mut i: usize = 0;
    while i < names.len()
        decreases names@.len() - i,
    {
        if i > 0 {
            out.append(", ");
        }
        out.append(names[i].as_str());
        i = i + 1;
    }
    out
}

fn indent_text(level: usize) -> String {
    let mut out = String::new();
    let mut i: usize = 0;
    while i < level
        decreases level - i,
    {
        out.append("  ");
        i = i + 1;
    }
    out
}

fn render_items(b: &LangBlock, level: usize) -> (r: String)
    decreases *b, 0nat,
{
    let indent = indent_text(level);
    let deeper = if level < usize::MAX {
        level + 1
    } else {
        level
    };
    let mut out = String::new();
    let mut i: usize = 0;
    while i < b.items.len()
        decreases *b, b.items@.len() - i,
    {
        let n = u64_to_string((i as u64) + 1);
        match &b.items[i] {
            LangBlockItem::Line(l) => {
                out.append(indent.as_str());
                out.append("Line ");
                out.append(n.as_str());
                out.append(": ");
                let body = spaced_tokens(&l.tokens);
                out.append(body.as_str());
                out.append("\n");
            },
            LangBlockItem::Block(nested) => {
                out.append(indent.as_str());
                out.append("Block ");
                out.append(n.as_str());
                out.append(":\n");
                let body = render_items(nested, deeper);
                out.append(body.as_str());
            },
            LangBlockItem::Function(f) => {
                out.append(indent.as_str());
                out.append("Function ");
                out.append(n.as_str());
                out.append(": (");
                let params = joined_names(&f.parameters);
                out.append(params.as_str());
                out.append(") => {\n");
                let body = render_items(&f.body, deeper);
                out.append(body.as_str());
                out.append(indent.as_str());
                out.append("}\n");
            },
            LangBlockItem::NamedFunction(nf) => {
                out.append(indent.as_str());
                out.append("Named Function ");
                out.append(n.as_str());
                out.append(": ");
                out.append(nf.name.as_str());
                out.append(" (");
                let params = joined_names(&nf.parameters);
                out.append(params.as_str());
                out.append(") => {\n");
                let body = render_items(&nf.body, deeper);
                out.append(body.as_str());
                out.append(indent.as_str());
                out.append("}\n");
            },
            LangBlockItem::FunctionCall(c) => {
                out.append(indent.as_str());
                out.append("Function Call ");
                out.append(n.as_str());
                out.append(": ");
                out.append(c.name.as_str());
                out.append("(");
                let mut j: usize = 0;
                while j < c.arguments.len()
                    decreases c.arguments@.len() - j,
                {
                    if j > 0 {
                        out.append(", ");
                    }
                    let arg = spaced_tokens(&c.arguments[j]);
                    out.append(arg.as_str());
                    j = j + 1;
                }
                out.append(")\n");
            },
        }
        i = i + 1;
    }
    out
}

/// A block paired with an indentation level, for a structural text dump.
pub struct DisplayBlock<'a> {
    pub block: &'a LangBlock,
    pub indent_level: usize,
}

impl<'a> DisplayBlock<'a> {
    /// Pairs a block with an indentation level.
    pub fn new(block: &'a LangBlock, indent_level: usize) -> (r: Self)
        ensures
            r.block == block,
            r.indent_level == indent_level,
    {
        DisplayBlock { block, indent_level }
    }

    /// A human-readable dump of the block: one line per item, nested
    /// structures indented one level deeper.
    pub fn render(&self) -> String {
        render_items(self.block, self.indent_level)
    }
}

impl LangBlock {
    /// A human-readable dump of the block, unindented.
    pub fn render(&self) -> String {
        DisplayBlock::new(self, 0).render()
    }
}

} // verus!
