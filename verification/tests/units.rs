use fcalc::env::Environment;
use fcalc::lex::{lex, LangNumber, Token};
use fcalc::parse::{parse_block, LangBlockItem};
use fcalc::postfix::get_precedence;

fn b(x: f64) -> u64 {
    x.to_bits()
}

// ---------------------------------------------------------------------------
// Lexer units.
// ---------------------------------------------------------------------------
#[test]
fn test_lex_kinds_and_values() {
    let toks = lex("foo + 12.5");
    assert_eq!(toks.len(), 3);
    match &toks[0] {
        Token::Symbol(s) => assert_eq!(s.value, "foo"),
        _ => panic!("expected a symbol"),
    }
    match &toks[1] {
        Token::Operator(o) => assert_eq!(o.value, "+"),
        _ => panic!("expected an operator"),
    }
    match &toks[2] {
        Token::Number(LangNumber::RealNumber(r)) => assert_eq!(r.bits, b(12.5)),
        _ => panic!("expected a real literal"),
    }
}

#[test]
fn test_lex_integer_literal() {
    let toks = lex("999999999");
    assert_eq!(toks.len(), 1);
    match &toks[0] {
        Token::Number(LangNumber::Integer(n)) => assert_eq!(n.value, 999999999),
        _ => panic!("expected an integer literal"),
    }
}

#[test]
fn test_lex_integer_overflow_degrades_to_zero() {
    // more digits than an i64 can hold: the numeral silently reads as 0
    let toks = lex("99999999999999999999999999");
    assert_eq!(toks.len(), 1);
    match &toks[0] {
        Token::Number(LangNumber::Integer(n)) => assert_eq!(n.value, 0),
        _ => panic!("expected an integer literal"),
    }
}

#[test]
fn test_lex_malformed_real_degrades_to_zero() {
    let toks = lex("1.2.3");
    assert_eq!(toks.len(), 1);
    match &toks[0] {
        Token::Number(LangNumber::RealNumber(r)) => assert_eq!(r.bits, b(0.0)),
        _ => panic!("expected a real literal"),
    }
}

#[test]
fn test_lex_string_literal() {
    let toks = lex("\"hi there\"");
    assert_eq!(toks.len(), 1);
    match &toks[0] {
        Token::Str(s) => assert_eq!(s.value, "hi there"),
        _ => panic!("expected a string literal"),
    }
}

#[test]
fn test_lex_line_comment_dropped() {
    let toks = lex("a // rest is gone");
    assert_eq!(toks.len(), 1);
    match &toks[0] {
        Token::Symbol(s) => assert_eq!(s.value, "a"),
        _ => panic!("expected a symbol"),
    }
}

#[test]
fn test_lex_block_comment_dropped() {
    let toks = lex("a /* gone */ b");
    assert_eq!(toks.len(), 2);
    match &toks[1] {
        Token::Symbol(s) => assert_eq!(s.value, "b"),
        _ => panic!("expected a symbol"),
    }
}

#[test]
fn test_lex_newline_is_an_operator_token() {
    let toks = lex("a\nb");
    assert_eq!(toks.len(), 3);
    match &toks[1] {
        Token::Operator(o) => assert_eq!(o.value, "\n"),
        _ => panic!("expected a newline operator"),
    }
}

#[test]
fn test_lex_carriage_return_dropped() {
    let toks = lex("a\r\nb");
    assert_eq!(toks.len(), 3);
}

#[test]
fn test_lex_operator_runs_are_maximal() {
    let toks = lex("a => b");
    assert_eq!(toks.len(), 3);
    match &toks[1] {
        Token::Operator(o) => assert_eq!(o.value, "=>"),
        _ => panic!("expected the arrow operator"),
    }
}

// ---------------------------------------------------------------------------
// Parser units.
// ---------------------------------------------------------------------------
#[test]
fn test_parse_named_function() {
    let toks = lex("fn f(a, b) { a + b }");
    let mut pos = 0;
    let block = parse_block(&toks, &mut pos);
    assert_eq!(block.items.len(), 1);
    match &block.items[0] {
        LangBlockItem::NamedFunction(nf) => {
            assert_eq!(nf.name, "f");
            assert_eq!(nf.parameters, vec!["a".to_string(), "b".to_string()]);
            assert_eq!(nf.body.items.len(), 1);
        },
        _ => panic!("expected a named function"),
    }
}

#[test]
fn test_parse_call_splits_arguments() {
    let toks = lex("g(1 + 2, h(3), 4)");
    let mut pos = 0;
    let block = parse_block(&toks, &mut pos);
    assert_eq!(block.items.len(), 1);
    match &block.items[0] {
        LangBlockItem::FunctionCall(c) => {
            assert_eq!(c.name, "g");
            assert_eq!(c.arguments.len(), 3);
            assert_eq!(c.arguments[0].len(), 3);
            assert_eq!(c.arguments[1].len(), 4);
            assert_eq!(c.arguments[2].len(), 1);
        },
        _ => panic!("expected a call"),
    }
}

#[test]
fn test_parse_plain_parenthesized_assignment_stays_a_line() {
    let mut env = Environment::new();
    assert_eq!(env.run("x = (2 + 3)"), Some(b(5.0)));
    assert_eq!(env.get_variable(&"x".to_string()), Some(b(5.0)));
    assert!(!env.has_function(&"x".to_string()));
}

#[test]
fn test_parse_nested_blocks() {
    let mut env = Environment::new();
    assert_eq!(env.run("{ 1 + 1 }"), Some(b(2.0)));
}

#[test]
fn test_precedence_table() {
    assert_eq!(get_precedence("="), 0);
    assert_eq!(get_precedence("+"), 1);
    assert_eq!(get_precedence("-"), 1);
    assert_eq!(get_precedence("*"), 2);
    assert_eq!(get_precedence("/"), 2);
    assert_eq!(get_precedence("%"), -1);
    assert_eq!(get_precedence("=>"), -1);
}

// ---------------------------------------------------------------------------
// Evaluation edges.
// ---------------------------------------------------------------------------
#[test]
fn test_unary_minus() {
    let mut env = Environment::new();
    assert_eq!(env.run("-5"), Some(b(-5.0)));
    assert_eq!(env.run("-2 + -3"), Some(b(-5.0)));
    // a sign is rewritten as `0 -`, which keeps the subtraction's own
    // binding strength: `2 * -3` reads as `2 * 0 - 3`
    assert_eq!(env.run("2 * -3"), Some(b(-3.0)));
    assert_eq!(env.run("2 * (-3)"), Some(b(-6.0)));
}

#[test]
fn test_missing_assignment_target() {
    let mut env = Environment::new();
    assert_eq!(env.run("3 = 5"), None);
}

#[test]
fn test_arity_mismatch_yields_nothing() {
    let mut env = Environment::new();
    env.run("fn add2(a, b) { a + b }");
    assert_eq!(env.run("add2(1)"), None);
    assert_eq!(env.run("add2(1, 2, 3)"), None);
}

#[test]
fn test_six_parameters_is_a_reported_limit() {
    let mut env = Environment::new();
    env.run("fn six(a, b, c, d, e, f) { a }");
    assert_eq!(env.run("six(1, 2, 3, 4, 5, 6)"), None);
}

#[test]
fn test_string_in_call_free_body_is_a_backend_failure() {
    let mut env = Environment::new();
    env.run("fn s(x) { \"abc\" }");
    assert_eq!(env.run("s(1)"), None);
}

#[test]
fn test_body_with_nested_definition_yields_nothing() {
    let mut env = Environment::new();
    env.run("fn add(a, b) { a + b }");
    env.run("fn weird() { fn inner() { 2 }\nadd(1, 2) }");
    assert_eq!(env.run("weird()"), None);
}

#[test]
fn test_self_recursion_is_cut_off() {
    let mut env = Environment::new();
    env.run("fn rec(x) { rec(x) }");
    assert_eq!(env.run("rec(1)"), None);
}

#[test]
fn test_empty_body_yields_zero() {
    let mut env = Environment::new();
    env.run("fn nothing() { }");
    assert_eq!(env.run("nothing()"), Some(b(0.0)));
}

#[test]
fn test_anonymous_function_gets_generated_name() {
    let mut env = Environment::new();
    assert_eq!(env.run("(x) => {x * 2}"), None);
    assert!(env.has_function(&"func_1_0".to_string()));
    assert_eq!(env.run("func_1_0(21)"), Some(b(42.0)));
}

#[test]
fn test_failed_division_keeps_earlier_bindings() {
    let mut env = Environment::new();
    assert_eq!(env.run("a = 1; b = 2 / 0; c = 3"), Some(b(3.0)));
    assert_eq!(env.get_variable(&"a".to_string()), Some(b(1.0)));
    assert_eq!(env.get_variable(&"b".to_string()), None);
    assert_eq!(env.get_variable(&"c".to_string()), Some(b(3.0)));
}

// ---------------------------------------------------------------------------
// The dual execution strategy, observed.
// ---------------------------------------------------------------------------
#[test]
fn test_dual_paths_identical() {
    let mut env = Environment::new();
    // `plain` is call-free and takes the fast path; `routed` computes the
    // same sum through another stored function and is interpreted
    env.run("fn plain(a, b) { a + b }");
    env.run("fn id(x) { x }");
    env.run("fn routed(a, b) { id(a + b) }");
    for i in 0..5 {
        let line_fast = format!("plain({}, {})", i, i * 7);
        let line_slow = format!("routed({}, {})", i, i * 7);
        assert_eq!(env.run(&line_fast), env.run(&line_slow));
    }
    assert_eq!(env.run("plain(2.5, 0.25)"), Some(b(2.75)));
    assert_eq!(env.run("routed(2.5, 0.25)"), Some(b(2.75)));
}

#[test]
fn test_repeated_call_same_result() {
    let mut env = Environment::new();
    env.run("fn square(x) { x * x }");
    let first = env.run("square(5)");
    assert_eq!(first, Some(b(25.0)));
    for _ in 0..10 {
        assert_eq!(env.run("square(5)"), first);
    }
}

#[test]
fn test_globals_read_inside_call_free_body() {
    let mut env = Environment::new();
    env.run("g = 7");
    env.run("fn plus_g(x) { x + g }");
    assert_eq!(env.run("plus_g(1)"), Some(b(8.0)));
    env.run("g = 9");
    assert_eq!(env.run("plus_g(1)"), Some(b(10.0)));
}

#[test]
fn test_assignment_inside_body_does_not_leak() {
    let mut env = Environment::new();
    env.run("fn id(x) { x }");
    // the body writes a variable and ends with a call, so it is interpreted;
    // the write is rolled back when the call returns
    env.run("fn writer(x) { t = x * 2\nid(t) }");
    assert_eq!(env.run("writer(4)"), Some(b(8.0)));
    assert_eq!(env.get_variable(&"t".to_string()), None);
}

#[test]
fn test_lex_comment_keeps_line_separation() {
    let toks = lex("a // c\nb");
    assert_eq!(toks.len(), 3);
    match &toks[1] {
        Token::Operator(o) => assert_eq!(o.value, "\n"),
        _ => panic!("expected a newline operator"),
    }
}

#[test]
fn test_lex_string_keeps_brackets() {
    let toks = lex("\"a(b,c)\"");
    assert_eq!(toks.len(), 1);
    match &toks[0] {
        Token::Str(s) => assert_eq!(s.value, "a(b,c)"),
        _ => panic!("expected a string literal"),
    }
}

// ---------------------------------------------------------------------------
// The structural dump.
// ---------------------------------------------------------------------------
#[test]
fn test_render_lines_and_blocks() {
    let toks = lex("x = 1\n{ y }");
    let mut pos = 0;
    let block = parse_block(&toks, &mut pos);
    assert_eq!(block.render(), "Line 1: x = 1\nBlock 2:\n  Line 1: y\n");
}

#[test]
fn test_render_named_function_and_call() {
    let toks = lex("fn f(a, b) { a + b }\nf(1, 2)");
    let mut pos = 0;
    let block = parse_block(&toks, &mut pos);
    assert_eq!(
        block.render(),
        "Named Function 1: f (a, b) => {\n  Line 1: a + b\n}\nFunction Call 2: f(1, 2)\n"
    );
}

#[test]
fn test_multiline_body_last_line_wins() {
    let mut env = Environment::new();
    env.run("fn multi(a, b) { a + b\na * b }");
    assert_eq!(env.run("multi(3, 4)"), Some(b(12.0)));
    env.run("fn id(x) { x }");
    env.run("fn multi_routed(a, b) { t = id(a) * id(b)\nt }");
    assert_eq!(env.run("multi_routed(3, 4)"), Some(b(12.0)));
}

