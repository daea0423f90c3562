use fcalc::env::Environment;

fn b(x: f64) -> u64 {
    x.to_bits()
}

fn get_variable(env: &Environment, name: &str) -> Option<u64> {
    env.get_variable(&name.to_string())
}

fn set_variable(env: &mut Environment, name: &str, value: f64) {
    env.set_variable(&name.to_string(), value.to_bits());
}

#[test]
fn test_simple_arithmetic() {
    let mut env = Environment::new();
    assert_eq!(env.run("2 + 3"), Some(b(5.0)));
    assert_eq!(env.run("10 - 4"), Some(b(6.0)));
    assert_eq!(env.run("3 * 4"), Some(b(12.0)));
    assert_eq!(env.run("15 / 3"), Some(b(5.0)));
}

#[test]
fn test_operator_precedence() {
    let mut env = Environment::new();
    assert_eq!(env.run("2 + 3 * 4"), Some(b(14.0)));
    assert_eq!(env.run("10 - 6 / 2"), Some(b(7.0)));
    assert_eq!(env.run("2 * 3 + 4"), Some(b(10.0)));
    assert_eq!(env.run("20 / 4 - 2"), Some(b(3.0)));
}

#[test]
fn test_parentheses() {
    let mut env = Environment::new();
    assert_eq!(env.run("(2 + 3) * 4"), Some(b(20.0)));
    assert_eq!(env.run("2 * (3 + 4)"), Some(b(14.0)));
    assert_eq!(env.run("(10 - 6) / 2"), Some(b(2.0)));
    assert_eq!(env.run("20 / (4 - 2)"), Some(b(10.0)));
}

#[test]
fn test_variable_assignment() {
    let mut env = Environment::new();
    assert_eq!(env.run("x = 5"), Some(b(5.0)));
    assert_eq!(get_variable(&env, "x"), Some(b(5.0)));
    assert_eq!(env.run("y = 10"), Some(b(10.0)));
    assert_eq!(get_variable(&env, "y"), Some(b(10.0)));
    assert_eq!(env.run("z = x + y"), Some(b(15.0)));
    assert_eq!(get_variable(&env, "z"), Some(b(15.0)));
}

#[test]
fn test_variable_usage() {
    let mut env = Environment::new();
    set_variable(&mut env, "a", 5.0);
    set_variable(&mut env, "b", 3.0);
    assert_eq!(env.run("a + b"), Some(b(8.0)));
    assert_eq!(env.run("a * b"), Some(b(15.0)));
    assert_eq!(env.run("a - b"), Some(b(2.0)));
    assert_eq!(env.run("a / b"), Some(b(5.0 / 3.0)));
}

#[test]
fn test_complex_expressions() {
    let mut env = Environment::new();
    assert_eq!(env.run("x = 2"), Some(b(2.0)));
    assert_eq!(env.run("y = 3"), Some(b(3.0)));
    assert_eq!(env.run("z = x * y + 1"), Some(b(7.0)));
    assert_eq!(get_variable(&env, "z"), Some(b(7.0)));
    env.run("result = (x + y) * z");
    assert_eq!(get_variable(&env, "result"), Some(b(35.0)));
}

#[test]
fn test_floating_point_numbers() {
    let mut env = Environment::new();
    assert_eq!(env.run("3.14 + 2.86"), Some(b(6.0)));
    assert_eq!(env.run("5.5 * 2"), Some(b(11.0)));
    assert_eq!(env.run("x = 3.14159"), Some(b(3.14159)));
    assert_eq!(get_variable(&env, "x"), Some(b(3.14159)));
}

#[test]
fn test_division_by_zero() {
    let mut env = Environment::new();
    assert_eq!(env.run("5 / 0"), None);
    assert_eq!(env.run("x = 10 / 0"), None);
}

#[test]
fn test_undefined_variables() {
    let mut env = Environment::new();
    assert_eq!(env.run("undefined_var + 5"), Some(b(5.0)));
    assert_eq!(env.run("x = undefined_var * 2"), Some(b(0.0)));
}

#[test]
fn test_multiple_statements() {
    let mut env = Environment::new();
    let result = env.run("x = 5; y = 10; z = x + y");
    assert_eq!(result, Some(b(15.0)));
    assert_eq!(get_variable(&env, "x"), Some(b(5.0)));
    assert_eq!(get_variable(&env, "y"), Some(b(10.0)));
    assert_eq!(get_variable(&env, "z"), Some(b(15.0)));
}

#[test]
fn test_newline_separated_statements() {
    let mut env = Environment::new();
    let result = env.run("x = 3\ny = 4\nresult = x * y");
    assert_eq!(result, Some(b(12.0)));
    assert_eq!(get_variable(&env, "x"), Some(b(3.0)));
    assert_eq!(get_variable(&env, "y"), Some(b(4.0)));
    assert_eq!(get_variable(&env, "result"), Some(b(12.0)));
}

#[test]
fn test_chained_assignments() {
    let mut env = Environment::new();
    assert_eq!(env.run("x = y = 5"), Some(b(5.0)));
    assert_eq!(get_variable(&env, "x"), Some(b(5.0)));
    assert_eq!(get_variable(&env, "y"), Some(b(5.0)));
}

#[test]
fn test_assignment_with_expression() {
    let mut env = Environment::new();
    set_variable(&mut env, "a", 10.0);
    set_variable(&mut env, "b", 5.0);
    assert_eq!(env.run("result = a * 2 + b"), Some(b(25.0)));
    assert_eq!(get_variable(&env, "result"), Some(b(25.0)));
}

#[test]
fn test_empty_input() {
    let mut env = Environment::new();
    assert_eq!(env.run(""), None);
    assert_eq!(env.run("   "), None);
}

#[test]
fn test_whitespace_handling() {
    let mut env = Environment::new();
    assert_eq!(env.run("  2   +   3  "), Some(b(5.0)));
    assert_eq!(env.run(" x = 5 "), Some(b(5.0)));
    assert_eq!(get_variable(&env, "x"), Some(b(5.0)));
}

#[test]
fn test_variable_names() {
    let mut env = Environment::new();
    assert_eq!(env.run("var1 = 5"), Some(b(5.0)));
    assert_eq!(env.run("_underscore = 10"), Some(b(10.0)));
    assert_eq!(env.run("camelCase = 15"), Some(b(15.0)));
    assert_eq!(env.run("snake_case = 20"), Some(b(20.0)));
    assert_eq!(get_variable(&env, "var1"), Some(b(5.0)));
    assert_eq!(get_variable(&env, "_underscore"), Some(b(10.0)));
    assert_eq!(get_variable(&env, "camelCase"), Some(b(15.0)));
    assert_eq!(get_variable(&env, "snake_case"), Some(b(20.0)));
}

#[test]
fn test_large_numbers() {
    let mut env = Environment::new();
    assert_eq!(env.run("1000000 + 1"), Some(b(1000001.0)));
    assert_eq!(env.run("x = 999999999"), Some(b(999999999.0)));
    assert_eq!(get_variable(&env, "x"), Some(b(999999999.0)));
}

#[test]
fn test_negative_results() {
    let mut env = Environment::new();
    assert_eq!(env.run("3 - 8"), Some(b(-5.0)));
    assert_eq!(env.run("x = 2 - 10"), Some(b(-8.0)));
    assert_eq!(get_variable(&env, "x"), Some(b(-8.0)));
}

#[test]
fn test_fractional_results() {
    let mut env = Environment::new();
    assert_eq!(env.run("7 / 2"), Some(b(3.5)));
    assert_eq!(env.run("1 / 3"), Some(b(1.0 / 3.0)));
}
