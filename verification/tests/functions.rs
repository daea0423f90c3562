use fcalc::env::Environment;

fn b(x: f64) -> u64 {
    x.to_bits()
}

fn get_variable(env: &Environment, name: &str) -> Option<u64> {
    env.get_variable(&name.to_string())
}

fn set_variable(env: &mut Environment, name: &str, value: f64) {
    env.set_variable(&name.to_string(), value.to_bits());
}

fn function_exists(env: &Environment, name: &str) -> bool {
    env.has_function(&name.to_string())
}

fn get_function_param_count(env: &Environment, name: &str) -> Option<usize> {
    env.get_function_param_count(&name.to_string())
}

#[test]
fn test_function_parsing() {
    let mut env = Environment::new();
    assert_eq!(env.run("fn add(x, y) { x + y }"), None);
    assert_eq!(env.run("fn double(a) { a * 2 }"), None);
    assert_eq!(env.run("fn answer() { 42 }"), None);
    assert_eq!(env.run("x = 5; fn increment(a) { a + x }"), None);
}

#[test]
fn test_named_function_definition() {
    let mut env = Environment::new();
    assert_eq!(env.run("fn sum(a, b) { a + b }"), None);
    assert!(function_exists(&env, "sum"));
    assert_eq!(get_function_param_count(&env, "sum"), Some(2));

    assert_eq!(env.run("fn double(x) { x * 2 }"), None);
    assert!(function_exists(&env, "double"));
    assert_eq!(get_function_param_count(&env, "double"), Some(1));

    assert_eq!(env.run("fn answer() { 42 }"), None);
    assert!(function_exists(&env, "answer"));
    assert_eq!(get_function_param_count(&env, "answer"), Some(0));
}

#[test]
fn test_function_calls() {
    let mut env = Environment::new();
    env.run("fn sum(a, b) { a + b }");
    env.run("fn square(x) { x * x }");
    env.run("fn constant() { 100 }");
    assert_eq!(env.run("sum(3, 4)"), Some(b(7.0)));
    assert_eq!(env.run("square(5)"), Some(b(25.0)));
    assert_eq!(env.run("constant()"), Some(b(100.0)));
}

#[test]
fn test_multiple_function_definitions() {
    let mut env = Environment::new();
    assert_eq!(env.run("fn add(x, y) { x + y }"), None);
    assert_eq!(env.run("fn multiply(a, b) { a * b }"), None);
    assert_eq!(env.run("fn negate(n) { 0 - n }"), None);
    assert!(function_exists(&env, "add"));
    assert!(function_exists(&env, "multiply"));
    assert!(function_exists(&env, "negate"));
    assert_eq!(get_function_param_count(&env, "add"), Some(2));
    assert_eq!(get_function_param_count(&env, "multiply"), Some(2));
    assert_eq!(get_function_param_count(&env, "negate"), Some(1));
}

#[test]
fn test_function_with_complex_body() {
    let mut env = Environment::new();
    assert_eq!(env.run("fn complex(x, y) { x * 2 + y / 2 - 1 }"), None);
    assert!(function_exists(&env, "complex"));
    assert_eq!(get_function_param_count(&env, "complex"), Some(2));
    assert_eq!(env.run("complex(5, 10)"), Some(b(14.0)));
}

#[test]
fn test_function_name_variations() {
    let mut env = Environment::new();
    assert_eq!(env.run("fn func1(x) { x }"), None);
    assert_eq!(env.run("fn _private(a, b) { a + b }"), None);
    assert_eq!(env.run("fn camelCase(n) { n * 2 }"), None);
    assert_eq!(env.run("fn snake_case(x, y, z) { x + y + z }"), None);
    assert!(function_exists(&env, "func1"));
    assert!(function_exists(&env, "_private"));
    assert!(function_exists(&env, "camelCase"));
    assert!(function_exists(&env, "snake_case"));
    assert_eq!(get_function_param_count(&env, "func1"), Some(1));
    assert_eq!(get_function_param_count(&env, "_private"), Some(2));
    assert_eq!(get_function_param_count(&env, "camelCase"), Some(1));
    assert_eq!(get_function_param_count(&env, "snake_case"), Some(3));
}

#[test]
fn test_function_call_nonexistent() {
    let mut env = Environment::new();
    assert_eq!(env.run("nonexistent(1, 2, 3)"), None);
    assert_eq!(env.run("undefined()"), None);
}

#[test]
fn test_anonymous_vs_named_functions() {
    let mut env = Environment::new();
    assert_eq!(env.run("fn increment(x) { x + 1 }"), None);
    assert!(function_exists(&env, "increment"));
    assert_eq!(get_function_param_count(&env, "increment"), Some(1));
    assert!(env.function_count() >= 1);
}

#[test]
fn test_function_redefinition() {
    let mut env = Environment::new();
    assert_eq!(env.run("fn test(x) { x * 2 }"), None);
    assert!(function_exists(&env, "test"));
    assert_eq!(get_function_param_count(&env, "test"), Some(1));
    assert_eq!(env.run("fn test(a, b) { a + b }"), None);
    assert!(function_exists(&env, "test"));
    assert_eq!(get_function_param_count(&env, "test"), Some(2));
}

#[test]
fn test_function_calls_with_expressions() {
    let mut env = Environment::new();
    env.run("fn calc(x, y) { x + y }");
    env.run("a = 5");
    env.run("b = 3");
    assert_eq!(env.run("calc(a, b)"), Some(b(8.0)));
    assert_eq!(env.run("calc(2 + 3, 4 * 2)"), Some(b(13.0)));
}

#[test]
fn test_function_call_assignment() {
    let mut env = Environment::new();
    env.run("fn add(a, b) { a + b }");
    assert!(function_exists(&env, "add"));
    assert_eq!(env.run("x = add(2, 3)"), Some(b(5.0)));
    assert_eq!(get_variable(&env, "x"), Some(b(5.0)));
    assert_eq!(env.run("y = x * 2"), Some(b(10.0)));
    assert_eq!(get_variable(&env, "y"), Some(b(10.0)));
    assert_eq!(env.run("z = add(x, y)"), Some(b(15.0)));
    assert_eq!(get_variable(&env, "z"), Some(b(15.0)));
    assert_eq!(env.run("result = add(1, 2) + add(3, 4)"), Some(b(10.0)));
    assert_eq!(get_variable(&env, "result"), Some(b(10.0)));
}

#[test]
fn test_multiple_function_call_assignments() {
    let mut env = Environment::new();
    env.run("fn multiply(a, b) { a * b }");
    env.run("fn subtract(a, b) { a - b }");
    assert!(function_exists(&env, "multiply"));
    assert!(function_exists(&env, "subtract"));
    assert_eq!(env.run("a = multiply(3, 4)"), Some(b(12.0)));
    assert_eq!(env.run("b = subtract(10, 3)"), Some(b(7.0)));
    assert_eq!(env.run("c = multiply(a, b)"), Some(b(84.0)));
    assert_eq!(get_variable(&env, "a"), Some(b(12.0)));
    assert_eq!(get_variable(&env, "b"), Some(b(7.0)));
    assert_eq!(get_variable(&env, "c"), Some(b(84.0)));
}

#[test]
fn test_function_call_with_variables() {
    let mut env = Environment::new();
    env.run("fn power(base, exp) { base * base }");
    assert!(function_exists(&env, "power"));
    set_variable(&mut env, "base", 5.0);
    set_variable(&mut env, "exp", 2.0);
    assert_eq!(env.run("result = power(base, exp)"), Some(b(25.0)));
    assert_eq!(get_variable(&env, "result"), Some(b(25.0)));
    assert_eq!(env.run("result2 = power(3, exp)"), Some(b(9.0)));
    assert_eq!(get_variable(&env, "result2"), Some(b(9.0)));
}

#[test]
fn test_mixing_variables_and_functions() {
    let mut env = Environment::new();
    assert_eq!(env.run("x = 10"), Some(b(10.0)));
    assert_eq!(env.run("fn double(n) { n * 2 }"), None);
    assert_eq!(env.run("y = 20"), Some(b(20.0)));
    assert_eq!(env.run("fn add(a, b) { a + b }"), None);
    assert_eq!(get_variable(&env, "x"), Some(b(10.0)));
    assert_eq!(get_variable(&env, "y"), Some(b(20.0)));
    assert!(function_exists(&env, "double"));
    assert!(function_exists(&env, "add"));
    assert_eq!(env.run("double(5)"), Some(b(10.0)));
    assert_eq!(env.run("add(x, y)"), Some(b(30.0)));
}

#[test]
fn test_fn_functions_with_variable_access() {
    let mut env = Environment::new();
    assert_eq!(env.run("global_x = 100"), Some(b(100.0)));
    assert_eq!(env.run("global_y = 50"), Some(b(50.0)));
    assert_eq!(
        env.run("fn use_globals(multiplier) { global_x * multiplier + global_y }"),
        None
    );
    assert!(function_exists(&env, "use_globals"));
    assert_eq!(env.run("use_globals(2)"), Some(b(250.0)));
    assert_eq!(env.run("global_x = 10"), Some(b(10.0)));
    assert_eq!(env.run("use_globals(3)"), Some(b(80.0)));
}

#[test]
fn test_nested_function_calls() {
    let mut env = Environment::new();
    assert_eq!(env.run("fn add(a, b) { a + b }"), None);
    assert_eq!(env.run("fn multiply(x, y) { x * y }"), None);
    assert_eq!(env.run("fn square(n) { n * n }"), None);
    assert_eq!(env.run("add(multiply(3, 4), square(2))"), Some(b(16.0)));
    assert_eq!(env.run("multiply(add(2, 3), square(3))"), Some(b(45.0)));
    assert_eq!(env.run("square(add(3, 2))"), Some(b(25.0)));
}

#[test]
fn test_functions_calling_other_functions() {
    let mut env = Environment::new();
    assert_eq!(env.run("fn add(a, b) { a + b }"), None);
    assert_eq!(env.run("fn multiply(x, y) { x * y }"), None);
    assert_eq!(env.run("fn calculate(a, b, c) { multiply(add(a, b), c) }"), None);
    assert!(function_exists(&env, "calculate"));
    assert_eq!(env.run("calculate(2, 3, 4)"), Some(b(20.0)));
    assert_eq!(env.run("calculate(1, 1, 10)"), Some(b(20.0)));
}

#[test]
fn test_functions_with_complex_expressions() {
    let mut env = Environment::new();
    assert_eq!(env.run("fn quadratic(a, b, c, x) { a * x * x + b * x + c }"), None);
    assert!(function_exists(&env, "quadratic"));
    assert_eq!(env.run("quadratic(1, 2, 3, 2)"), Some(b(11.0)));
    assert_eq!(env.run("quadratic(2, -3, 1, 3)"), Some(b(10.0)));
    assert_eq!(env.run("fn complex_calc(x, y) { (x + y) * (x - y) + x * y }"), None);
    assert!(function_exists(&env, "complex_calc"));
    assert_eq!(env.run("complex_calc(5, 3)"), Some(b(31.0)));
}

#[test]
fn test_function_parameter_shadowing() {
    let mut env = Environment::new();
    assert_eq!(env.run("x = 100"), Some(b(100.0)));
    assert_eq!(env.run("fn shadow_test(x) { x * 2 }"), None);
    assert!(function_exists(&env, "shadow_test"));
    assert_eq!(env.run("shadow_test(5)"), Some(b(10.0)));
    assert_eq!(get_variable(&env, "x"), Some(b(100.0)));
}

#[test]
fn test_multiple_parameter_functions() {
    let mut env = Environment::new();
    assert_eq!(env.run("fn sum_five(a, b, c, d, e) { a + b + c + d + e }"), None);
    assert!(function_exists(&env, "sum_five"));
    assert_eq!(get_function_param_count(&env, "sum_five"), Some(5));
    assert_eq!(env.run("sum_five(1, 2, 3, 4, 5)"), Some(b(15.0)));
    assert_eq!(env.run("sum_five(10, 20, 30, 40, 50)"), Some(b(150.0)));
    assert_eq!(env.run("fn weighted_sum(a, b, c) { a * 3 + b * 2 + c }"), None);
    assert!(function_exists(&env, "weighted_sum"));
    assert_eq!(env.run("weighted_sum(1, 2, 3)"), Some(b(10.0)));
}

#[test]
fn test_function_with_zero_parameters() {
    let mut env = Environment::new();
    assert_eq!(env.run("fn pi() { 3.14159 }"), None);
    assert_eq!(env.run("fn get_answer() { 42 }"), None);
    assert_eq!(env.run("fn random_number() { 123.456 }"), None);
    assert!(function_exists(&env, "pi"));
    assert!(function_exists(&env, "get_answer"));
    assert!(function_exists(&env, "random_number"));
    assert_eq!(env.run("pi()"), Some(b(3.14159)));
    assert_eq!(env.run("get_answer()"), Some(b(42.0)));
    assert_eq!(env.run("random_number()"), Some(b(123.456)));
    assert_eq!(env.run("result = pi() * 2"), Some(b(6.28318)));
    assert_eq!(env.run("answer_plus_one = get_answer() + 1"), Some(b(43.0)));
}

#[test]
fn test_function_call_error_handling() {
    let mut env = Environment::new();
    assert_eq!(env.run("fn divide(a, b) { a / b }"), None);
    assert!(function_exists(&env, "divide"));
    assert_eq!(env.run("divide(10, 2)"), Some(b(5.0)));
    assert_eq!(env.run("divide(10, 0)"), None);
    assert_eq!(env.run("result = divide(5, 0)"), None);
}

#[test]
fn test_function_definition_with_statements() {
    let mut env = Environment::new();
    assert_eq!(env.run("x = 5; fn double(n) { n * 2 }; y = 10"), None);
    assert_eq!(get_variable(&env, "x"), Some(b(5.0)));
    assert_eq!(get_variable(&env, "y"), Some(b(10.0)));
    assert!(function_exists(&env, "double"));
    assert_eq!(env.run("double(7)"), Some(b(14.0)));
}

#[test]
fn test_complex_function_chains() {
    let mut env = Environment::new();
    assert_eq!(env.run("fn increment(x) { x + 1 }"), None);
    assert_eq!(env.run("fn double(x) { x * 2 }"), None);
    assert_eq!(env.run("fn square(x) { x * x }"), None);
    assert_eq!(env.run("result = square(double(increment(3)))"), Some(b(64.0)));
    assert_eq!(env.run("base = 2"), Some(b(2.0)));
    assert_eq!(env.run("final = square(double(increment(base)))"), Some(b(36.0)));
}

#[test]
fn test_function_with_conditional_logic() {
    let mut env = Environment::new();
    assert_eq!(env.run("fn abs_like(x) { x * x / x }"), None);
    assert!(function_exists(&env, "abs_like"));
    assert_eq!(env.run("abs_like(5)"), Some(b(5.0)));
    assert_eq!(env.run("abs_like(-3)"), Some(b(-3.0)));
    assert_eq!(env.run("abs_like(0)"), None);
}

#[test]
fn test_function_mathematical_operations() {
    let mut env = Environment::new();
    assert_eq!(env.run("fn cube(x) { x * x * x }"), None);
    assert_eq!(env.run("fn avg(a, b) { (a + b) / 2 }"), None);
    assert_eq!(
        env.run("fn distance(x1, y1, x2, y2) { ((x2 - x1) * (x2 - x1) + (y2 - y1) * (y2 - y1)) }"),
        None
    );
    assert_eq!(env.run("cube(3)"), Some(b(27.0)));
    assert_eq!(env.run("cube(-2)"), Some(b(-8.0)));
    assert_eq!(env.run("avg(10, 20)"), Some(b(15.0)));
    assert_eq!(env.run("avg(-5, 5)"), Some(b(0.0)));
    assert_eq!(env.run("distance(0, 0, 3, 4)"), Some(b(25.0)));
    assert_eq!(env.run("distance(1, 1, 4, 5)"), Some(b(25.0)));
}

#[test]
fn test_function_with_large_expressions() {
    let mut env = Environment::new();
    assert_eq!(
        env.run("fn polynomial(x) { x * x * x * x + 3 * x * x * x + 2 * x * x + x + 1 }"),
        None
    );
    assert!(function_exists(&env, "polynomial"));
    assert_eq!(env.run("polynomial(0)"), Some(b(1.0)));
    assert_eq!(env.run("polynomial(1)"), Some(b(8.0)));
    assert_eq!(env.run("polynomial(2)"), Some(b(51.0)));
}

#[test]
fn test_function_stress_test() {
    let mut env = Environment::new();
    for i in 1..=10 {
        let func_def = format!("fn func{}(x) {{ x + {} }}", i, i);
        assert_eq!(env.run(&func_def), None);
        assert!(env.has_function(&format!("func{}", i)));
    }
    for i in 1..=10 {
        let func_call = format!("func{}(10)", i);
        let expected = 10.0 + i as f64;
        assert_eq!(env.run(&func_call), Some(b(expected)));
    }
    assert_eq!(env.run("func1(func2(func3(0)))"), Some(b(6.0)));
}

#[test]
fn test_edge_case_function_names() {
    let mut env = Environment::new();
    assert_eq!(env.run("fn a(x) { x }"), None);
    assert_eq!(env.run("fn _a(x) { x * 2 }"), None);
    assert_eq!(env.run("fn a1(x) { x * 3 }"), None);
    assert_eq!(env.run("fn _1a(x) { x * 4 }"), None);
    assert_eq!(env.run("fn very_long_function_name_that_should_work(x) { x * 5 }"), None);
    assert_eq!(env.run("a(1)"), Some(b(1.0)));
    assert_eq!(env.run("_a(1)"), Some(b(2.0)));
    assert_eq!(env.run("a1(1)"), Some(b(3.0)));
    assert_eq!(env.run("_1a(1)"), Some(b(4.0)));
    assert_eq!(env.run("very_long_function_name_that_should_work(1)"), Some(b(5.0)));
}

#[test]
fn test_function_with_arithmetic_precedence() {
    let mut env = Environment::new();
    assert_eq!(env.run("fn precedence_test(a, b, c) { a + b * c }"), None);
    assert!(function_exists(&env, "precedence_test"));
    assert_eq!(env.run("precedence_test(2, 3, 4)"), Some(b(14.0)));
    assert_eq!(env.run("precedence_test(10, 2, 3)"), Some(b(16.0)));
    assert_eq!(env.run("fn complex_precedence(x, y, z) { x * y / z + x - y }"), None);
    assert!(function_exists(&env, "complex_precedence"));
    // (6 * 4) / 2 + 6 - 4 = 12 + 6 - 4, by the standard precedence the
    // language promises
    assert_eq!(env.run("complex_precedence(6, 4, 2)"), Some(b(14.0)));
}

#[test]
fn test_function_return_values_in_expressions() {
    let mut env = Environment::new();
    assert_eq!(env.run("fn triple(x) { x * 3 }"), None);
    assert_eq!(env.run("fn halve(x) { x / 2 }"), None);
    assert_eq!(env.run("result = triple(4) + halve(10) * 2"), Some(b(22.0)));
    assert_eq!(env.run("complex = triple(halve(8)) - halve(triple(2))"), Some(b(9.0)));
    assert_eq!(env.run("x = triple(3)"), Some(b(9.0)));
    assert_eq!(env.run("y = halve(x)"), Some(b(4.5)));
    assert_eq!(get_variable(&env, "x"), Some(b(9.0)));
    assert_eq!(get_variable(&env, "y"), Some(b(4.5)));
}
