use fcalc::env::Environment;

fn b(x: f64) -> u64 {
    x.to_bits()
}

fn get_variable(env: &Environment, name: &str) -> Option<u64> {
    env.get_variable(&name.to_string())
}

fn function_exists(env: &Environment, name: &str) -> bool {
    env.has_function(&name.to_string())
}

fn get_function_param_count(env: &Environment, name: &str) -> Option<usize> {
    env.get_function_param_count(&name.to_string())
}

#[test]
fn test_lambda_function_definition() {
    let mut env = Environment::new();
    assert_eq!(env.run("add = (a, b) => {a + b}"), None);
    assert!(function_exists(&env, "add"));
    assert_eq!(get_function_param_count(&env, "add"), Some(2));

    assert_eq!(env.run("double = (x) => {x * 2}"), None);
    assert!(function_exists(&env, "double"));
    assert_eq!(get_function_param_count(&env, "double"), Some(1));

    assert_eq!(env.run("answer = () => {42}"), None);
    assert!(function_exists(&env, "answer"));
    assert_eq!(get_function_param_count(&env, "answer"), Some(0));
}

#[test]
fn test_lambda_function_calls() {
    let mut env = Environment::new();
    env.run("sum = (a, b) => {a + b}");
    env.run("square = (x) => {x * x}");
    env.run("constant = () => {100}");
    assert_eq!(env.run("sum(3, 4)"), Some(b(7.0)));
    assert_eq!(env.run("square(5)"), Some(b(25.0)));
    assert_eq!(env.run("constant()"), Some(b(100.0)));
}

#[test]
fn test_lambda_function_with_complex_body() {
    let mut env = Environment::new();
    assert_eq!(env.run("complex = (x, y) => {x * 2 + y / 2 - 1}"), None);
    assert!(function_exists(&env, "complex"));
    assert_eq!(get_function_param_count(&env, "complex"), Some(2));
    assert_eq!(env.run("complex(5, 10)"), Some(b(14.0)));
}

#[test]
fn test_lambda_function_name_variations() {
    let mut env = Environment::new();
    assert_eq!(env.run("func1 = (x) => {x}"), None);
    assert_eq!(env.run("_private = (a, b) => {a + b}"), None);
    assert_eq!(env.run("camelCase = (n) => {n * 2}"), None);
    assert_eq!(env.run("snake_case = (x, y, z) => {x + y + z}"), None);
    assert!(function_exists(&env, "func1"));
    assert!(function_exists(&env, "_private"));
    assert!(function_exists(&env, "camelCase"));
    assert!(function_exists(&env, "snake_case"));
    assert_eq!(get_function_param_count(&env, "func1"), Some(1));
    assert_eq!(get_function_param_count(&env, "_private"), Some(2));
    assert_eq!(get_function_param_count(&env, "camelCase"), Some(1));
    assert_eq!(get_function_param_count(&env, "snake_case"), Some(3));
}

#[test]
fn test_lambda_function_redefinition() {
    let mut env = Environment::new();
    assert_eq!(env.run("test = (x) => {x * 2}"), None);
    assert!(function_exists(&env, "test"));
    assert_eq!(get_function_param_count(&env, "test"), Some(1));
    assert_eq!(env.run("test = (a, b) => {a + b}"), None);
    assert!(function_exists(&env, "test"));
    assert_eq!(get_function_param_count(&env, "test"), Some(2));
}

#[test]
fn test_lambda_function_calls_with_expressions() {
    let mut env = Environment::new();
    env.run("calc = (x, y) => {x + y}");
    env.run("a = 5");
    env.run("b = 3");
    assert_eq!(env.run("calc(a, b)"), Some(b(8.0)));
    assert_eq!(env.run("calc(2 + 3, 4 * 2)"), Some(b(13.0)));
}

#[test]
fn test_lambda_function_call_assignment() {
    let mut env = Environment::new();
    env.run("add = (a, b) => {a + b}");
    assert!(function_exists(&env, "add"));
    assert_eq!(env.run("x = add(2, 3)"), Some(b(5.0)));
    assert_eq!(get_variable(&env, "x"), Some(b(5.0)));
    assert_eq!(env.run("y = x * 2"), Some(b(10.0)));
    assert_eq!(get_variable(&env, "y"), Some(b(10.0)));
    assert_eq!(env.run("z = add(x, y)"), Some(b(15.0)));
    assert_eq!(get_variable(&env, "z"), Some(b(15.0)));
    assert_eq!(env.run("result = add(1, 2) + add(3, 4)"), Some(b(10.0)));
    assert_eq!(get_variable(&env, "result"), Some(b(10.0)));
}

#[test]
fn test_mixing_lambda_and_named_functions() {
    let mut env = Environment::new();
    assert_eq!(env.run("lambda_add = (a, b) => {a + b}"), None);
    assert_eq!(env.run("fn named_multiply(x, y) { x * y }"), None);
    assert_eq!(env.run("lambda_square = (n) => {n * n}"), None);
    assert!(function_exists(&env, "lambda_add"));
    assert!(function_exists(&env, "named_multiply"));
    assert!(function_exists(&env, "lambda_square"));
    assert_eq!(env.run("lambda_add(3, 4)"), Some(b(7.0)));
    assert_eq!(env.run("named_multiply(2, 5)"), Some(b(10.0)));
    assert_eq!(env.run("lambda_square(3)"), Some(b(9.0)));
    assert_eq!(env.run("temp1 = named_multiply(2, 3)"), Some(b(6.0)));
    assert_eq!(env.run("temp2 = lambda_square(2)"), Some(b(4.0)));
    assert_eq!(env.run("result = lambda_add(temp1, temp2)"), Some(b(10.0)));
}

#[test]
fn test_lambda_function_with_single_parameter_no_parens() {
    let mut env = Environment::new();
    assert_eq!(env.run("increment = (x) => {x + 1}"), None);
    assert!(function_exists(&env, "increment"));
    assert_eq!(get_function_param_count(&env, "increment"), Some(1));
    assert_eq!(env.run("increment(5)"), Some(b(6.0)));
}

#[test]
fn test_lambda_function_whitespace_handling() {
    let mut env = Environment::new();
    assert_eq!(env.run("  add  =  ( a , b )  =>  { a + b }  "), None);
    assert!(function_exists(&env, "add"));
    assert_eq!(get_function_param_count(&env, "add"), Some(2));
    assert_eq!(env.run("add(2, 3)"), Some(b(5.0)));
}

#[test]
fn test_lambda_and_variables_interaction() {
    let mut env = Environment::new();
    assert_eq!(env.run("x = 10"), Some(b(10.0)));
    assert_eq!(env.run("multiply = (a, b) => {a * b}"), None);
    assert_eq!(env.run("y = 5"), Some(b(5.0)));
    assert_eq!(get_variable(&env, "x"), Some(b(10.0)));
    assert_eq!(get_variable(&env, "y"), Some(b(5.0)));
    assert!(function_exists(&env, "multiply"));
    assert_eq!(env.run("result = multiply(x, y)"), Some(b(50.0)));
    assert_eq!(get_variable(&env, "result"), Some(b(50.0)));
}

#[test]
fn test_mixed_function_types_interaction() {
    let mut env = Environment::new();
    assert_eq!(env.run("fn named_add(a, b) { a + b }"), None);
    assert_eq!(env.run("lambda_multiply = (x, y) => {x * y}"), None);
    assert_eq!(env.run("fn named_subtract(a, b) { a - b }"), None);
    assert_eq!(env.run("lambda_divide = (x, y) => {x / y}"), None);
    assert_eq!(env.run("result1 = named_add(5, 3)"), Some(b(8.0)));
    assert_eq!(env.run("result2 = lambda_multiply(4, 2)"), Some(b(8.0)));
    assert_eq!(env.run("combined = named_subtract(result1, result2)"), Some(b(0.0)));
    assert_eq!(
        env.run("nested = lambda_divide(named_add(10, 5), lambda_multiply(3, 1))"),
        Some(b(5.0))
    );
}
