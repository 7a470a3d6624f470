use schemers::Runtime;
use schemers::Value;
use schemers::run;

fn run_fresh(src: &str) -> Result<String, String> {
    let mut rt = Runtime::new();
    run(src, &mut rt)
}

fn assert_run(src: &str, expected: &str) {
    assert_eq!(run_fresh(src).unwrap(), expected);
}

#[test]
fn test_run_simple_expressions() {
    assert_run("1", "1");
    assert_run("#t", "#t");
    assert_run("\"dali\"", "\"dali\"");
    assert_run("(quote (1 2 3))", "'(1 2 3)");
    assert_run("(lambda (x) x)", "#<procedure>");
}

#[test]
fn test_run_plus() {
    assert_run("(+ 2 3)", "5");
}

#[test]
fn test_run_minus() {
    assert_run("(- 9 4)", "5");
}

#[test]
fn test_run_multy() {
    assert_run("(* 5 5 5)", "125");
}

#[test]
fn test_run_nested_arithmetic() {
    assert_run("(+ 2 (+ 1 (- 9 3)))", "9");
}

#[test]
fn test_run_define() {
    assert_run("(define x 3)\n(+ x 2)", "5");
}

#[test]
fn test_run_only_one_var_definition() {
    assert_eq!(
        run_fresh("(define x 3)\n(define x 5)").err().unwrap(),
        "RuntimeError: Variable already defined: x"
    )
}

#[test]
fn test_run_set() {
    assert_run("(define x 5) (set! x 4) (/ (+ x 1 2 3) 2)", "5");
}

#[test]
fn test_run_set_undefined() {
    assert_eq!(
        run_fresh("(set! x 5)").err().unwrap(),
        "RuntimeError: Can't set! an undefined variable: x"
    )
}

#[test]
fn test_run_define_procedure() {
    assert_run("(define inc (lambda (x) (+ x 1))) (inc 4)", "5");
}

#[test]
fn test_run_if() {
    assert_run("(if #t 5 4)", "5");
    assert_run("(if #f 4 5)", "5");
    assert_run("(if (= 4 4) 4 5)", "4");
}

#[test]
fn test_run_and() {
    assert_run("(and)", "#t");
    assert_run("(and #t)", "#t");
    assert_run("(and 1 2 3)", "3");
    assert_run("(and 2 #f 3)", "#f");
    assert_run("(and 4 #f (error 5))", "#f");
}

#[test]
fn test_run_or() {
    assert_run("(or)", "#f");
    assert_run("(or #f)", "#f");
    assert_run("(or 1 2)", "1");
    assert_run("(or 1 #f)", "1");
    assert_run("(or #f 5)", "5");
    assert_run("(or #f #f)", "#f");
    assert_run("(or 1 (error 5))", "1");
}

#[test]
fn test_run_quote() {
    assert_run("(quote #t)", "#t");
    assert_run("(quote 1)", "1");
    assert_run("(quote a)", "'a");
}

#[test]
fn test_run_syntax_error() {
    assert_eq!(
        run_fresh("(33^3)").err().unwrap(),
        "SyntaxError: Unexpected symbol '^'. Expected white space or closing paren. (line: 1, column: 4)"
    )
}

#[test]
fn test_run_error() {
    assert_eq!(run_fresh("(error 5)").err().unwrap(), "RuntimeError: 5")
}

#[test]
fn test_run_empty_input_yields_empty_list() {
    assert_run("", "'()");
    assert_run("()", "'()");
}

#[test]
fn test_run_negative_numbers() {
    assert_run("-5", "-5");
    assert_run("(- 0 5)", "-5");
    assert_run("(+ -4 +1 -713 -5 6)", "-715");
    assert_run("-9223372036854775808", "-9223372036854775808");
}

#[test]
fn test_run_division_truncates_toward_zero() {
    assert_run("(/ 7 2)", "3");
    assert_run("(/ (- 0 7) 2)", "-3");
    assert_run("(/ 7 (- 0 2))", "-3");
    assert_run("(/ (- 0 7) (- 0 2))", "3");
}

#[test]
fn test_run_division_by_zero_is_reported() {
    assert_eq!(
        run_fresh("(/ 1 0)").err().unwrap(),
        "RuntimeError: Division by zero"
    );
}

#[test]
fn test_run_overflow_is_reported() {
    assert_eq!(
        run_fresh("(+ 9223372036854775806 2)").err().unwrap(),
        "RuntimeError: Integer overflow"
    );
    assert_eq!(
        run_fresh("(* 4611686018427387904 4)").err().unwrap(),
        "RuntimeError: Integer overflow"
    );
    assert_eq!(
        run_fresh("(- (- 0 9223372036854775807) 2)").err().unwrap(),
        "RuntimeError: Integer overflow"
    );
}

#[test]
fn test_run_smallest_integer_renders() {
    assert_run("(- (- 0 9223372036854775807) 1)", "-9223372036854775808");
}

#[test]
fn test_run_identifier_not_found() {
    assert_eq!(
        run_fresh("x").err().unwrap(),
        "RuntimeError: Identifier not found! x"
    );
}

#[test]
fn test_run_unknown_function() {
    assert_eq!(
        run_fresh("(foo 1)").err().unwrap(),
        "RuntimeError: Unknown function: foo"
    );
}

#[test]
fn test_run_call_of_non_function() {
    assert_eq!(
        run_fresh("(define x 5) (x 1)").err().unwrap(),
        "RuntimeError: Undefined function call: 5"
    );
}

#[test]
fn test_run_call_arity_mismatch() {
    assert_eq!(
        run_fresh("(define inc (lambda (x) (+ x 1))) (inc 4 5)")
            .err()
            .unwrap(),
        "RuntimeError: The 'inc' construct expects 2 arguments. Passed: (inc 4 5)"
    );
}

#[test]
fn test_run_head_must_be_identifier() {
    assert_eq!(
        run_fresh("(1 2)").err().unwrap(),
        "RuntimeError: First element in an expression must be an identifier"
    );
}

#[test]
fn test_run_quote_nested_print_forms() {
    assert_run("(quote (1 (2 3) \"s\" #t))", "'(1 (2 3) \"s\" #t)");
    assert_run("(quote ())", "'()");
}

#[test]
fn test_run_define_keeps_earlier_side_effects_on_error() {
    let mut rt = Runtime::new();
    assert!(run("(define x 3) (error 9)", &mut rt).is_err());
    assert_eq!(run("x", &mut rt).unwrap(), "3");
}

#[test]
fn test_run_repl_accumulates_definitions() {
    let mut rt = Runtime::new();
    assert_eq!(run("(define x 3)", &mut rt).unwrap(), "'()");
    assert_eq!(run("(+ x 2)", &mut rt).unwrap(), "5");
}

#[test]
fn test_run_set_reaches_enclosing_scope() {
    assert_run("(define x 1) (define f (lambda (y) (set! x y))) (f 42) x", "42");
}

#[test]
fn test_run_call_site_scoping() {
    // A function body resolves free names through the scope of the call
    // that invoked it, not the scope where the lambda was written.
    assert_run(
        "(define f (lambda (a) (g))) (define g (lambda () a)) (f 5)",
        "5",
    );
}

#[test]
fn test_run_recursion_depth_is_bounded() {
    assert_eq!(
        run_fresh("(define f (lambda (x) (f x))) (f 1)").err().unwrap(),
        "RuntimeError: Maximum evaluation depth exceeded"
    );
}

#[test]
fn test_run_bounded_recursion_succeeds() {
    assert_run(
        "(define f (lambda (n) (if (= n 0) 99 (f (- n 1))))) (f 20)",
        "99",
    );
}

#[test]
fn test_run_lambda_shape_errors() {
    assert_eq!(
        run_fresh("(lambda x)").err().unwrap(),
        "RuntimeError: The 'lambda' construct expects at least 3 arguments. Passed: (lambda x)"
    );
    assert_eq!(
        run_fresh("(lambda x x)").err().unwrap(),
        "RuntimeError: Bad argument list in 'lambda' definition"
    );
    assert_eq!(
        run_fresh("(lambda (1) 2)").err().unwrap(),
        "RuntimeError: Bad argument in 'lambda'"
    );
}

#[test]
fn test_run_define_shape_errors() {
    assert_eq!(
        run_fresh("(define 1 2)").err().unwrap(),
        "RuntimeError: Bad variable name in 'define'"
    );
    assert_eq!(
        run_fresh("(define x)").err().unwrap(),
        "RuntimeError: The 'define' construct expects 3 arguments. Passed: (define x)"
    );
}

#[test]
fn test_run_if_arity_error() {
    assert_eq!(
        run_fresh("(if #t 1)").err().unwrap(),
        "RuntimeError: The 'if' construct expects 4 arguments. Passed: (if #t 1)"
    );
}

#[test]
fn test_run_arith_type_errors() {
    assert_eq!(
        run_fresh("(+ 1 #t)").err().unwrap(),
        "RuntimeError: The '+' construct expects integer arguments"
    );
    assert_eq!(
        run_fresh("(= 1 \"a\")").err().unwrap(),
        "RuntimeError: The '=' construct expects integer arguments"
    );
}

#[test]
fn test_run_multiline_error_position() {
    assert_eq!(
        run_fresh("(\n33^3)").err().unwrap(),
        "SyntaxError: Unexpected symbol '^'. Expected white space or closing paren. (line: 2, column: 5)"
    );
}

#[test]
fn test_run_error_renders_display_form_of_argument() {
    assert_eq!(
        run_fresh("(error (quote boom))").err().unwrap(),
        "RuntimeError: boom"
    );
    assert_eq!(
        run_fresh("(error (quote (1 2)))").err().unwrap(),
        "RuntimeError: (1 2)"
    );
    assert_eq!(
        run_fresh("(error \"bad\")").err().unwrap(),
        "RuntimeError: \"bad\""
    );
}

#[test]
fn test_pipeline_pieces_compose() {
    let tokens = schemers::tokenize("(+ 1 2)").unwrap();
    let ast = schemers::parse(&tokens).unwrap();
    let mut rt = Runtime::new();
    let value = schemers::eval(&ast, &mut rt).unwrap();
    assert_eq!(value, Value::Integer(3));
    assert_eq!(value.to_string(), "3");
}

#[test]
fn test_runtime_scope_chain() {
    let mut rt = Runtime::new();
    rt.set_var_value(0, "x".to_string(), Value::Integer(1));
    assert!(rt.is_var_defined(0, &"x".to_string()));
    let child = rt.new_scope(0);
    assert!(!rt.is_var_defined(child, &"x".to_string()));
    assert_eq!(
        rt.get_var_value(child, &"x".to_string()),
        Some(Value::Integer(1))
    );
    assert!(rt.assign_var(child, &"x".to_string(), Value::Integer(7)));
    assert_eq!(rt.get_var_value(0, &"x".to_string()), Some(Value::Integer(7)));
    assert!(!rt.assign_var(child, &"y".to_string(), Value::Integer(9)));
}

#[test]
fn test_value_print_forms() {
    assert_eq!(Value::Symbol("a".to_string()).to_string(), "'a");
    assert_eq!(Value::Integer(-42).to_string(), "-42");
    assert_eq!(Value::Boolean(false).to_string(), "#f");
    assert_eq!(Value::StringValue("hi".to_string()).to_string(), "\"hi\"");
    assert_eq!(
        Value::List(vec![Value::Integer(1), Value::Boolean(true)]).to_string(),
        "'(1 #t)"
    );
}
