use ruin_rs::{eval, Scope, Value};

#[test]
fn run_basic_program() {
    let source = r#"
            let x : int = 5;
            let y : int = x + 2;
            x + y
        "#;

    let mut scope = Scope::default();
    let result = eval(source, &mut scope);
    assert_eq!(result, Ok(Value::Int(12)));
}

#[test]
fn test_simple_function() {
    let source = r#"
            let add_one : fn(x: int) -> int = x + 1;
            add_one(5)
        "#;
    let mut scope = Scope::default();
    let result = eval(source, &mut scope);
    assert_eq!(result, Ok(Value::Int(6)));
}

#[test]
fn test_function_without_return_type() {
    let source = r#"
            let add_one : fn(x: int) -> int = x + 1;
            add_one(5)
        "#;
    let mut scope = Scope::default();
    let result = eval(source, &mut scope);
    assert_eq!(result, Ok(Value::Int(6)));
}

#[test]
fn test_function_with_multiple_params() {
    let source = r#"
            let add : fn(x: int, y: int) -> int = x + y;
            add(3, 4)
        "#;
    let mut scope = Scope::default();
    let result = eval(source, &mut scope);
    assert_eq!(result, Ok(Value::Int(7)));
}

#[test]
fn test_closure_capture() {
    let source = r#"
            let y : int = 10;
            let add_y : fn(x: int) -> int = x + y;
            add_y(5)
        "#;
    let mut scope = Scope::new();
    let result = eval(source, &mut scope);
    assert_eq!(result, Ok(Value::Int(15)));
}

#[test]
fn test_function_with_return_statement() {
    let source = r#"
            let sign : fn(x: int) -> int = {
                if x > 0 {
                    return 1;
                } else {
                    return 0;
                }
            };
            sign(5)
        "#;
    let mut scope = Scope::new();
    let result = eval(source, &mut scope);
    assert_eq!(result, Ok(Value::Int(1)));
}

#[test]
fn test_function_empty_return() {
    let source = r#"
            let test : fn(x: int) -> int = {
                if x > 5 {
                    return 10;
                }
                x
            };
            test(8)
        "#;
    let mut scope = Scope::new();
    let result = eval(source, &mut scope);
    assert_eq!(result, Ok(Value::Int(10)));
}

#[test]
fn test_nested_function_calls() {
    let source = r#"
            let mul_two : fn(x: int) -> int = x * 2;
            let add_one : fn(x: int) -> int = x + 1;
            mul_two(add_one(3))
        "#;
    let mut scope = Scope::default();
    let result = eval(source, &mut scope);
    assert_eq!(result, Ok(Value::Int(8)));
}

#[test]
fn test_function_in_expression() {
    let source = r#"
            let double : fn(x: int) -> int = x * 2;
            double(5) + 3
        "#;
    let mut scope = Scope::default();

    let result = eval(source, &mut scope);
    assert_eq!(result, Ok(Value::Int(13)));
}

fn scope_with(name: &str, value: &Value) -> Scope {
    let mut scope = Scope::new();
    scope.insert(name.to_string(), value.clone());
    scope
}

#[test]
fn test_nested_functions_with_returns() {
    // All four combinations of early and late returns in two functions.
    let source = r#"
            let b_func : fn(x: int) -> int = {
                if x > 0 {
                    return x * 2;
                }
                x * (-3)
            };
            let a_func : fn(y: int) -> int = {
                let b : int = b_func(y);
                if b > 5 {
                    return b + 1;
                }
                b + 2
            };
            a_func
        "#;

    let mut scope = Scope::default();

    let result = eval(source, &mut scope);
    let func_value = result.unwrap();

    // b returns early (6), a returns early (7)
    if let Value::Function { .. } = &func_value {
        let call_script = "a_func(3)";
        let mut call_scope = scope_with("a_func", &func_value);
        let call_result = eval(call_script, &mut call_scope);
        assert_eq!(call_result, Ok(Value::Int(7)));
    }

    // b returns early (4), a runs to its end (6)
    let call_script = "a_func(2)";
    let mut call_scope = scope_with("a_func", &func_value);
    let call_result = eval(call_script, &mut call_scope);
    assert_eq!(call_result, Ok(Value::Int(6)));

    // b runs to its end (6), a returns early (7)
    let call_script = "a_func(-2)";
    let mut call_scope = scope_with("a_func", &func_value);
    let call_result = eval(call_script, &mut call_scope);
    assert_eq!(call_result, Ok(Value::Int(7)));

    // both run to their ends (0, then 2)
    let call_script = "a_func(0)";
    let mut call_scope = scope_with("a_func", &func_value);
    let call_result = eval(call_script, &mut call_scope);
    assert_eq!(call_result, Ok(Value::Int(2)));
}

#[test]
fn test_recursive_function() {
    let source = r#"
            let factorial : fn(n: int) = 
              if n <= 1 { 1 }
              else { n * factorial(n - 1) }
            ;
            factorial
        "#;

    let mut scope = Scope::new();
    let result = eval(source, &mut scope);
    let func_value = result.unwrap();

    let call_script = "factorial(0)";
    let mut call_scope = scope_with("factorial", &func_value);
    let call_result = eval(call_script, &mut call_scope);
    assert_eq!(call_result, Ok(Value::Int(1)));

    let call_script = "factorial(1)";
    let mut call_scope = scope_with("factorial", &func_value);
    let call_result = eval(call_script, &mut call_scope);
    assert_eq!(call_result, Ok(Value::Int(1)));

    let call_script = "factorial(5)";
    let mut call_scope = scope_with("factorial", &func_value);
    let call_result = eval(call_script, &mut call_scope);
    assert_eq!(call_result, Ok(Value::Int(120)));

    let call_script = "factorial(3)";
    let mut call_scope = scope_with("factorial", &func_value);
    let call_result = eval(call_script, &mut call_scope);
    assert_eq!(call_result, Ok(Value::Int(6)));
}

#[test]
fn test_fn_statement_syntax() {
    let source = r#"
            fn add_one(x: int) -> int = x + 1;
            add_one(5)
        "#;
    let mut scope = Scope::default();
    let result = eval(source, &mut scope);
    assert_eq!(result, Ok(Value::Int(6)));
}

#[test]
fn test_fn_statement_without_return_type() {
    let source = r#"
            fn identity(x: int) = x;
            identity(42)
        "#;
    let mut scope = Scope::default();
    let result = eval(source, &mut scope);
    assert_eq!(result, Ok(Value::Int(42)));
}

#[test]
fn test_fn_statement_multiple_params() {
    let source = r#"
            fn add(x: int, y: int) -> int = x + y;
            add(3, 4)
        "#;
    let mut scope = Scope::default();
    let result = eval(source, &mut scope);
    assert_eq!(result, Ok(Value::Int(7)));
}

#[test]
fn test_loop_break_value() {
    let source = r#"
            let result : int = loop {
                break 5;
            };
            result
        "#;
    let mut scope = Scope::default();
    let result = eval(source, &mut scope);
    assert_eq!(result, Ok(Value::Int(5)));
}

#[test]
fn test_loop_continue_increments_counter() {
    let source = r#"
            let counter : int = 0;
            let result : int = loop {
                if counter == 3 {
                    break counter;
                }
                counter = counter + 1;
            };
            result
        "#;
    let mut scope = Scope::default();
    let result = eval(source, &mut scope);
    assert_eq!(result, Ok(Value::Int(3)));
}

#[test]
fn test_while_loop_continue_skips_value() {
    let source = r#"
            let total : int = 0;
            let i : int = 0;
            while i < 5 {
                i = i + 1;
                if i == 2 {
                    continue;
                }
                total = total + i;
            };
            total
        "#;
    let mut scope = Scope::default();
    let result = eval(source, &mut scope);
    assert_eq!(result, Ok(Value::Int(13)));
}

#[test]
fn test_return_from_loop_inside_function() {
    let source = r#"
            let f : fn() -> int = {
                loop {
                    return 42;
                }
            };
            f()
        "#;
    let mut scope = Scope::default();
    let result = eval(source, &mut scope);
    assert_eq!(result, Ok(Value::Int(42)));
}

#[test]
fn test_return_from_while_inside_function() {
    let source = r#"
            let f : fn() -> int = {
                let i : int = 0;
                while i < 5 {
                    return 99;
                }
                0
            };
            f()
        "#;
    let mut scope = Scope::default();
    let result = eval(source, &mut scope);
    assert_eq!(result, Ok(Value::Int(99)));
}

#[test]
fn test_eval_with_scope() {
    let mut initial_scope = Scope::new();
    initial_scope.insert("x".to_string(), Value::Int(10));
    let script = "x + 5";
    let result = eval(script, &mut initial_scope);
    assert_eq!(result, Ok(Value::Int(15)));
}
