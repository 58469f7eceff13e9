use ruin_rs::ast::{ArraySize, BinaryOp, Literal};
use ruin_rs::{Expr, Interpreter, Scope, TypeAnnotation, Value};

#[test]
fn test_function_captures_shadowed_variable() {
    // Outer scope: x = 10
    let mut outer_scope = Scope::new();
    outer_scope.insert("x".to_string(), Value::Int(10));

    let mut interpreter = Interpreter::new(&mut outer_scope);

    // Inner scope: x = 20
    interpreter.push_scope();
    interpreter.define("x".to_string(), Value::Int(20));

    // x + 5
    let fn_expr = Expr::Binary(
        Box::new(Expr::Ident("x".to_string())),
        BinaryOp::Add,
        Box::new(Expr::Literal(Literal::Int(5))),
    );

    let result = interpreter.eval_expression(&fn_expr);
    assert!(result.is_ok());
    assert_eq!(result.unwrap(), Value::Int(25));

    interpreter.pop_scope();

    let x_outer = interpreter.lookup("x");
    assert!(x_outer.is_ok());
    assert_eq!(x_outer.unwrap(), Value::Int(10));
}

#[test]
fn test_function_value_captures_scope() {
    let mut outer_scope = Scope::new();

    let mut interpreter = Interpreter::new(&mut outer_scope);

    interpreter.define("outer_var".to_string(), Value::Int(100));

    interpreter.push_scope();
    interpreter.define("inner_var".to_string(), Value::Int(50));

    let fn_body = Expr::Binary(
        Box::new(Expr::Ident("outer_var".to_string())),
        BinaryOp::Add,
        Box::new(Expr::Ident("inner_var".to_string())),
    );

    let fn_expr = Expr::Fn {
        params: vec![],
        body: Box::new(fn_body),
        return_type: None,
    };

    let fn_value = interpreter.eval_expression(&fn_expr);
    assert!(fn_value.is_ok());

    let fn_val = fn_value.unwrap();
    match fn_val {
        Value::Function { captured_scope, .. } => {
            assert!(captured_scope.contains("outer_var"));
            assert!(captured_scope.contains("inner_var"));
            assert_eq!(captured_scope.get("outer_var"), Some(&Value::Int(100)));
            assert_eq!(captured_scope.get("inner_var"), Some(&Value::Int(50)));
        }
        _ => panic!("Expected function value"),
    }

    interpreter.pop_scope();

    let result = interpreter.eval_expression(&fn_expr);
    assert!(result.is_ok());
}

#[test]
fn test_shadowing_in_nested_function_calls() {
    let mut outer_scope = Scope::new();

    let mut interpreter = Interpreter::new(&mut outer_scope);

    interpreter.define("x".to_string(), Value::Int(5));

    interpreter.push_scope();
    interpreter.define("x".to_string(), Value::Int(10));

    let fn_body = Expr::Ident("x".to_string());
    let fn_expr = Expr::Fn {
        params: vec![],
        body: Box::new(fn_body),
        return_type: None,
    };

    let fn_value = interpreter.eval_expression(&fn_expr);
    assert!(fn_value.is_ok());

    match fn_value.unwrap() {
        Value::Function { captured_scope, .. } => {
            assert_eq!(captured_scope.get("x"), Some(&Value::Int(10)));
        }
        _ => panic!("Expected function"),
    }
}

#[test]
fn test_array_literal_and_indexing() {
    let mut scope = Scope::new();

    let mut interpreter = Interpreter::new(&mut scope);

    let array_expr = Expr::ArrayLiteral(vec![
        Expr::Literal(Literal::Int(1)),
        Expr::Literal(Literal::Int(2)),
        Expr::Literal(Literal::Int(3)),
    ]);

    let result = interpreter.eval_expression(&array_expr);
    assert!(result.is_ok());
    match result.unwrap() {
        Value::Array(elements) => {
            assert_eq!(elements.len(), 3);
            assert_eq!(elements[0], Value::Int(1));
            assert_eq!(elements[1], Value::Int(2));
            assert_eq!(elements[2], Value::Int(3));
        }
        _ => panic!("Expected array value"),
    }
}

#[test]
fn test_array_indexing() {
    let mut scope = Scope::new();

    let mut interpreter = Interpreter::new(&mut scope);

    let array = Value::Array(vec![Value::Int(10), Value::Int(20), Value::Int(30)]);
    interpreter.define("arr".to_string(), array);

    let index_expr = Expr::Index {
        array: Box::new(Expr::Ident("arr".to_string())),
        index: Box::new(Expr::Literal(Literal::Int(0))),
    };

    let result = interpreter.eval_expression(&index_expr);
    assert!(result.is_ok());
    assert_eq!(result.unwrap(), Value::Int(10));

    let index_expr2 = Expr::Index {
        array: Box::new(Expr::Ident("arr".to_string())),
        index: Box::new(Expr::Literal(Literal::Int(2))),
    };

    let result2 = interpreter.eval_expression(&index_expr2);
    assert!(result2.is_ok());
    assert_eq!(result2.unwrap(), Value::Int(30));
}

#[test]
fn test_nested_array_indexing() {
    let mut scope = Scope::new();

    let mut interpreter = Interpreter::new(&mut scope);

    // [[1, 2], [3, 4]]
    let nested_array = Value::Array(vec![
        Value::Array(vec![Value::Int(1), Value::Int(2)]),
        Value::Array(vec![Value::Int(3), Value::Int(4)]),
    ]);
    interpreter.define("nested".to_string(), nested_array);

    let inner_index = Expr::Index {
        array: Box::new(Expr::Ident("nested".to_string())),
        index: Box::new(Expr::Literal(Literal::Int(0))),
    };

    let outer_index = Expr::Index {
        array: Box::new(inner_index),
        index: Box::new(Expr::Literal(Literal::Int(1))),
    };

    let result = interpreter.eval_expression(&outer_index);
    assert!(result.is_ok());
    assert_eq!(result.unwrap(), Value::Int(2));
}

#[test]
fn test_len_builtin() {
    let mut scope = Scope::new();

    let mut interpreter = Interpreter::new(&mut scope);

    let array = Value::Array(vec![
        Value::Int(1),
        Value::Int(2),
        Value::Int(3),
        Value::Int(4),
    ]);
    interpreter.define("arr".to_string(), array);

    let len_call = Expr::Call {
        callee: Box::new(Expr::Ident("len".to_string())),
        args: vec![Expr::Ident("arr".to_string())],
    };

    let result = interpreter.eval_expression(&len_call);
    assert!(result.is_ok());
    assert_eq!(result.unwrap(), Value::Int(4));
}

#[test]
fn test_underscore_wildcard() {
    let mut scope = Scope::new();

    let mut interpreter = Interpreter::new(&mut scope);

    interpreter.define("_".to_string(), Value::Int(100));

    let result = interpreter.lookup("_");
    assert!(result.is_err(), "Underscore should not be stored in scope");
}

#[test]
fn test_array_check_type() {
    let array_type = TypeAnnotation::Array(Box::new(TypeAnnotation::Int), ArraySize::Fixed(3));

    let value = Value::Array(vec![Value::Int(1), Value::Int(2), Value::Int(3)]);

    assert!(Interpreter::check_type(&array_type, &value));

    // Mismatched size
    let value2 = Value::Array(vec![Value::Int(1), Value::Int(2)]);
    assert!(!Interpreter::check_type(&array_type, &value2));

    // Mismatched element type
    let value3 = Value::Array(vec![
        Value::Int(1),
        Value::Str("hello".to_string()),
        Value::Int(3),
    ]);
    assert!(!Interpreter::check_type(&array_type, &value3));
}

#[test]
fn test_array_inferred_size() {
    let array_type = TypeAnnotation::Array(Box::new(TypeAnnotation::Int), ArraySize::Inferred);

    let value1 = Value::Array(vec![Value::Int(1), Value::Int(2)]);
    assert!(Interpreter::check_type(&array_type, &value1));

    let value2 = Value::Array(vec![Value::Int(1), Value::Int(2), Value::Int(3)]);
    assert!(Interpreter::check_type(&array_type, &value2));

    // The element type must still match
    let value3 = Value::Array(vec![Value::Str("a".to_string())]);
    assert!(!Interpreter::check_type(&array_type, &value3));
}

#[test]
fn test_user_defined_function_shadows_builtin() {
    let mut scope = Scope::new();

    let mut interpreter = Interpreter::new(&mut scope);

    // A function named "len" that returns 42
    let len_fn = Value::Function {
        params: vec!["x".to_string()],
        captured_scope: Scope::new(),
        body: Box::new(Expr::Literal(Literal::Int(42))),
        return_type: Some(TypeAnnotation::Int),
    };
    interpreter.define("len".to_string(), len_fn);

    let array = Value::Array(vec![
        Value::Int(1),
        Value::Int(2),
        Value::Int(3),
        Value::Int(4),
    ]);
    interpreter.define("arr".to_string(), array);

    let len_call = Expr::Call {
        callee: Box::new(Expr::Ident("len".to_string())),
        args: vec![Expr::Ident("arr".to_string())],
    };

    let result = interpreter.eval_expression(&len_call);
    assert!(result.is_ok());
    assert_eq!(
        result.unwrap(),
        Value::Int(42),
        "User-defined len() should shadow built-in len()"
    );
}
