use ruin_rs::ast::{ArraySize, Literal};
use ruin_rs::lexer::{lex, Token};
use ruin_rs::parser::Parser;
use ruin_rs::{eval, eval_with_output, run_program, Expr, Interpreter, InterpreterConfig, Scope, TypeAnnotation, Value};

fn run(source: &str) -> Result<Value, String> {
    let mut scope = Scope::new();
    eval(source, &mut scope)
}

// ---------------------------------------------------------------- scopes

#[test]
fn scope_persists_assignment_to_existing_variable() {
    let mut scope = Scope::new();
    scope.insert("x".to_string(), Value::Int(10));
    let result = eval("x = 42;", &mut scope);
    assert_eq!(result, Ok(Value::Unit));
    assert_eq!(scope.get("x"), Some(&Value::Int(42)));
}

#[test]
fn scope_persists_definition_and_mutation() {
    let mut scope = Scope::default();
    let script = r#"
        let y : int = 10;
        y = y + 5;
    "#;
    let result = eval(script, &mut scope);
    assert_eq!(result, Ok(Value::Unit));
    assert_eq!(scope.get("y"), Some(&Value::Int(15)));
}

#[test]
fn scope_persists_several_variables() {
    let mut scope = Scope::default();
    let script = r#"
        let a : int = 5;
        let b : int = 10;
        let c : int = a + b;
    "#;
    assert_eq!(eval(script, &mut scope), Ok(Value::Unit));
    assert_eq!(scope.get("a"), Some(&Value::Int(5)));
    assert_eq!(scope.get("b"), Some(&Value::Int(10)));
    assert_eq!(scope.get("c"), Some(&Value::Int(15)));
}

#[test]
fn scope_is_unchanged_by_a_parse_error() {
    let mut scope = Scope::new();
    scope.insert("x".to_string(), Value::Int(1));
    assert!(eval("x = 2; let = ;", &mut scope).is_err());
    assert_eq!(scope.get("x"), Some(&Value::Int(1)));
}

#[test]
fn scope_insert_twice_keeps_one_entry() {
    let mut scope = Scope::new();
    scope.insert("k".to_string(), Value::Int(1));
    scope.insert("k".to_string(), Value::Int(2));
    scope.insert("j".to_string(), Value::Bool(true));
    let entries = scope.entries();
    assert_eq!(entries.len(), 2);
    assert_eq!(scope.get("k"), Some(&Value::Int(2)));
    assert!(scope.contains("j"));
    assert!(!scope.contains("z"));
    assert_eq!(scope.get("z"), None);
}

#[test]
fn define_then_lookup_reads_back() {
    let mut scope = Scope::new();
    let mut interpreter = Interpreter::new(&mut scope);
    interpreter.define("a".to_string(), Value::Int(7));
    interpreter.define("b".to_string(), Value::Str("s".to_string()));
    assert_eq!(interpreter.lookup("a"), Ok(Value::Int(7)));
    assert_eq!(interpreter.lookup("b"), Ok(Value::Str("s".to_string())));
}

#[test]
fn inner_definition_is_dropped_with_its_scope() {
    let mut scope = Scope::new();
    let mut interpreter = Interpreter::new(&mut scope);
    interpreter.push_scope();
    interpreter.define("x".to_string(), Value::Int(1));
    assert_eq!(interpreter.lookup("x"), Ok(Value::Int(1)));
    interpreter.pop_scope();
    assert_eq!(
        interpreter.lookup("x"),
        Err("Undefined variable 'x'.".to_string())
    );
}

#[test]
fn assignment_reads_back_and_undefined_assignment_fails() {
    assert_eq!(run("let a : int = 1; a = 5; a"), Ok(Value::Int(5)));
    assert_eq!(run("b = 1;"), Err("Undefined variable 'b'.".to_string()));
    assert_eq!(run("_ = 1; 3"), Ok(Value::Int(3)));
}

#[test]
fn assignment_keeps_the_type_of_a_variable() {
    assert_eq!(
        run("let a : int = 1; a = \"s\";"),
        Err("Type mismatch. Expected int, found string".to_string())
    );
}

#[test]
fn value_assign_replaces_nested_arrays() {
    let mut v = Value::Array(vec![
        Value::Array(vec![Value::Int(1)]),
        Value::Int(2),
    ]);
    let new = Value::Array(vec![
        Value::Array(vec![Value::Int(5)]),
        Value::Int(6),
    ]);
    assert_eq!(v.assign(new.clone()), Ok(()));
    assert_eq!(v, new);

    let mut short = Value::Array(vec![Value::Int(1)]);
    assert_eq!(
        short.assign(Value::Array(vec![Value::Int(1), Value::Int(2)])),
        Err("Array length mismatch: expected 1, got 2".to_string())
    );

    // The first element is assigned before the second fails.
    let mut mixed = Value::Array(vec![Value::Int(1), Value::Int(2)]);
    let result = mixed.assign(Value::Array(vec![Value::Int(9), Value::Bool(true)]));
    assert_eq!(result, Err("Type mismatch. Expected int, found bool".to_string()));
    assert_eq!(mixed, Value::Array(vec![Value::Int(9), Value::Int(2)]));
}

#[test]
fn a_program_leaves_the_scope_stack_as_it_found_it() {
    let source = r#"
        let f : fn(n: int) -> int = {
            let acc : int = 0;
            let i : int = 0;
            while i < n {
                i = i + 1;
                { acc = acc + i; }
            };
            acc
        };
        let total : int = loop { break f(4); };
        total
    "#;
    let program = Parser::new(lex(source).unwrap()).parse_program().unwrap();
    let mut scope = Scope::new();
    let mut interpreter = Interpreter::new(&mut scope);
    let result = interpreter.execute_program(&program);
    assert_eq!(result, Ok(Value::Int(10)));
    assert_eq!(interpreter.local_scopes.len(), 0);
    assert_eq!(interpreter.loop_depth, 0);
    drop(interpreter);
    assert_eq!(scope.get("total"), Some(&Value::Int(10)));
}

#[test]
fn deep_evaluation_completes() {
    let source = r#"
        fn fact(n: int) -> int = if n <= 1 { 1 } else { n * fact(n - 1) };
        let count : int = 0;
        while count < 10000 { count = count + 1; };
        fact(20) + count
    "#;
    assert_eq!(run(source), Ok(Value::Int(2432902008176640000 + 10000)));
}

// ---------------------------------------------------------------- arithmetic

#[test]
fn integer_arithmetic() {
    assert_eq!(run("1 + 2 * 3"), Ok(Value::Int(7)));
    assert_eq!(run("-7 / 2"), Ok(Value::Int(-3)));
    assert_eq!(run("7 / -2"), Ok(Value::Int(-3)));
    assert_eq!(run("10 - 4 - 3"), Ok(Value::Int(3)));
    assert_eq!(run("6 & 3"), Ok(Value::Int(2)));
    assert_eq!(run("6 | 3"), Ok(Value::Int(7)));
    assert_eq!(run("~5"), Ok(Value::Int(-6)));
    assert_eq!(run("\"ab\" + \"cd\""), Ok(Value::Str("abcd".to_string())));
}

#[test]
fn integer_overflow_is_an_error() {
    assert_eq!(
        run("9223372036854775807 + 1"),
        Err("Integer overflow".to_string())
    );
    assert_eq!(
        run("let m : int = -9223372036854775807 - 1; m / -1"),
        Err("Integer overflow".to_string())
    );
    assert_eq!(
        run("4611686018427387904 * 2"),
        Err("Integer overflow".to_string())
    );
    assert_eq!(
        run("-9223372036854775807 - 1"),
        Ok(Value::Int(i64::MIN))
    );
}

#[test]
fn operator_errors() {
    assert_eq!(
        run("1 / 0"),
        Err("Invalid operands for / or divide by zero".to_string())
    );
    assert_eq!(run("1 + true"), Err("Invalid operands for +".to_string()));
    assert_eq!(run("\"a\" - \"b\""), Err("Invalid operands for -".to_string()));
    assert_eq!(run("true * 2"), Err("Invalid operands for *".to_string()));
    assert_eq!(run("1 and true"), Err("Invalid operands for and".to_string()));
    assert_eq!(run("1 or true"), Err("Invalid operands for or".to_string()));
    assert_eq!(run("true & 1"), Err("Invalid operands for &".to_string()));
    assert_eq!(run("true | 1"), Err("Invalid operands for |".to_string()));
    assert_eq!(run("not 1"), Err("Invalid unary operation".to_string()));
    assert_eq!(run("-true"), Err("Invalid unary operation".to_string()));
    assert_eq!(run("not false"), Ok(Value::Bool(true)));
    assert_eq!(
        run("1 < \"a\""),
        Err("Invalid operands for comparison".to_string())
    );
}

#[test]
fn comparisons_go_through_doubles() {
    assert_eq!(run("3 < 4"), Ok(Value::Bool(true)));
    assert_eq!(run("4 <= 4"), Ok(Value::Bool(true)));
    assert_eq!(run("5 >= 6"), Ok(Value::Bool(false)));
    // Above 2^53 neighbouring integers become the same double.
    assert_eq!(
        run("9007199254740993 > 9007199254740992"),
        Ok(Value::Bool(false))
    );
    assert_eq!(
        run("9007199254740993 >= 9007199254740992"),
        Ok(Value::Bool(true))
    );
    assert_eq!(
        run("9007199254740993 == 9007199254740992"),
        Ok(Value::Bool(false))
    );
    // Strings compare by their length in bytes.
    assert_eq!(run("\"abc\" < \"abcd\""), Ok(Value::Bool(true)));
    assert_eq!(run("\"zz\" > \"aaa\""), Ok(Value::Bool(false)));
    assert_eq!(run("\"é\" > \"a\""), Ok(Value::Bool(true)));
    assert_eq!(run("true and false or true"), Ok(Value::Bool(true)));
    assert_eq!(run("1 != 2"), Ok(Value::Bool(true)));
}

// ---------------------------------------------------------------- control flow

#[test]
fn control_flow_errors() {
    assert_eq!(run("break;"), Err("break outside of loop".to_string()));
    assert_eq!(run("continue;"), Err("continue outside of loop".to_string()));
    assert_eq!(
        run("if 1 { 2 }"),
        Err("Condition of if expression must be a boolean".to_string())
    );
    assert_eq!(
        run("while 1 { 2 }"),
        Err("Condition of while expression must be a boolean".to_string())
    );
    assert_eq!(run("if false { 2 }"), Ok(Value::Unit));
    assert_eq!(run("while false { 2 }"), Ok(Value::Unit));
}

#[test]
fn calls_and_their_errors() {
    assert_eq!(
        run("let x : int = 1; x(2)"),
        Err("Callee must be a function".to_string())
    );
    assert_eq!(
        run("fn f(x: int) = x; f(1, 2)"),
        Err("Function expects 1 arguments, got 2".to_string())
    );
    assert_eq!(
        run("len(1)"),
        Err("len() expects an array argument".to_string())
    );
    assert_eq!(
        run("len()"),
        Err("len() expects exactly 1 argument".to_string())
    );
    assert_eq!(run("nope(1)"), Err("Undefined variable 'nope'.".to_string()));
    assert_eq!(run("let f : = fn(x: i32) x + 1; f(2)"), Ok(Value::Int(3)));
    // Only a name is called directly: here `(2)` is a statement of its own.
    assert_eq!(run("(fn(x: i32) x + 1)(2)"), Ok(Value::Int(2)));
}

#[test]
fn let_checks_annotated_types() {
    assert_eq!(
        run("let x : i32 = true;"),
        Err("Type mismatch for 'x' : expected Int, got bool.".to_string())
    );
    assert_eq!(run("let x : i32 = 3; x"), Ok(Value::Int(3)));
    assert_eq!(run("let x : bool = true; x"), Ok(Value::Bool(true)));
    assert_eq!(run("let s : String = \"a\"; s"), Ok(Value::Str("a".to_string())));
    assert_eq!(
        run("let x : int = \"hi\";"),
        Err("Type mismatch for 'x' : expected Int, got string.".to_string())
    );
    assert_eq!(
        run("let x : string = 1;"),
        Err("Type mismatch for 'x' : expected String, got int.".to_string())
    );
    assert_eq!(
        run("let x : float = 1;"),
        Err("Type mismatch for 'x' : expected Float, got int.".to_string())
    );
    // Names the language does not know are custom types that admit any value.
    assert_eq!(run("let x : thing = true; x"), Ok(Value::Bool(true)));
    assert_eq!(
        run("let x : never = 1;"),
        Err("Type mismatch for 'x' : expected Never, got int.".to_string())
    );
}

#[test]
fn array_index_out_of_bounds_is_an_error() {
    let mut scope = Scope::new();
    let mut interpreter = Interpreter::new(&mut scope);
    interpreter.define(
        "arr".to_string(),
        Value::Array(vec![Value::Int(1), Value::Int(2), Value::Int(3)]),
    );
    let beyond = Expr::Index {
        array: Box::new(Expr::Ident("arr".to_string())),
        index: Box::new(Expr::Literal(Literal::Int(5))),
    };
    assert_eq!(
        interpreter.eval_expression(&beyond),
        Err("Array index out of bounds: 5 (array length: 3)".to_string())
    );
    let not_array = Expr::Index {
        array: Box::new(Expr::Literal(Literal::Int(1))),
        index: Box::new(Expr::Literal(Literal::Int(0))),
    };
    assert_eq!(
        interpreter.eval_expression(&not_array),
        Err("Array indexing requires array and integer index".to_string())
    );
}

#[test]
fn check_type_on_other_annotations() {
    let f = Value::Function {
        params: vec![],
        captured_scope: Scope::new(),
        body: Box::new(Expr::Literal(Literal::Int(1))),
        return_type: None,
    };
    assert!(Interpreter::check_type(
        &TypeAnnotation::Fn(vec![], None),
        &f
    ));
    assert!(!Interpreter::check_type(&TypeAnnotation::Fn(vec![], None), &Value::Int(1)));
    assert!(Interpreter::check_type(&TypeAnnotation::Custom("t".to_string()), &Value::Unit));
    assert!(!Interpreter::check_type(&TypeAnnotation::Float, &Value::Int(1)));
    assert!(!Interpreter::check_type(&TypeAnnotation::Never, &Value::Unit));
    let nested = TypeAnnotation::Array(
        Box::new(TypeAnnotation::Array(Box::new(TypeAnnotation::Bool), ArraySize::Fixed(1))),
        ArraySize::Inferred,
    );
    assert!(Interpreter::check_type(
        &nested,
        &Value::Array(vec![Value::Array(vec![Value::Bool(true)])])
    ));
    assert!(!Interpreter::check_type(
        &nested,
        &Value::Array(vec![Value::Array(vec![])])
    ));
}

#[test]
fn float_literals_are_refused_when_evaluated() {
    assert_eq!(
        run("1.5"),
        Err("Floating-point values are not supported".to_string())
    );
    assert_eq!(
        lex("2.5e3").unwrap(),
        vec![Token::FloatLiteral("2.5e3".to_string())]
    );
}

// ---------------------------------------------------------------- lexing and parsing

#[test]
fn lexer_errors() {
    assert_eq!(
        run("let x : int = 1 @ 2;"),
        Err("Unexpected character '@'".to_string())
    );
    // A string may end with the input; only an escape may not.
    assert_eq!(run("\"abc"), Ok(Value::Str("abc".to_string())));
    assert_eq!(run("\"abc\\"), Err("Unterminated string literal".to_string()));
    assert_eq!(run("\"a\\tb\\q\""), Ok(Value::Str("a\tb\\q".to_string())));
    assert_eq!(
        run("9223372036854775808"),
        Err("Invalid integer literal '9223372036854775808".to_string())
    );
    assert_eq!(run("1 ! 2"), Err("Unexpected character '!'".to_string()));
}

#[test]
fn lexer_tokens() {
    assert_eq!(
        lex("let x = 1_000; // note\n x != 2").unwrap(),
        vec![
            Token::Let,
            Token::Ident("x".to_string()),
            Token::Assign,
            Token::IntLiteral(1000),
            Token::Semicolon,
            Token::Ident("x".to_string()),
            Token::Ne,
            Token::IntLiteral(2),
        ]
    );
}

#[test]
fn parser_errors_show_tokens() {
    assert_eq!(
        run("let 5 = 1;"),
        Err("Expected identifier, found IntLiteral(5)".to_string())
    );
    assert_eq!(
        run("let \"x\" = 1;"),
        Err("Expected identifier, found StringLiteral(\"x\")".to_string())
    );
    assert_eq!(
        run("(1 + 2"),
        Err("Expected RParen, found end of input".to_string())
    );
    assert_eq!(
        run("let x : = 1 2;"),
        Err("Expected Semicolon, found IntLiteral(2)".to_string())
    );
    assert_eq!(run("let x = 1;"), Err("Expected Colon, found Assign".to_string()));
    assert_eq!(run("let x : ="), Err("Unexpected end of input".to_string()));
    assert_eq!(
        run("1 + 2 = 3;"),
        Err("Assignment target must be an identifier".to_string())
    );
    assert_eq!(run("{ 1"), Err("Unterminated block".to_string()));
}

#[test]
fn type_names_map_to_annotations() {
    assert_eq!(TypeAnnotation::from_name("i32"), TypeAnnotation::Int);
    assert_eq!(TypeAnnotation::from_name("f64"), TypeAnnotation::Float);
    assert_eq!(TypeAnnotation::from_name("bool"), TypeAnnotation::Bool);
    assert_eq!(TypeAnnotation::from_name("String"), TypeAnnotation::String);
    assert_eq!(TypeAnnotation::from_name("never"), TypeAnnotation::Never);
    assert_eq!(
        TypeAnnotation::from_name("thing"),
        TypeAnnotation::Custom("thing".to_string())
    );
    assert_eq!(TypeAnnotation::from_name("int"), TypeAnnotation::Int);
    assert_eq!(TypeAnnotation::from_name("float"), TypeAnnotation::Float);
    assert_eq!(TypeAnnotation::from_name("string"), TypeAnnotation::String);
}

// ---------------------------------------------------------------- values and output

#[test]
fn values_display_and_name_their_types() {
    assert_eq!(Value::Int(-42).display(), "-42");
    assert_eq!(Value::Int(i64::MIN).display(), "-9223372036854775808");
    assert_eq!(Value::Str("hi".to_string()).display(), "hi");
    assert_eq!(Value::Bool(false).display(), "false");
    assert_eq!(Value::Unit.display(), "unit");
    assert_eq!(Value::Array(vec![]).display(), "<array>");
    assert_eq!(Value::Int(1).value_type_name(), "int");
    assert_eq!(Value::Str(String::new()).value_type_name(), "string");
    assert_eq!(Value::Bool(true).value_type_name(), "bool");
    assert_eq!(Value::Unit.value_type_name(), "unit");
    assert_eq!(Value::Array(vec![]).value_type_name(), "array");
}

#[test]
fn print_writes_lines_in_order() {
    let (lines, result) = run_program("print(1, \"a\", true); print(); print(2 + 3);");
    assert_eq!(result, Ok(()));
    assert_eq!(lines, vec!["1 a true".to_string(), "".to_string(), "5".to_string()]);
}

#[test]
fn lines_printed_before_an_error_are_kept() {
    let (lines, result) = run_program("print(\"before\"); 1 / 0; print(\"after\");");
    assert_eq!(result, Err("Invalid operands for / or divide by zero".to_string()));
    assert_eq!(lines, vec!["before".to_string()]);
    let (lines, result) = run_program("print(");
    assert_eq!(result, Err("Unexpected end of input".to_string()));
    assert!(lines.is_empty());
}

#[test]
fn configured_output_is_extended() {
    let mut scope = Scope::new();
    let config = InterpreterConfig::with_output(vec!["earlier".to_string()]);
    let mut interpreter = Interpreter::new_with_config(&mut scope, config);
    let program = Parser::new(lex("print(\"x\" + \"y\");").unwrap())
        .parse_program()
        .unwrap();
    assert_eq!(interpreter.execute_program(&program), Ok(Value::Unit));
    assert_eq!(
        interpreter.config.output,
        vec!["earlier".to_string(), "xy".to_string()]
    );
    assert!(InterpreterConfig::new().output.is_empty());
    assert!(InterpreterConfig::default().output.is_empty());
}

#[test]
fn eval_with_output_gives_printed_lines() {
    let mut scope = Scope::new();
    scope.insert("n".to_string(), Value::Int(2));
    let (lines, result) = eval_with_output("print(n, \"x\"); n = n + 1; print(n); n", &mut scope);
    assert_eq!(result, Ok(Value::Int(3)));
    assert_eq!(lines, vec!["2 x".to_string(), "3".to_string()]);
    assert_eq!(scope.get("n"), Some(&Value::Int(3)));

    let (lines, result) = eval_with_output("print(1); len(2);", &mut scope);
    assert_eq!(result, Err("len() expects an array argument".to_string()));
    assert_eq!(lines, vec!["1".to_string()]);

    let (lines, result) = eval_with_output("print(1", &mut scope);
    assert_eq!(result, Err("Expected RParen, found end of input".to_string()));
    assert!(lines.is_empty());
}

#[test]
fn identifiers_are_well_formed_and_never_keywords() {
    assert_eq!(
        lex("letx let _1 while_ fn").unwrap(),
        vec![
            Token::Ident("letx".to_string()),
            Token::Let,
            Token::Ident("_1".to_string()),
            Token::Ident("while_".to_string()),
            Token::Fn,
        ]
    );
    // A digit starts a number, so the letters after it make a new identifier.
    assert_eq!(
        lex("a1b2 1ab").unwrap(),
        vec![
            Token::Ident("a1b2".to_string()),
            Token::IntLiteral(1),
            Token::Ident("ab".to_string()),
        ]
    );
}

#[test]
fn failed_array_assignment_keeps_shape() {
    let mut v = Value::Array(vec![
        Value::Array(vec![Value::Int(1), Value::Int(2)]),
        Value::Str("s".to_string()),
    ]);
    let result = v.assign(Value::Array(vec![
        Value::Array(vec![Value::Int(7), Value::Int(8)]),
        Value::Int(3),
    ]));
    assert_eq!(result, Err("Type mismatch. Expected string, found int".to_string()));
    assert_eq!(
        v,
        Value::Array(vec![
            Value::Array(vec![Value::Int(7), Value::Int(8)]),
            Value::Str("s".to_string()),
        ])
    );
}

#[test]
fn signs_extend_numbers_only_after_an_exponent() {
    assert_eq!(
        lex("5-3").unwrap(),
        vec![Token::IntLiteral(5), Token::Minus, Token::IntLiteral(3)]
    );
    assert_eq!(
        lex("1+2").unwrap(),
        vec![Token::IntLiteral(1), Token::Plus, Token::IntLiteral(2)]
    );
    assert_eq!(
        lex("1e-3 2E+4").unwrap(),
        vec![
            Token::FloatLiteral("1e-3".to_string()),
            Token::FloatLiteral("2E+4".to_string()),
        ]
    );
    assert_eq!(run("5-3"), Ok(Value::Int(2)));
    assert_eq!(run("10-4+1"), Ok(Value::Int(7)));
}

#[test]
fn if_then_else_form() {
    assert_eq!(run("if 1 > 0 then 1 else 2"), Ok(Value::Int(1)));
    assert_eq!(run("if 1 < 0 then 1 else 2"), Ok(Value::Int(2)));
    assert_eq!(run("if false then 1"), Ok(Value::Unit));
    assert_eq!(
        run("if false then 1 else if true then 2 else 3"),
        Ok(Value::Int(2))
    );
    assert_eq!(
        run("let f : fn(n: int) -> int = if n < 0 then -n else n; f(-4) + f(3)"),
        Ok(Value::Int(7))
    );
    assert_eq!(run("if true { 5 } else { 6 }"), Ok(Value::Int(5)));
}

#[test]
fn array_syntax() {
    assert_eq!(run("let arr : [int; _] = [1, 2, 3]; arr[1]"), Ok(Value::Int(2)));
    assert_eq!(run("let arr : [int; 3] = [1, 2, 3]; len(arr)"), Ok(Value::Int(3)));
    assert_eq!(
        run("let arr : [int; 2] = [1, 2, 3];"),
        Err("Type mismatch for 'arr' : expected Array(Int, Fixed(2)), got array.".to_string())
    );
    assert_eq!(
        run("let m : [[bool; 1]; _] = [[true], [false]]; m[1][0]"),
        Ok(Value::Bool(false))
    );
    assert_eq!(run("[]"), Ok(Value::Array(vec![])));
    assert_eq!(run("[4, 5][0] + 1"), Ok(Value::Int(5)));
    assert_eq!(run("let a : = [1, 2]; -a[1]"), Ok(Value::Int(-2)));
    assert_eq!(
        run("let a : = [1, 2]; a[2]"),
        Err("Array index out of bounds: 2 (array length: 2)".to_string())
    );
    assert_eq!(
        run("let a : [int; x] = [1];"),
        Err("Expected array size, found Ident(\"x\")".to_string())
    );
    assert_eq!(run("[1, 2"), Err("Expected RBracket, found end of input".to_string()));
    assert_eq!(
        lex("[]").unwrap(),
        vec![Token::LBracket, Token::RBracket]
    );
}
