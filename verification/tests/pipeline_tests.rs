use just_lang::pipeline::{interpret, InterpretError};
use just_lang::runtime::{ExecError, Executor, Value};
use just_lang::scanner::Scanner;
use just_lang::tokenize::{TokenizeError, Tokenizer};

fn run_words(words: &[&str]) -> Executor {
    let mut tokenizer = Tokenizer::new();
    for word in words {
        tokenizer.add_token(word.to_string()).unwrap();
    }
    let mut executor = Executor::new(tokenizer.into_tokens());
    executor.execute().expect("the run succeeds");
    executor
}

#[test]
fn split_string_is_bound_with_its_space() {
    let executor = run_words(&["let", "x", "=", "\"hello", "world\""]);
    assert!(matches!(executor.lookup("x"), Some(Value::String(s)) if s == "hello world"));
}

#[test]
fn product_of_a_sum_from_words() {
    let executor = run_words(&["let", "y", "=", "5", "*", "2", "+", "3"]);
    assert!(matches!(executor.lookup("y"), Some(Value::Number(25))));
}

#[test]
fn three_strings_from_words() {
    let executor = run_words(&["let", "s", "=", "\"a\"", "+", "\"b\"", "+", "\"c\""]);
    assert!(matches!(executor.lookup("s"), Some(Value::String(s)) if s == "abc"));
}

#[test]
fn add_then_subtract_from_text() {
    let executor = interpret("let x = 40 + 2;\nlet x = x - 2;".to_string()).unwrap();
    assert!(matches!(executor.lookup("x"), Some(Value::Number(40))));
}

#[test]
fn add_then_subtract_a_negative_number_from_text() {
    let executor = interpret("let x = -7 + -5; let x = x - -5".to_string()).unwrap();
    assert!(matches!(executor.lookup("x"), Some(Value::Number(-7))));
}

#[test]
fn interpret_runs_statements_in_order() {
    let executor =
        interpret("let a = 6 / 4\nlet b = a * 10, let c = \"n\" + \"m\";let d = true".to_string())
            .unwrap();
    assert!(matches!(executor.lookup("a"), Some(Value::Number(1))));
    assert!(matches!(executor.lookup("b"), Some(Value::Number(10))));
    assert!(matches!(executor.lookup("c"), Some(Value::String(s)) if s == "nm"));
    assert!(matches!(executor.lookup("d"), Some(Value::Boolean(true))));
    assert!(executor.tokens().is_empty());
}

#[test]
fn interpret_of_empty_text() {
    let executor = interpret(String::new()).unwrap();
    assert!(executor.lookup("x").is_none());
}

#[test]
fn array_is_bound_as_null() {
    let executor = interpret("let a = [1, 2, 3]".to_string()).unwrap();
    assert!(matches!(executor.lookup("a"), Some(Value::Null)));
}

#[test]
fn text_without_let_binds_nothing() {
    let executor = interpret("1 + 2; x / 0; \"a b\" - true [1 2]".to_string()).unwrap();
    for name in ["x", "a", "b", "true"] {
        assert!(executor.lookup(name).is_none());
    }
}

#[test]
fn text_without_let_keeps_the_bindings() {
    let mut executor = interpret("let x = 1".to_string()).unwrap();
    let scanner = Scanner::new("x + 1; y; 7 / 0".to_string());
    let mut tokenizer = Tokenizer::new();
    for word in scanner.text {
        tokenizer.add_token(word).unwrap();
    }
    executor.tokens = tokenizer.into_tokens();
    assert!(executor.execute().is_ok());
    assert!(matches!(executor.lookup("x"), Some(Value::Number(1))));
    assert!(executor.lookup("y").is_none());
}

#[test]
fn interpret_reports_an_unbound_variable() {
    match interpret("let a = 1; let b = 2; let c = d + 1".to_string()) {
        Err(InterpretError::Execute(ExecError::VariableNotFound { name })) => assert_eq!(name, "d"),
        _ => panic!("the run must fail"),
    }
}

#[test]
fn interpret_reports_a_missing_equals() {
    assert!(matches!(
        interpret("let x 5".to_string()),
        Err(InterpretError::Execute(ExecError::EqualsExpected))
    ));
}

#[test]
fn interpret_reports_a_division_by_zero() {
    assert!(matches!(
        interpret("let x = 7 / 0".to_string()),
        Err(InterpretError::Execute(ExecError::DivisionByZero))
    ));
}

#[test]
fn interpret_reports_a_type_mismatch() {
    match interpret("let x = \"a\" + 1".to_string()) {
        Err(e) => assert_eq!(e.message(), "Cannot add types String and Number"),
        _ => panic!("the run must fail"),
    }
}

#[test]
fn interpret_reports_an_overflow() {
    assert!(matches!(
        interpret("let x = 9223372036854775807 + 1".to_string()),
        Err(InterpretError::Execute(ExecError::Overflow))
    ));
}

#[test]
fn interpret_reports_an_early_end() {
    assert!(matches!(
        interpret("let x = 1 +".to_string()),
        Err(InterpretError::Execute(ExecError::UnexpectedEnd))
    ));
}

#[test]
fn interpret_reports_a_number_out_of_range() {
    match interpret("let x = 1; let y = 9223372036854775808".to_string()) {
        Err(InterpretError::Tokenize(TokenizeError::NumberOutOfRange { word })) => {
            assert_eq!(word, "9223372036854775808")
        },
        _ => panic!("the text must be refused"),
    }
}

#[test]
fn interpret_reports_a_number_out_of_range_before_any_other_error() {
    let error = match interpret("let x = y; let z = [-9223372036854775809]".to_string()) {
        Err(error) => error,
        Ok(_) => panic!("the text must be refused"),
    };
    assert_eq!(error.message(), "Number out of range -9223372036854775809");
}

#[test]
fn interpret_error_message_of_a_run() {
    let error = match interpret("let x = y".to_string()) {
        Err(error) => error,
        Ok(_) => panic!("the run must fail"),
    };
    assert_eq!(error.message(), "Variable not found y");
}

#[test]
fn numbers_at_the_ends_of_the_range_are_bound() {
    let executor =
        interpret("let a = 9223372036854775807; let b = -9223372036854775808".to_string()).unwrap();
    assert!(matches!(executor.lookup("a"), Some(Value::Number(i64::MAX))));
    assert!(matches!(executor.lookup("b"), Some(Value::Number(i64::MIN))));
}
