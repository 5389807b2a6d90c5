use stacklang::{
    interpret, parse, parse_int, parse_string, parse_value, parse_set, Command, EngineError,
    Evaluator, Value,
};

fn run(text: &str) -> Result<Value, EngineError> {
    interpret(text)
}

#[test]
fn set_then_get_int_and_string() {
    assert_eq!(run("set x 30\nget x").unwrap(), Value::Int(30));
    assert_eq!(run("set x \"hello\"\nget x").unwrap(), Value::String("hello".to_string()));
}

#[test]
fn add_takes_later_push_as_left_operand() {
    assert_eq!(run("push \"a\"\npush \"b\"\nadd\npop").unwrap(), Value::String("ba".to_string()));
}

#[test]
fn int_add_ignores_push_order() {
    assert_eq!(run("push 100\npush 30\nadd\npop").unwrap(), Value::Int(130));
    assert_eq!(run("push 30\npush 100\nadd\npop").unwrap(), Value::Int(130));
    assert_eq!(run("push -7\npush 3\nadd\npop").unwrap(), Value::Int(-4));
}

#[test]
fn int_add_wraps_at_the_bounds() {
    assert_eq!(
        run("push 9223372036854775807\npush 1\nadd\npop").unwrap(),
        Value::Int(i64::MIN)
    );
}

#[test]
fn mixed_add_is_a_type_mismatch() {
    assert!(matches!(run("push 1\npush \"a\"\nadd"), Err(EngineError::TypeMismatch)));
    assert!(matches!(run("push \"a\"\npush 1\nadd"), Err(EngineError::TypeMismatch)));
    let commands = vec![Command::Push(Value::Nothing), Command::Push(Value::Int(1)), Command::Add];
    let mut evaluator = Evaluator::new();
    assert!(matches!(evaluator.evaluate(&commands), Err(EngineError::TypeMismatch)));
    let commands = vec![Command::Push(Value::Int(1)), Command::Push(Value::Nothing), Command::Add];
    let mut evaluator = Evaluator::new();
    assert!(matches!(evaluator.evaluate(&commands), Err(EngineError::TypeMismatch)));
}

#[test]
fn underflow_is_an_empty_stack() {
    assert!(matches!(run("pop"), Err(EngineError::EmptyStack)));
    assert!(matches!(run("add"), Err(EngineError::EmptyStack)));
    assert!(matches!(run("push 1\nadd"), Err(EngineError::EmptyStack)));
}

#[test]
fn unbound_names_are_missing_variables() {
    match run("get y") {
        Err(EngineError::MissingVariable(name)) => assert_eq!(name, "y"),
        other => panic!("unexpected {:?}", other),
    }
    match run("set x 1\npushvar yy") {
        Err(EngineError::MissingVariable(name)) => assert_eq!(name, "yy"),
        other => panic!("unexpected {:?}", other),
    }
}

#[test]
fn unknown_keyword_carries_its_token() {
    match parse("push 1\nmul 2 3") {
        Err(EngineError::UnknownCommand(word)) => assert_eq!(word, "mul"),
        other => panic!("unexpected {:?}", other.map(|c| c.len())),
    }
}

#[test]
fn blank_lines_give_no_commands() {
    let commands = parse("\n   \n\t\r\n").unwrap();
    assert_eq!(commands.len(), 0);
    assert_eq!(run("").unwrap(), Value::Nothing);
    let commands = parse("push 1\n\n  pop  \n").unwrap();
    assert_eq!(commands.len(), 2);
}

#[test]
fn end_to_end_pushvar_program() {
    assert_eq!(run("set x 33\npushvar x\npush 100\nadd\npop").unwrap(), Value::Int(133));
}

#[test]
fn rebinding_keeps_the_last_value() {
    assert_eq!(run("set x 1\nset x 2\nget x").unwrap(), Value::Int(2));
}

#[test]
fn wrong_arity_is_rejected() {
    assert!(matches!(parse("set x"), Err(EngineError::MismatchNumParams)));
    assert!(matches!(parse("set x 1 2"), Err(EngineError::MismatchNumParams)));
    assert!(matches!(parse("get"), Err(EngineError::MismatchNumParams)));
    assert!(matches!(parse("pushvar a b"), Err(EngineError::MismatchNumParams)));
    assert!(matches!(parse("push"), Err(EngineError::MismatchNumParams)));
    assert!(matches!(parse("pop x"), Err(EngineError::MismatchNumParams)));
    assert!(matches!(parse("add 1"), Err(EngineError::MismatchNumParams)));
}

#[test]
fn first_failing_line_decides_the_error() {
    assert!(matches!(parse("set x\nfoo"), Err(EngineError::MismatchNumParams)));
    assert!(matches!(parse("foo\nset x"), Err(EngineError::UnknownCommand(_))));
}

#[test]
fn literals_parse_as_documented() {
    assert_eq!(parse_value("\"a b\"").unwrap(), Value::String("a b".to_string()));
    assert_eq!(parse_value("\"\"").unwrap(), Value::String(String::new()));
    assert!(matches!(parse_value("\""), Err(EngineError::TypeMismatch)));
    assert!(matches!(parse_value("\"abc"), Err(EngineError::TypeMismatch)));
    assert!(matches!(parse_value("abc"), Err(EngineError::TypeMismatch)));
    assert_eq!(parse_value("+5").unwrap(), Value::Int(5));
    assert_eq!(parse_value("007").unwrap(), Value::Int(7));
    assert!(matches!(parse_value("-"), Err(EngineError::TypeMismatch)));
    assert!(matches!(parse_value("1x"), Err(EngineError::TypeMismatch)));
}

#[test]
fn integer_literal_bounds() {
    assert_eq!(parse_int("9223372036854775807").unwrap(), Value::Int(i64::MAX));
    assert_eq!(parse_int("-9223372036854775808").unwrap(), Value::Int(i64::MIN));
    assert!(matches!(parse_int("9223372036854775808"), Err(EngineError::TypeMismatch)));
    assert!(matches!(parse_int("-9223372036854775809"), Err(EngineError::TypeMismatch)));
    assert!(matches!(
        parse_int("123456789012345678901234567890"),
        Err(EngineError::TypeMismatch)
    ));
    assert_eq!(parse_int("-0").unwrap(), Value::Int(0));
}

#[test]
fn string_literal_strips_quotes() {
    assert_eq!(parse_string("\"hi\"").unwrap(), Value::String("hi".to_string()));
    assert!(matches!(parse_string("hi"), Err(EngineError::TypeMismatch)));
}

#[test]
fn set_words_become_a_command() {
    let words = vec!["set".to_string(), "name".to_string(), "42".to_string()];
    match parse_set(&words).unwrap() {
        Command::SetVar(name, value) => {
            assert_eq!(name, "name");
            assert_eq!(value, Value::Int(42));
        }
        other => panic!("unexpected {:?}", other),
    }
}

#[test]
fn failure_keeps_earlier_effects() {
    let mut evaluator = Evaluator::new();
    let first = vec![
        Command::SetVar("x".into(), Value::Int(1)),
        Command::GetVar("y".into()),
    ];
    assert!(matches!(evaluator.evaluate(&first), Err(EngineError::MissingVariable(_))));
    let second = vec![Command::GetVar("x".into())];
    assert_eq!(evaluator.evaluate(&second).unwrap(), Value::Int(1));
}

#[test]
fn pop_on_the_evaluator() {
    let mut evaluator = Evaluator::new();
    assert!(matches!(evaluator.pop(), Err(EngineError::EmptyStack)));
    let commands = vec![Command::Push(Value::Int(5))];
    evaluator.evaluate(&commands).unwrap();
    assert_eq!(evaluator.pop().unwrap(), Value::Int(5));
}

#[test]
fn add_combines_values() {
    let evaluator = Evaluator::new();
    assert_eq!(
        evaluator.add(Value::String("x".into()), Value::String("y".into())).unwrap(),
        Value::String("xy".into())
    );
    assert_eq!(evaluator.add(Value::Int(2), Value::Int(3)).unwrap(), Value::Int(5));
}

#[test]
fn windows_line_endings_are_blanks() {
    assert_eq!(run("push 1\r\npop\r\n").unwrap(), Value::Int(1));
}

#[test]
fn non_ascii_text_round_trips() {
    assert_eq!(run("set é \"ünï\"\nget é").unwrap(), Value::String("ünï".to_string()));
}
