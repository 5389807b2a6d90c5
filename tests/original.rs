use stacklang::{parse, Command, EngineError, Evaluator, Value};

#[test]
fn test1() -> Result<(), EngineError> {
    let commands = vec![
        Command::SetVar("a".into(), Value::Int(100)),
        Command::GetVar("a".into()),
    ];

    let mut evaluator = Evaluator::new();

    let result = evaluator.evaluate(&commands)?;

    assert_eq!(result, Value::Int(100));

    Ok(())
}

#[test]
fn eval_set_get() -> Result<(), EngineError> {
    let input = "set x 30\nget x";

    let commands = parse(input)?;

    let mut evaluator = Evaluator::new();
    let result = evaluator.evaluate(&commands)?;

    assert_eq!(result, Value::Int(30));

    Ok(())
}

#[test]
fn eval_set_get_string() -> Result<(), EngineError> {
    let input = "set x \"hello\"\nget x";

    let commands = parse(input)?;

    let mut evaluator = Evaluator::new();
    let result = evaluator.evaluate(&commands)?;

    assert_eq!(result, Value::String("hello".into()));

    Ok(())
}

#[test]
fn eval_stack() -> Result<(), EngineError> {
    let input = "push 100\npush 30\nadd\npop";

    let commands = parse(input)?;

    let mut evaluator = Evaluator::new();
    let result = evaluator.evaluate(&commands)?;

    assert_eq!(result, Value::Int(130));

    Ok(())
}

#[test]
fn eval_pushvar() -> Result<(), EngineError> {
    let input = "set x 33\npushvar x\npush 100\nadd\npop";

    let commands = parse(input)?;

    let mut evaluator = Evaluator::new();
    let result = evaluator.evaluate(&commands)?;

    assert_eq!(result, Value::Int(133));

    Ok(())
}
