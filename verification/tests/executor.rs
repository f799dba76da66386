use rust_slack_bot::executor::{
    ExecutionResult, Executor, ExecutorExecuteError, ExecutorInput, ExecutorInputError, Executors,
    ParseCodeBlockError,
};

fn echo_registry() -> Executors {
    Executors::new(vec![("echo".to_string(), "echo {{payload}}".to_string())])
}

#[test]
fn test_executor_input_parse_message() -> Result<(), ParseCodeBlockError> {
    let text = "# executor: psql\nselect * from status;";
    let result = ExecutorInput::parse_code_block(text)?;
    assert_eq!(
        result,
        ExecutorInput {
            name: "psql".to_string(),
            input: "select * from status;".to_string(),
        }
    );
    Ok(())
}

#[test]
fn test_executor_input_parse_message_error_split_failure() {
    let text = "# executor psql\nselect * from status;";
    let result = ExecutorInput::parse_code_block(text);

    let e = result.unwrap_err();

    assert_eq!(
        e,
        ParseCodeBlockError::SplitFailure("executor psql".to_string())
    );
}

#[test]
fn parse_concatenates_payload_lines() {
    let text = "# executor: psql\nselect 1;\n  select 2;  \nselect 3;";
    let result = ExecutorInput::parse_code_block(text).unwrap();
    assert_eq!(result.name, "psql");
    assert_eq!(result.input, "select 1;select 2;select 3;");
}

#[test]
fn parse_without_directive_leaves_name_empty() {
    let result = ExecutorInput::parse_code_block("just some text\nmore text").unwrap();
    assert_eq!(result.name, "");
    assert_eq!(result.input, "just some textmore text");
}

#[test]
fn parse_last_executor_directive_wins() {
    let result = ExecutorInput::parse_code_block("# executor: a\n# executor: b\npayload").unwrap();
    assert_eq!(result.name, "b");
    assert_eq!(result.input, "payload");
}

#[test]
fn parse_unrecognized_directive_is_an_error() {
    let e = ExecutorInput::parse_code_block("# timeout: 5\nselect 1;").unwrap_err();
    assert_eq!(e, ParseCodeBlockError::UnrecognizedDirective("timeout".to_string()));
}

#[test]
fn parse_key_is_the_part_between_the_last_two_colons() {
    let result = ExecutorInput::parse_code_block("# x:executor:psql\nbody").unwrap();
    assert_eq!(result.name, "psql");
}

#[test]
fn executor_extract_code_block() {
    let text = "```# executor: psql\nselect * from status;```\nsome message";
    assert_eq!(
        ExecutorInput::extract_code_block_from_slack_message(text).unwrap(),
        "# executor: psql\nselect * from status;"
    );
}

#[test]
fn extract_needs_both_markers() {
    assert!(ExecutorInput::extract_code_block_from_slack_message("``` only one fence").is_none());
    assert!(ExecutorInput::extract_code_block_from_slack_message("no fence at all").is_none());
}

#[test]
fn new_from_slack_without_code_block_fails() {
    let e = ExecutorInput::new_from_slack("hello there").unwrap_err();
    assert_eq!(e, ExecutorInputError::NoCodeBlock("hello there".to_string()));
}

#[test]
fn new_from_slack_wraps_directive_errors() {
    let e = ExecutorInput::new_from_slack("```# executor psql\nselect 1;```").unwrap_err();
    assert_eq!(
        e,
        ExecutorInputError::ParseCodeBlockError(ParseCodeBlockError::SplitFailure(
            "executor psql".to_string()
        ))
    );
}

#[test]
fn new_from_slack_parses_the_fenced_block() {
    let input = ExecutorInput::new_from_slack("hi ```# executor: echo\nhello``` bye").unwrap();
    assert_eq!(input.name, "echo");
    assert_eq!(input.input, "hello");
}

#[test]
fn prepare_command_substitutes_the_payload() {
    let executor = Executor { command: "echo {{payload}}".to_string() };
    let command = executor.prepare_command("hi").unwrap();
    assert_eq!(command, "echo hi");
}

#[test]
fn prepare_command_rejects_a_malformed_template() {
    let executor = Executor { command: "echo {{".to_string() };
    let e = executor.prepare_command("hi").unwrap_err();
    assert!(matches!(e, ExecutorExecuteError::TemplateError(_)));
}

#[test]
fn execute_captures_stdout() {
    let executor = Executor { command: "echo {{payload}}".to_string() };
    let input = ExecutorInput { name: "echo".to_string(), input: "hi".to_string() };
    let result = executor.execute(input).unwrap();
    assert_eq!(result.stdout, "hi\n");
    assert_eq!(result.exit_status, Some(0));
    assert_eq!(result.error, None);
}

#[test]
fn execute_captures_a_non_zero_exit() {
    let executor = Executor { command: "exit 3".to_string() };
    let input = ExecutorInput { name: "x".to_string(), input: "".to_string() };
    let result = executor.execute(input).unwrap();
    assert_eq!(result.exit_status, Some(3));
    assert!(result.error.is_some());
    assert_eq!(result.stdout, "");
}

#[test]
fn from_shell_outcome_marks_failures() {
    let ok = ExecutionResult::from_shell_outcome(Ok(("out\n".to_string(), Some(0))));
    assert_eq!(ok.error, None);
    let bad = ExecutionResult::from_shell_outcome(Ok(("".to_string(), Some(2))));
    assert!(bad.error.is_some());
    let spawn = ExecutionResult::from_shell_outcome(Err("spawn failed".to_string()));
    assert_eq!(spawn.error, Some("spawn failed".to_string()));
    assert_eq!(spawn.exit_status, None);
}

#[test]
fn empty_registry_fails_with_no_available_executors() {
    let registry = Executors::new(vec![]);
    let e = registry
        .execute_from_slack_message("```# executor: echo\nhi```")
        .unwrap_err();
    assert!(matches!(e, ExecutorExecuteError::NoAvailableExecutors));
    let e = registry.execute_from_slack_message("no block at all").unwrap_err();
    assert!(matches!(e, ExecutorExecuteError::NoAvailableExecutors));
}

#[test]
fn unknown_executor_is_reported_by_name() {
    let e = echo_registry()
        .execute_from_slack_message("```# executor: psql\nselect 1;```")
        .unwrap_err();
    assert_eq!(e, ExecutorExecuteError::UnknownExecutor("psql".to_string()));
}

#[test]
fn execute_from_slack_message_runs_the_named_executor() {
    let result = echo_registry()
        .execute_from_slack_message("```# executor: echo\nhi```")
        .unwrap();
    assert_eq!(result.stdout, "hi\n");
    assert_eq!(result.error, None);
}

#[test]
fn execute_from_slack_message_propagates_parse_errors() {
    let e = echo_registry()
        .execute_from_slack_message("no block here")
        .unwrap_err();
    assert_eq!(
        e,
        ExecutorExecuteError::ExecutorInputError(ExecutorInputError::NoCodeBlock(
            "no block here".to_string()
        ))
    );
}

#[test]
fn registry_last_entry_wins() {
    let registry = Executors::new(vec![
        ("echo".to_string(), "echo a".to_string()),
        ("echo".to_string(), "echo b".to_string()),
    ]);
    let executor = registry.lookup("echo").unwrap();
    assert_eq!(executor.command, "echo b");
}

#[test]
fn registry_lookup_misses_absent_names() {
    assert!(echo_registry().lookup("psql").is_none());
}

#[test]
fn default_registry_holds_echo() {
    let registry = Executors::default();
    let executor = registry.lookup("echo").unwrap();
    assert_eq!(executor.command, "echo {{payload}}");
}
