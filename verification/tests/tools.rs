use hrns::config::ToolsConfig;
use hrns::json::{parse_json, Json};
use hrns::permission::{Permission, PermissionLevel, PermissionsConfig, ToolError};
use hrns::table::Table;
use hrns::tools::{
    advance_call, args_json, bash_result_json, bash_tool_definition, builtin_gate, builtin_tools,
    call_id, is_simple_bash_command, read_result_json, read_tool_definition, resolve_path,
    slice_lines, start_call, BashArgs, BeforeTool, Builtin, CallAction, CallEvent, CallState,
    CommandOutput, Gate, ReadArgs, ToolArgs,
};

fn permissions(list: &[(&str, PermissionLevel)]) -> PermissionsConfig {
    let mut tools = Table::new();
    for (k, v) in list {
        tools.insert(k.to_string(), Permission::Level(*v));
    }
    PermissionsConfig { tools }
}

fn bash_patterns(list: &[(&str, PermissionLevel)]) -> PermissionsConfig {
    let mut map = Table::new();
    for (k, v) in list {
        map.insert(k.to_string(), *v);
    }
    let mut tools = Table::new();
    tools.insert("bash".to_string(), Permission::Patterns(map));
    PermissionsConfig { tools }
}

fn bash(command: &str) -> ToolArgs {
    ToolArgs::Bash(BashArgs { command: command.to_string() })
}

fn read(path: &str, offset: Option<usize>, count: Option<usize>) -> ToolArgs {
    ToolArgs::Read(ReadArgs { path: path.to_string(), offset, count })
}

fn json(s: &str) -> Json {
    parse_json(s).unwrap()
}

fn refused(action: CallAction) -> String {
    match action {
        CallAction::Finish(Err(ToolError::ToolCallError(m))) => m,
        other => panic!("not refused: {:?}", other),
    }
}

// --- read tool slicing ---

#[test]
fn test_slice_lines_no_args_returns_full() {
    let s = "a\nb\nc";
    assert_eq!(slice_lines(s, None, None), s);
}

#[test]
fn test_slice_lines_offset_only() {
    let s = "a\nb\nc\nd";
    assert_eq!(slice_lines(s, Some(1), None), "b\nc\nd");
}

#[test]
fn test_slice_lines_offset_and_count() {
    let s = "a\nb\nc\nd\ne";
    assert_eq!(slice_lines(s, Some(1), Some(2)), "b\nc");
}

#[test]
fn test_slice_lines_count_past_end_is_clamped() {
    let s = "a\nb";
    assert_eq!(slice_lines(s, Some(0), Some(99)), "a\nb");
}

#[test]
fn test_slice_lines_offset_past_end_returns_empty() {
    assert_eq!(slice_lines("a\nb", Some(99), None), "");
}

#[test]
fn slices_lose_line_endings_but_not_lines() {
    assert_eq!(slice_lines("a\r\nb\n\nc\n", Some(0), None), "a\nb\n\nc");
    assert_eq!(slice_lines("a\nb\nc", None, Some(1)), "a");
    assert_eq!(slice_lines("a\nb\nc", Some(1), Some(0)), "");
    assert_eq!(slice_lines("a\nb\nc", Some(1), Some(usize::MAX)), "b\nc");
    assert_eq!(slice_lines("a\n\n", None, None), "a\n\n");
}

// --- bash command validation ---

#[test]
fn test_simple_commands_pass_validation() {
    assert!(is_simple_bash_command("apt update"));
    assert!(is_simple_bash_command("ls -la /home"));
    assert!(is_simple_bash_command("find /home -name '*.jpg'"));
}

#[test]
fn test_metacharacters_fail_validation() {
    assert!(!is_simple_bash_command("ls | grep foo"));
    assert!(!is_simple_bash_command("apt update; rm -rf /"));
    assert!(!is_simple_bash_command("apt update && malicious"));
    assert!(!is_simple_bash_command("echo `whoami`"));
    assert!(!is_simple_bash_command("echo $(whoami)"));
    assert!(!is_simple_bash_command("echo hi > /etc/passwd"));
    assert!(!is_simple_bash_command("apt\\ update"));
    assert!(!is_simple_bash_command("apt update\nrm -rf /"));
}

#[test]
fn every_metacharacter_counts() {
    for c in [
        ';', '|', '&', '`', '$', '(', ')', '{', '}', '<', '>', '\n', '\r', '!', '#', '\\',
    ] {
        assert!(!is_simple_bash_command(&format!("a{}b", c)), "{:?}", c);
    }
    assert!(is_simple_bash_command(""));
}

// --- definitions and results ---

#[test]
fn definitions_describe_the_tools() {
    let d = read_tool_definition();
    assert_eq!(d.name, "read");
    assert_eq!(d.description, "read the contents of a file");
    let expected = r#"{"type":"object","properties":{
        "path":{"type":"string","description":"absolute or relative path to the file to read"},
        "offset":{"type":"integer","description":"0-indexed line number to start reading from (default: 0)","minimum":0},
        "count":{"type":"integer","description":"number of lines to read (default: read to end)","minimum":1}},
        "required":["path"]}"#;
    assert_eq!(d.parameters, json(expected));
    let d = bash_tool_definition();
    assert_eq!(d.name, "bash");
    assert_eq!(d.description, "execute a bash command and return its output");
    let expected = r#"{"type":"object","properties":{"command":{"type":"string","description":
        "the bash command to execute. must be simple: no pipes, redirects, chaining, or shell metacharacters"}},
        "required":["command"]}"#;
    assert_eq!(d.parameters, json(expected));
}

#[test]
fn results_are_json() {
    assert_eq!(read_result_json("a\n\"b\"").render(), "{\"content\":\"a\\n\\\"b\\\"\"}");
    let out = CommandOutput {
        code: Some(2),
        stdout: "o".to_string(),
        stderr: "e".to_string(),
    };
    assert_eq!(
        bash_result_json(&out).render(),
        "{\"exit_code\":2,\"stderr\":\"e\",\"stdout\":\"o\"}"
    );
    let out = CommandOutput { code: None, stdout: String::new(), stderr: String::new() };
    assert_eq!(bash_result_json(&out).render(), "{\"exit_code\":-1,\"stdout\":\"\"}");
}

#[test]
fn arguments_are_json() {
    assert_eq!(args_json(&bash("ls")), json(r#"{"command":"ls"}"#));
    assert_eq!(args_json(&read("/x", None, None)), json(r#"{"path":"/x"}"#));
    assert_eq!(
        args_json(&read("/x", Some(3), Some(4))),
        json(r#"{"path":"/x","offset":3,"count":4}"#)
    );
}

#[test]
fn call_ids_and_paths() {
    assert_eq!(call_id(4711, 0), "hrns-4711-0");
    assert_eq!(call_id(1, 120), "hrns-1-120");
    assert_eq!(resolve_path("/etc/hosts", "/home/u"), "/etc/hosts");
    assert_eq!(resolve_path("a/b", "/home/u"), "/home/u/a/b");
    assert_eq!(resolve_path("a", "/"), "/a");
}

#[test]
fn only_active_builtins_are_offered() {
    let mut gates = Table::new();
    gates.insert("bash".to_string(), true);
    let config = ToolsConfig { tools: gates };
    assert_eq!(builtin_tools(&config, &None), vec![Builtin::Bash]);
    let both = Some(vec!["bash".to_string(), "read".to_string()]);
    assert_eq!(builtin_tools(&config, &both), vec![Builtin::Read, Builtin::Bash]);
    assert_eq!(builtin_tools(&config, &Some(vec![])), vec![]);
    assert_eq!(Builtin::Read.name(), "read");
    assert_eq!(Builtin::Bash.name(), "bash");
}

// --- the permission gate ---

#[test]
fn commands_with_metacharacters_need_a_catch_all() {
    let p = bash_patterns(&[("ls | wc", PermissionLevel::Allow), ("ls *", PermissionLevel::Allow)]);
    match builtin_gate(&p, "/", &bash("ls | wc")) {
        Gate::Refuse(m) => assert_eq!(m, "permission denied (shell metacharacters): ls | wc"),
        other => panic!("{:?}", other),
    }
    let p = bash_patterns(&[("*", PermissionLevel::Ask)]);
    match builtin_gate(&p, "/", &bash("ls | wc")) {
        Gate::Ask { tool, input } => {
            assert_eq!(tool, "bash (complex)");
            assert_eq!(input, "ls | wc");
        }
        other => panic!("{:?}", other),
    }
    let p = bash_patterns(&[("**", PermissionLevel::Allow), ("ls | wc", PermissionLevel::Deny)]);
    assert!(matches!(builtin_gate(&p, "/", &bash("ls | wc")), Gate::Pass));
}

#[test]
fn paths_are_judged_as_they_resolve() {
    let mut map = Table::new();
    map.insert("/home/u/*".to_string(), PermissionLevel::Allow);
    let mut tools = Table::new();
    tools.insert("read".to_string(), Permission::Patterns(map));
    let p = PermissionsConfig { tools };
    assert!(matches!(builtin_gate(&p, "/home/u", &read("x", None, None)), Gate::Pass));
    match builtin_gate(&p, "/home/u", &read("x/y", None, None)) {
        Gate::Refuse(m) => assert_eq!(m, "permission denied: /home/u/x/y"),
        other => panic!("{:?}", other),
    }
}

// --- the course of a call ---

#[test]
fn an_allowed_read_goes_its_way() {
    let p = permissions(&[("read", PermissionLevel::Allow)]);
    let (state, args) = start_call(read("notes", Some(1), Some(1)));
    assert_eq!(args, json(r#"{"path":"notes","offset":1,"count":1}"#));
    let (state, action) =
        advance_call(&p, "/w", state, CallEvent::Intercepted(BeforeTool::default()));
    assert!(matches!(&action, CallAction::ReadFile(path) if path == "notes"));
    let (state, action) =
        advance_call(&p, "/w", state, CallEvent::FileRead(Ok("a\nb\nc".to_string())));
    assert!(matches!(&action, CallAction::Observe(o) if o == "{\"content\":\"b\"}"));
    let (state, action) = advance_call(&p, "/w", state, CallEvent::Observed(None));
    assert!(matches!(&action, CallAction::Finish(Ok(o)) if o == "{\"content\":\"b\"}"));
    assert!(matches!(state, CallState::Finished));
}

#[test]
fn a_file_that_cannot_be_read_fails_the_call() {
    let p = permissions(&[("read", PermissionLevel::Allow)]);
    let state = CallState::Executing { args: read("notes", None, None) };
    let (_, action) = advance_call(&p, "/w", state, CallEvent::FileRead(Err("gone".to_string())));
    assert_eq!(refused(action), "/w/notes: gone");
}

#[test]
fn a_command_runs_and_its_output_may_be_replaced() {
    let p = permissions(&[("bash", PermissionLevel::Allow)]);
    let (state, _) = start_call(bash("ls"));
    let (state, action) =
        advance_call(&p, "/w", state, CallEvent::Intercepted(BeforeTool::default()));
    assert!(matches!(&action, CallAction::RunCommand(c) if c == "ls"));
    let out = CommandOutput { code: Some(0), stdout: "x\n".to_string(), stderr: String::new() };
    let (state, action) = advance_call(&p, "/w", state, CallEvent::CommandRun(Ok(out)));
    assert!(matches!(&action, CallAction::Observe(o) if o == "{\"exit_code\":0,\"stdout\":\"x\\n\"}"));
    let (_, action) = advance_call(&p, "/w", state, CallEvent::Observed(Some("seen".to_string())));
    assert!(matches!(&action, CallAction::Finish(Ok(o)) if o == "seen"));
    let state = CallState::Executing { args: bash("ls") };
    let (_, action) = advance_call(&p, "/w", state, CallEvent::CommandRun(Err("no sh".to_string())));
    assert_eq!(refused(action), "failed to execute: no sh");
}

#[test]
fn a_denial_wins_over_everything_else() {
    let p = permissions(&[("bash", PermissionLevel::Allow)]);
    let (state, _) = start_call(bash("ls"));
    let before = BeforeTool {
        deny: Some("policy".to_string()),
        result: Some("made up".to_string()),
        args: Some(json(r#"{"command":"pwd"}"#)),
    };
    let (_, action) = advance_call(&p, "/w", state, CallEvent::Intercepted(before));
    assert_eq!(refused(action), "denied by hook: policy");
}

#[test]
fn rewritten_arguments_are_what_is_judged() {
    let p = bash_patterns(&[("ls", PermissionLevel::Allow)]);
    let rewrite = || BeforeTool {
        deny: None,
        result: None,
        args: Some(json(r#"{"command":"rm x"}"#)),
    };
    let (state, _) = start_call(bash("ls"));
    let (state, action) = advance_call(&p, "/w", state, CallEvent::Intercepted(rewrite()));
    assert!(matches!(&action, CallAction::Parse(j) if *j == json(r#"{"command":"rm x"}"#)));
    let (_, action) = advance_call(&p, "/w", state, CallEvent::Parsed(Ok(bash("rm x"))));
    assert_eq!(refused(action), "permission denied: rm x");
    let (state, _) = start_call(bash("ls"));
    let (state, _) = advance_call(&p, "/w", state, CallEvent::Intercepted(rewrite()));
    let (_, action) = advance_call(&p, "/w", state, CallEvent::Parsed(Err("no command".to_string())));
    assert_eq!(refused(action), "rewritten tool args invalid: no command");
}

#[test]
fn synthetic_results_are_gated_and_skip_the_tool() {
    let synthetic = || BeforeTool {
        deny: None,
        result: Some("cached".to_string()),
        args: None,
    };
    let p = permissions(&[("bash", PermissionLevel::Allow)]);
    let (state, _) = start_call(bash("ls"));
    let (_, action) = advance_call(&p, "/w", state, CallEvent::Intercepted(synthetic()));
    assert!(matches!(&action, CallAction::Observe(o) if o == "cached"));
    let p = permissions(&[("bash", PermissionLevel::Deny)]);
    let (state, _) = start_call(bash("ls"));
    let (_, action) = advance_call(&p, "/w", state, CallEvent::Intercepted(synthetic()));
    assert_eq!(refused(action), "permission denied: ls");
}

#[test]
fn the_user_is_asked_and_decides() {
    let p = permissions(&[("bash", PermissionLevel::Ask)]);
    let ask = || {
        let (state, _) = start_call(bash("ls"));
        advance_call(&p, "/w", state, CallEvent::Intercepted(BeforeTool::default()))
    };
    let (state, action) = ask();
    assert!(matches!(&action, CallAction::Confirm { tool, input } if tool == "bash" && input == "ls"));
    let (_, action) = advance_call(&p, "/w", state, CallEvent::Confirmed(true));
    assert!(matches!(&action, CallAction::RunCommand(c) if c == "ls"));
    let (state, _) = ask();
    let (_, action) = advance_call(&p, "/w", state, CallEvent::Confirmed(false));
    assert_eq!(refused(action), "permission denied (user rejected): ls");
}
