use hrns::config::{HooksConfig, ToolsConfig};
use hrns::hooks::{
    advance_hook_call, after_tool_result, apply_discovery, before_tool_result, collect_scripts,
    discover_input, execute_tool_input, file_stem, hook_call_id, hook_dirs, hook_tool_definition,
    host_capability, is_executable, mutate_request_input, permission_key, read_response,
    retries_spawn, run_discover, sort_scripts, spawn_error, start_hook_call, system_fragments,
    write_outcome, AfterToolResult, BeforeToolResult, DiscoverResponse, DiscoveredPermission,
    DiscoveredTool, HookCallAction, HookCallEvent, HookManager, HookScript, HookToolDef, Response,
    ScriptEntry,
};
use hrns::json::{no_fields, parse_json, Json};
use hrns::merge::merge_output;
use hrns::permission::{Permission, PermissionLevel, PermissionsConfig, ToolError};
use hrns::resolve::Anchor;
use hrns::schema::build_parameters_schema;
use hrns::table::Table;
use std::cell::RefCell;

fn json(s: &str) -> Json {
    parse_json(s).unwrap()
}

fn fields(s: &str) -> Table<Json> {
    match json(s) {
        Json::Object(t) => t,
        _ => panic!("no object"),
    }
}

fn script(name: &str) -> HookScript<String> {
    HookScript {
        name: name.to_string(),
        file_name: format!("{}.sh", name),
        path: format!("/hooks/{}.sh", name),
        test: None,
        tools: Vec::new(),
    }
}

fn manager_with(name: &str) -> HookManager<String> {
    HookManager { scripts: vec![script(name)] }
}

/// a script that answers every stage with the same lines.
fn answering(jsonl: &str) -> Response {
    Ok(merge_output(jsonl).0)
}

fn permissions(list: &[(&str, PermissionLevel)]) -> PermissionsConfig {
    let mut tools = Table::new();
    for (k, v) in list {
        tools.insert(k.to_string(), Permission::Level(*v));
    }
    PermissionsConfig { tools }
}

fn ping() -> HookToolDef {
    HookToolDef {
        full_name: "demo_ping".to_string(),
        short_name: "ping".to_string(),
        description: "ping the demo".to_string(),
        parameters_schema: build_parameters_schema(&fields(r#"{"msg": "the message"}"#)),
        permission_args: vec!["msg".to_string()],
    }
}

fn refused(action: HookCallAction) -> String {
    match action {
        HookCallAction::Finish(Err(ToolError::ToolCallError(m))) => m,
        other => panic!("not refused: {:?}", other),
    }
}

#[test]
fn host_capability_advertises_canonical_stages() {
    // protocol contract: host advertises the canonical stage names.
    // legacy/predecessor names (`tool_before`, `tool_after`, `idle`)
    // must not appear.
    let host = host_capability();
    assert_eq!(host.get("name"), Some(&json("\"hrns\"")));
    assert_eq!(host.get("version"), Some(&json("3")));
    let stages = host.get("stages").unwrap().as_array().expect("stages is array");
    let names: Vec<&str> =
        stages.iter().filter_map(|v| v.as_str().map(|s| s.as_str())).collect();
    for required in [
        "discover",
        "mutate_request",
        "before_tool",
        "after_tool",
        "execute_tool",
        "before_stop",
    ] {
        assert!(names.contains(&required), "missing stage {}", required);
    }
    for forbidden in ["tool_before", "tool_after", "idle"] {
        assert!(
            !names.contains(&forbidden),
            "predecessor stage {} leaked into host stages",
            forbidden
        );
    }
}

#[test]
fn before_stop_payload_includes_exit_reason_and_final() {
    let seen = RefCell::new(Vec::new());
    let invoke = |_: &HookScript<String>, stage: &str, input: &Json| -> Response {
        seen.borrow_mut().push((stage.to_string(), input.copy()));
        answering("")
    };
    let errors = manager_with("stop").before_stop("/w", "stop", None, &invoke);
    assert!(errors.is_empty());
    let seen = seen.borrow();
    assert_eq!(seen.len(), 1);
    assert_eq!(seen[0].0, "before_stop");
    let payload = &seen[0].1;
    assert_eq!(payload.get("hook"), Some(&json("\"before_stop\"")));
    assert_eq!(payload.get("exit_reason"), Some(&json("\"stop\"")));
    assert_eq!(payload.get("final"), Some(&json("true")));
    assert!(payload.get("error").is_none());
    assert_eq!(payload.get("host").unwrap().get("version"), Some(&json("3")));
}

#[test]
fn before_stop_payload_carries_error_when_present() {
    let seen = RefCell::new(Vec::new());
    let invoke = |_: &HookScript<String>, _: &str, input: &Json| -> Response {
        seen.borrow_mut().push(input.copy());
        Err("exit 1".to_string())
    };
    let errors =
        manager_with("err").before_stop("/w", "error", Some("network broke"), &invoke);
    let seen = seen.borrow();
    assert_eq!(seen[0].get("exit_reason"), Some(&json("\"error\"")));
    assert_eq!(seen[0].get("error"), Some(&json("\"network broke\"")));
    assert_eq!(errors, ["hook before_stop failed for err: exit 1"]);
}

#[test]
fn before_tool_parses_deny_response() {
    let invoke = |_: &HookScript<String>, _: &str, _: &Json| -> Response {
        answering(r#"{"deny": "policy says no"}"#)
    };
    let m = manager_with("deny");
    let r = m.before_tool("/w", "read", "c1", &json(r#"{"path": "/etc/passwd"}"#), &invoke);
    assert_eq!(r.deny.as_deref(), Some("policy says no"));
    assert!(r.result.is_none());
}

#[test]
fn before_tool_parses_synthetic_result_response() {
    let invoke = |_: &HookScript<String>, _: &str, _: &Json| -> Response {
        answering(r#"{"result": "cached value"}"#)
    };
    let m = manager_with("synth");
    let r = m.before_tool("/w", "read", "c1", &json(r#"{"path": "/x"}"#), &invoke);
    assert!(r.deny.is_none());
    assert_eq!(r.result.as_deref(), Some("cached value"));
}

#[test]
fn before_tool_may_rewrite_the_arguments() {
    let invoke = |_: &HookScript<String>, _: &str, _: &Json| -> Response {
        answering(r#"{"args": {"path": "/y"}}"#)
    };
    let m = manager_with("rewrite");
    let r = m.before_tool("/w", "read", "c1", &json(r#"{"path": "/x"}"#), &invoke);
    assert!(r.deny.is_none());
    assert!(r.result.is_none());
    assert_eq!(r.args, Some(json(r#"{"path": "/y"}"#)));
}

#[test]
fn after_tool_parses_result_replacement() {
    let invoke = |_: &HookScript<String>, _: &str, _: &Json| -> Response {
        answering(r#"{"result": "REWRITTEN"}"#)
    };
    let m = manager_with("rewrite");
    let r = m.after_tool("/w", "read", "c1", "original", &invoke);
    assert_eq!(r.result.as_deref(), Some("REWRITTEN"));
}

#[test]
fn before_tool_payload_contains_call_id_and_host() {
    // wire-contract: payload uses callID + host capability (v3) + canonical stage name.
    let seen = RefCell::new(Vec::new());
    let invoke = |_: &HookScript<String>, _: &str, input: &Json| -> Response {
        seen.borrow_mut().push(input.copy());
        answering("")
    };
    let m = manager_with("cap");
    m.before_tool("/w", "read", "abc-123", &json(r#"{"path": "/x"}"#), &invoke);
    let payload = &seen.borrow()[0];
    assert_eq!(payload.get("hook"), Some(&json("\"before_tool\"")));
    assert_eq!(payload.get("tool"), Some(&json("\"read\"")));
    assert_eq!(payload.get("callID"), Some(&json("\"abc-123\"")));
    assert_eq!(payload.get("args").unwrap().get("path"), Some(&json("\"/x\"")));
    assert_eq!(payload.get("host").unwrap().get("version"), Some(&json("3")));
    // v3: the base payload carries the workspace cwd.
    assert!(payload.get("cwd").unwrap().as_str().is_some_and(|s| !s.is_empty()));
}

#[test]
fn test_mutate_request_payload_includes_system_user_and_model() {
    // payload expansion: hook sees finalized system prompt, user prompt,
    // and model id.
    let seen = RefCell::new(Vec::new());
    let invoke = |_: &HookScript<String>, _: &str, input: &Json| -> Response {
        seen.borrow_mut().push(input.render());
        answering("")
    };
    manager_with("log").mutate_request("/w", "THE-SYS", "THE-USR", "openai/THE-MODEL", &vec![json("{\"name\":\"read\"}")], &invoke);
    let payload = &seen.borrow()[0];
    assert!(payload.contains("\"system\":\"THE-SYS\""));
    assert!(payload.contains("\"user\":\"THE-USR\""));
    assert!(payload.contains("\"model\":\"openai/THE-MODEL\""));
    assert!(payload.contains("\"tools\":[{\"name\":\"read\"}]"));
}

#[test]
fn test_host_capability_payload_present() {
    // every hook invocation includes a `host` block: {name, version, stages}.
    // stages enumerates the canonical stage names this host fires.
    let payload = mutate_request_input("/w", "x", "y", "openai/gpt-4o", &vec![]).render();
    assert!(payload.contains("\"host\":{"));
    assert!(payload.contains("\"name\":\"hrns\""));
    assert!(payload.contains("\"version\":3"));
    // v3: the base payload carries the workspace cwd
    assert!(payload.contains("\"cwd\":"));
    // canonical stage names are advertised
    assert!(payload.contains("\"before_tool\""));
    assert!(payload.contains("\"after_tool\""));
    assert!(payload.contains("\"before_stop\""));
    // predecessor stage names must not leak back in
    assert!(!payload.contains("\"tool_before\""));
    assert!(!payload.contains("\"tool_after\""));
    assert!(!payload.contains("\"idle\""));
}

#[test]
fn payloads_are_exact() {
    let host = host_capability().render();
    assert_eq!(
        discover_input("/w"),
        json(&format!(r#"{{"hook":"discover","host":{},"cwd":"/w"}}"#, host))
    );
    assert_eq!(
        execute_tool_input("/w", "ping", &json("[1]")),
        json(&format!(
            r#"{{"hook":"execute_tool","host":{},"cwd":"/w","tool":"ping","args":[1]}}"#,
            host
        ))
    );
    assert_eq!(
        mutate_request_input("/w", "s", "u", "m", &vec![json("1")]),
        json(&format!(
            r#"{{"hook":"mutate_request","host":{},"cwd":"/w","session":{{"id":"hrns"}},
                "system":"s","user":"u","history":[{{"role":"user","content":"u"}}],"model":"m","tools":[1]}}"#,
            host
        ))
    );
    let seen = RefCell::new(Vec::new());
    let invoke = |_: &HookScript<String>, _: &str, input: &Json| -> Response {
        seen.borrow_mut().push(input.copy());
        answering("")
    };
    manager_with("a").after_tool("/w", "bash", "c", "out", &invoke);
    assert_eq!(
        seen.borrow()[0],
        json(&format!(
            r#"{{"hook":"after_tool","host":{},"cwd":"/w","session":{{"id":"hrns"}},
                "tool":"bash","callID":"c","title":"bash","output":"out"}}"#,
            host
        ))
    );
}

#[test]
fn fragments_come_in_script_order_and_failures_are_noted() {
    let invoke = |s: &HookScript<String>, _: &str, _: &Json| -> Response {
        match s.name.as_str() {
            "a" => answering(r#"{"system":["one", 2, "two"]}"#),
            "b" => Err("exit status: 3".to_string()),
            _ => answering("{\"system\":\"three\"}"),
        }
    };
    let m = HookManager { scripts: vec![script("a"), script("b"), script("c")] };
    let (fragments, errors) = m.mutate_request("/w", "s", "u", "m", &vec![], &invoke);
    assert_eq!(fragments, ["one", "two", "three"]);
    assert_eq!(errors, ["hook mutate_request failed for b: exit status: 3"]);
}

#[test]
fn answers_of_several_scripts_are_merged() {
    let r = before_tool_result(&vec![
        answering(r#"{"result":"x","deny":"first"}"#),
        Err("gone".to_string()),
        answering(r#"{"result":"y","deny":"second"}"#),
    ]);
    assert_eq!(r.deny.as_deref(), Some("second"));
    assert_eq!(r.result.as_deref(), Some("x\ny"));
    assert_eq!(r.args, None);
    let r = before_tool_result(&vec![
        answering(r#"{"args":{"path":"/x"}}"#),
        answering(r#"{"args":{"path":"/y"}}"#),
        answering("{}"),
    ]);
    assert_eq!(r.args, Some(json(r#"{"path":"/y"}"#)));
    let r = before_tool_result(&vec![answering(r#"{"deny":1}"#)]);
    assert_eq!(r.deny, None);
    assert_eq!(after_tool_result(&vec![]).result, None);
    assert_eq!(after_tool_result(&vec![answering(r#"{"result":1}"#)]).result, Some("1".into()));
    assert!(system_fragments(&vec![answering("{}"), Err("e".to_string())]).is_empty());
}

#[test]
fn hooks_are_looked_for_along_the_way_up_and_at_home() {
    let dirs = hook_dirs(".shared", &[false, true, false], true);
    let shown: Vec<(Anchor, &str)> = dirs.iter().map(|p| (p.anchor, p.path.as_str())).collect();
    assert_eq!(
        shown,
        [
            (Anchor::Ancestor(0), ".opencode/hooks"),
            (Anchor::Ancestor(0), ".shared/hooks"),
            (Anchor::Ancestor(0), ".agents/hooks"),
            (Anchor::Ancestor(1), ".opencode/hooks"),
            (Anchor::Ancestor(1), ".shared/hooks"),
            (Anchor::Ancestor(1), ".agents/hooks"),
            (Anchor::Home, ".config/opencode/hooks"),
            (Anchor::Home, ".shared/hooks"),
            (Anchor::Home, ".agents/hooks"),
        ]
    );
}

fn entry(name: Option<&str>, is_file: bool, executable: bool, identity: usize) -> ScriptEntry<u32> {
    ScriptEntry {
        path: identity as u32,
        is_file,
        file_name: name.map(|s| s.to_string()),
        executable,
        identity,
    }
}

#[test]
fn test_non_executable_hook_skipped() {
    let found = collect_scripts(vec![entry(Some("not_exec.sh"), true, is_executable(0o644), 0)]);
    assert!(found.is_empty());
}

#[test]
fn scripts_are_collected_once_and_sorted_by_file_name() {
    let found = collect_scripts(vec![
        entry(Some("b.sh"), true, true, 0),
        entry(Some(".hidden"), true, true, 1),
        entry(Some("__pycache__"), true, true, 2),
        entry(None, true, true, 3),
        entry(Some("dir"), false, true, 4),
        entry(Some("link.sh"), true, true, 0),
        entry(Some("a.tar.sh"), true, true, 5),
        entry(Some("c"), true, true, 6),
    ]);
    let names: Vec<(&str, u32)> = found.iter().map(|s| (s.name.as_str(), s.path)).collect();
    assert_eq!(names, [("b", 0), ("a.tar", 5), ("c", 6)]);
    let sorted = sort_scripts(found);
    let files: Vec<&str> = sorted.iter().map(|s| s.file_name.as_str()).collect();
    assert_eq!(files, ["a.tar.sh", "b.sh", "c"]);
}

#[test]
fn sorting_keeps_the_order_of_equal_names() {
    let mut a = script("x");
    a.path = "1".to_string();
    let mut b = script("x");
    b.path = "2".to_string();
    let sorted = sort_scripts(vec![script("y"), a, b]);
    let paths: Vec<&str> = sorted.iter().map(|s| s.path.as_str()).collect();
    assert_eq!(paths, ["1", "2", "/hooks/y.sh"]);
}

#[test]
fn stems_are_those_of_std() {
    for name in ["a.sh", "a", "a.b.c", "a.", "x..y", "...", "..sh"] {
        let expected = std::path::Path::new(name).file_stem().unwrap().to_str().unwrap();
        assert_eq!(file_stem(name), expected, "{}", name);
    }
}

#[test]
fn any_execute_bit_will_do() {
    assert!(is_executable(0o100755));
    assert!(is_executable(0o001));
    assert!(is_executable(0o010));
    assert!(!is_executable(0o100644));
}

fn read_discovery(r: &Table<Json>) -> Result<DiscoverResponse, String> {
    let v = hrns::json::to_value(&Json::Object(hrns::json::copy_fields(r)));
    let text = |v: Option<&serde_json::Value>| v.and_then(|s| s.as_str()).map(|s| s.to_string());
    let empty = Vec::new();
    let tools = v.get("tools").and_then(|t| t.as_array()).unwrap_or(&empty);
    if tools.iter().any(|t| t.get("name").is_none()) {
        return Err("missing field `name`".to_string());
    }
    Ok(DiscoverResponse {
        name: text(v.get("name")),
        test: text(v.get("test")),
        tools: tools
            .iter()
            .map(|t| DiscoveredTool {
                name: text(t.get("name")).unwrap(),
                description: text(t.get("description")).unwrap_or_default(),
                parameters: match hrns::json::from_value(&t["parameters"]) {
                    Json::Object(p) => p,
                    _ => no_fields(),
                },
                permission: t.get("permission").map(|p| DiscoveredPermission {
                    arg: hrns::json::from_value(&p["arg"]),
                }),
            })
            .collect(),
    })
}

#[test]
fn test_list_hooks_discovers_scripts() {
    let invoke = |_: &HookScript<String>, stage: &str, _: &Json| -> Response {
        assert_eq!(stage, "discover");
        answering(r#"{"name":"demo","tools":[{"name":"ping","description":"ping the demo","parameters":{"msg":"the message"}}]}"#)
    };
    let (m, errors) = HookManager::discover(vec![script("file")], "/w", &invoke, &read_discovery);
    assert!(errors.is_empty());
    assert_eq!(m.scripts()[0].name, "demo");
    assert_eq!(m.scripts()[0].tools[0].full_name, "demo_ping");
    assert_eq!(m.scripts()[0].tools[0].short_name, "ping");
    assert_eq!(m.scripts()[0].tools[0].description, "ping the demo");
    assert_eq!(
        m.scripts()[0].tools[0].parameters_schema,
        json(
            r#"{"type":"object","required":["msg"],
            "properties":{"msg":{"type":"string","description":"the message"}}}"#
        )
    );
}

#[test]
fn discovery_keeps_scripts_that_fail() {
    let invoke = |s: &HookScript<String>, _: &str, _: &Json| -> Response {
        match s.name.as_str() {
            "a" => Err("exit 1".to_string()),
            "b" => answering(r#"{"tools":"none"}"#),
            _ => answering(r#"{"tools":[{"name":"t","permission":{"arg":["x",1,"y"]}}]}"#),
        }
    };
    let found = vec![script("c"), script("b"), script("a")];
    let (m, errors) = HookManager::discover(found, "/w", &invoke, &read_discovery);
    let names: Vec<&str> = m.scripts().iter().map(|s| s.name.as_str()).collect();
    assert_eq!(names, ["a", "b", "c"]);
    assert_eq!(errors.len(), 2);
    assert_eq!(errors[0], (0, "exit 1".to_string()));
    assert_eq!(
        errors[1],
        (1, "invalid discover response: missing field `name`".to_string())
    );
    assert!(m.scripts()[0].tools.is_empty());
    assert_eq!(m.scripts()[2].tools[0].full_name, "c_t");
    assert_eq!(m.scripts()[2].tools[0].permission_args, ["x", "y"]);
}

#[test]
fn discovery_fills_a_script() {
    let mut s = script("file");
    apply_discovery(
        &mut s,
        DiscoverResponse {
            name: None,
            test: Some("make".to_string()),
            tools: vec![DiscoveredTool {
                name: "go".to_string(),
                description: String::new(),
                parameters: no_fields(),
                permission: Some(DiscoveredPermission { arg: Json::text("path") }),
            }],
        },
    );
    assert_eq!(s.name, "file");
    assert_eq!(s.test.as_deref(), Some("make"));
    assert_eq!(s.tools[0].full_name, "file_go");
    assert_eq!(s.tools[0].permission_args, ["path"]);
    let mut s = script("file");
    let invoke = |_: &HookScript<String>, _: &str, _: &Json| -> Response { Err("e".to_string()) };
    assert_eq!(run_discover(&mut s, "/w", &invoke, &read_discovery), Err("e".to_string()));
    assert_eq!(s.name, "file");
}

#[test]
fn test_hooks_gate_blocks_discovery() {
    let mut datetime = script("datetime");
    datetime.tools.push(HookToolDef { full_name: "datetime_now".to_string(), ..ping() });
    let m = HookManager { scripts: vec![script("a"), datetime, script("z")] };
    let mut gates = Table::new();
    gates.insert("*".to_string(), true);
    let tools = ToolsConfig { tools: gates };
    let mut gates = Table::new();
    gates.insert("*".to_string(), true);
    let open = HooksConfig { hooks: gates };
    let offered = m.clone().retain(|name: &str| open.is_active(name, &None));
    assert_eq!(offered.extra_tools(&tools, &None), [(1, 0)]);
    let mut gates = Table::new();
    gates.insert("*".to_string(), true);
    gates.insert("datetime".to_string(), false);
    let hooks = HooksConfig { hooks: gates };
    let m = m.retain(|name: &str| hooks.is_active(name, &None));
    let names: Vec<&str> = m.scripts().iter().map(|s| s.name.as_str()).collect();
    assert_eq!(names, ["a", "z"]);
    assert!(m.extra_tools(&tools, &None).is_empty());
}

#[test]
fn shut_hook_tools_are_not_offered() {
    let mut a = script("a");
    a.tools.push(ping());
    let mut b = script("b");
    b.tools.push(HookToolDef { full_name: "b_x".to_string(), ..ping() });
    b.tools.push(HookToolDef { full_name: "b_y".to_string(), ..ping() });
    let m = HookManager { scripts: vec![a, b] };
    let mut gates = Table::new();
    gates.insert("*".to_string(), true);
    gates.insert("b_x".to_string(), false);
    let tools = ToolsConfig { tools: gates };
    assert_eq!(m.extra_tools(&tools, &None), [(0, 0), (1, 1)]);
    assert_eq!(m.extra_tools(&tools, &Some(vec!["b_x".to_string()])), [(1, 0)]);
}

#[test]
fn spawning_is_retried_while_the_file_is_busy() {
    assert!(retries_spawn(Some(26), 0));
    assert!(retries_spawn(Some(26), 19));
    assert!(!retries_spawn(Some(26), 20));
    assert!(!retries_spawn(Some(2), 0));
    assert!(!retries_spawn(None, 0));
    assert_eq!(spawn_error("/h/a.sh", "no such file"), "spawn /h/a.sh: no such file");
}

#[test]
fn a_broken_pipe_is_no_failure() {
    assert_eq!(write_outcome(true, Some("broken pipe")), Ok(()));
    assert_eq!(write_outcome(false, None), Ok(()));
    assert_eq!(write_outcome(false, Some("disk full")), Err("write stdin: disk full".to_string()));
}

#[test]
fn the_exit_status_decides() {
    let r = read_response(true, "exit status: 0", "{\"a\":1}\n").unwrap();
    assert_eq!(Json::Object(r.0), json("{\"a\":1}"));
    assert_eq!(
        read_response(false, "exit status: 1", "{\"a\":1}").unwrap_err(),
        "exit exit status: 1"
    );
}

#[test]
fn the_permission_key_is_made_of_the_arguments() {
    let mut t = ping();
    assert_eq!(permission_key(&t, &json(r#"{"msg":"hi"}"#)), "hi");
    t.permission_args = vec!["a".to_string(), "b".to_string(), "c".to_string()];
    assert_eq!(permission_key(&t, &json(r#"{"a":"x","c":[1]}"#)), "x  [1]");
    t.permission_args = Vec::new();
    assert_eq!(permission_key(&t, &json(r#"{"msg":"hi"}"#)), "*");
}

#[test]
fn a_hook_call_runs_to_its_result() {
    let p = permissions(&[("demo_*", PermissionLevel::Allow)]);
    let t = ping();
    let (s, a) = start_hook_call(&p, &t, r#"{"msg":"hi"}"#);
    assert!(matches!(&a, HookCallAction::Intercept(j) if *j == json(r#"{"msg":"hi"}"#)));
    let (s, a) = advance_hook_call(
        &p,
        &t,
        "/w",
        s,
        HookCallEvent::Intercepted(BeforeToolResult { deny: None, result: None, args: None }),
    );
    let input = execute_tool_input("/w", "ping", &json(r#"{"msg":"hi"}"#));
    assert!(matches!(&a, HookCallAction::Execute(j) if *j == input));
    let (s, a) =
        advance_hook_call(&p, &t, "/w", s, HookCallEvent::Executed(answering(r#"{"result":"pong"}"#)));
    assert!(matches!(&a, HookCallAction::Observe(o) if o == "pong"));
    let (_, a) =
        advance_hook_call(&p, &t, "/w", s, HookCallEvent::Observed(AfterToolResult { result: None }));
    assert!(matches!(&a, HookCallAction::Finish(Ok(o)) if o == "pong"));
}

#[test]
fn a_hook_call_may_be_refused_on_the_way() {
    let t = ping();
    let p = permissions(&[("*", PermissionLevel::Ask)]);
    let (_, a) = start_hook_call(&p, &t, "{");
    assert!(matches!(a, HookCallAction::Finish(Err(ToolError::JsonError(_)))));
    let (_, a) = start_hook_call(&p, &t, "{}");
    assert_eq!(refused(a), "missing required parameter 'msg'");
    let deny = permissions(&[("*", PermissionLevel::Deny)]);
    let (_, a) = start_hook_call(&deny, &t, r#"{"msg":"hi"}"#);
    assert_eq!(refused(a), "permission denied: hi");
    let (s, a) = start_hook_call(&p, &t, r#"{"msg":"hi"}"#);
    assert!(matches!(&a, HookCallAction::Confirm { input } if input == "hi"));
    let (_, a) = advance_hook_call(&p, &t, "/w", s, HookCallEvent::Confirmed(false));
    assert_eq!(refused(a), "permission denied (user rejected): hi");
    let (s, _) = start_hook_call(&p, &t, r#"{"msg":"hi"}"#);
    let (s, a) = advance_hook_call(&p, &t, "/w", s, HookCallEvent::Confirmed(true));
    assert!(matches!(a, HookCallAction::Intercept(_)));
    let deny = BeforeToolResult { deny: Some("no".to_string()), result: Some("r".to_string()), args: None };
    let (_, a) = advance_hook_call(&p, &t, "/w", s, HookCallEvent::Intercepted(deny));
    assert_eq!(refused(a), "denied by hook: no");
}

#[test]
fn hook_results_are_substituted_replaced_or_missing() {
    let t = ping();
    let p = permissions(&[("*", PermissionLevel::Allow)]);
    let (s, _) = start_hook_call(&p, &t, r#"{"msg":"hi"}"#);
    let synth = BeforeToolResult { deny: None, result: Some("made up".to_string()), args: None };
    let (s, a) = advance_hook_call(&p, &t, "/w", s, HookCallEvent::Intercepted(synth));
    assert!(matches!(&a, HookCallAction::Observe(o) if o == "made up"));
    let after = AfterToolResult { result: Some("changed".to_string()) };
    let (_, a) = advance_hook_call(&p, &t, "/w", s, HookCallEvent::Observed(after));
    assert!(matches!(&a, HookCallAction::Finish(Ok(o)) if o == "changed"));
    let none = BeforeToolResult { deny: None, result: None, args: None };
    let (s, _) = start_hook_call(&p, &t, r#"{"msg":"hi"}"#);
    let (s, _) = advance_hook_call(&p, &t, "/w", s, HookCallEvent::Intercepted(none));
    let (_, a) = advance_hook_call(&p, &t, "/w", s, HookCallEvent::Executed(answering("{}")));
    assert!(matches!(&a, HookCallAction::Observe(o) if o.is_empty()));
    let none = BeforeToolResult { deny: None, result: None, args: None };
    let (s, _) = start_hook_call(&p, &t, r#"{"msg":"hi"}"#);
    let (s, _) = advance_hook_call(&p, &t, "/w", s, HookCallEvent::Intercepted(none));
    let (_, a) = advance_hook_call(&p, &t, "/w", s, HookCallEvent::Executed(Err("exit 2".to_string())));
    assert_eq!(refused(a), "exit 2");
}

fn rewriting(args: &str, result: Option<&str>) -> HookCallEvent {
    HookCallEvent::Intercepted(BeforeToolResult {
        deny: None,
        result: result.map(|s| s.to_string()),
        args: Some(json(args)),
    })
}

#[test]
fn rewritten_hook_arguments_are_judged() {
    let t = ping();
    let mut map = Table::new();
    map.insert("hi".to_string(), PermissionLevel::Allow);
    map.insert("ho".to_string(), PermissionLevel::Ask);
    map.insert("hey".to_string(), PermissionLevel::Allow);
    let mut tools = Table::new();
    tools.insert("demo_ping".to_string(), Permission::Patterns(map));
    let p = PermissionsConfig { tools };
    let start = || start_hook_call(&p, &t, r#"{"msg":"hi"}"#).0;
    let (_, a) = advance_hook_call(&p, &t, "/w", start(), rewriting(r#"{"msg":"hey"}"#, None));
    let input = execute_tool_input("/w", "ping", &json(r#"{"msg":"hey"}"#));
    assert!(matches!(&a, HookCallAction::Execute(j) if *j == input));
    let (_, a) = advance_hook_call(&p, &t, "/w", start(), rewriting(r#"{"msg":"no"}"#, None));
    assert_eq!(refused(a), "permission denied: no");
    let (_, a) = advance_hook_call(&p, &t, "/w", start(), rewriting(r#"{"msg":1}"#, None));
    assert_eq!(
        refused(a),
        "rewritten tool args invalid: parameter 'msg' expected string, got number"
    );
    let (s, a) = advance_hook_call(&p, &t, "/w", start(), rewriting(r#"{"msg":"ho"}"#, None));
    assert!(matches!(&a, HookCallAction::Confirm { input } if input == "ho"));
    let (_, a) = advance_hook_call(&p, &t, "/w", s, HookCallEvent::Confirmed(false));
    assert_eq!(refused(a), "permission denied (user rejected): ho");
    let again = rewriting(r#"{"msg":"ho"}"#, Some("made up"));
    let (s, _) = advance_hook_call(&p, &t, "/w", start(), again);
    let (_, a) = advance_hook_call(&p, &t, "/w", s, HookCallEvent::Confirmed(true));
    assert!(matches!(&a, HookCallAction::Observe(o) if o == "made up"));
    let (s, _) = advance_hook_call(&p, &t, "/w", start(), rewriting(r#"{"msg":"ho"}"#, None));
    let (_, a) = advance_hook_call(&p, &t, "/w", s, HookCallEvent::Confirmed(true));
    let input = execute_tool_input("/w", "ping", &json(r#"{"msg":"ho"}"#));
    assert!(matches!(&a, HookCallAction::Execute(j) if *j == input));
}

#[test]
fn scripts_and_managers_can_be_cloned() {
    let mut s = script("a");
    s.tools.push(ping());
    let m = HookManager { scripts: vec![s, script("b")] };
    let c = m.clone();
    assert_eq!(format!("{:?}", m), format!("{:?}", c));
    assert!(HookManager::<String>::default().scripts().is_empty());
}

#[test]
fn hook_tools_are_defined_by_their_registration() {
    let d = hook_tool_definition(&ping());
    assert_eq!(d.name, "demo_ping");
    assert_eq!(d.description, "ping the demo");
    assert_eq!(d.parameters, ping().parameters_schema);
    assert_eq!(hook_call_id("demo_ping", 42), "demo_ping-42");
}
