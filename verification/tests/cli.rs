use hrns::agent::Report;
use hrns::cli::{
    agent_row, auto_accept_note, build_request, choose_max_tokens, choose_max_turns, choose_mode,
    choose_model, choose_output_limit, config_dir, confirmation_question, dry_run_report, dry_run_tools,
    finish_system_prompt, format_hook, format_permission, format_table, get_user_prompt, hook_row,
    is_agreement, needs_stdin, no_terminal_note, permission_overrides, permission_rows, plan_init,
    provider_rows, request_tools, resolve_system_prompt, settle_permissions, shorten_path,
    skill_row, spool_dir, spool_file, status_str, text_within, tool_def_as_function, tools_table,
    DryRun, Flags, Mode, Output, Renderer, Stream,
};
use hrns::config::{Config, HooksConfig, ProviderConfig, SkillsConfig, ToolsConfig};
use hrns::hooks::{HookScript, HookToolDef};
use hrns::json::{parse_json, Json};
use hrns::permission::{Permission, PermissionLevel, PermissionsConfig};
use hrns::resolve::{AgentFrontmatter, ParsedDoc, SkillFrontmatter, SkillResult};
use hrns::table::Table;
use hrns::tools::read_tool_definition;

fn list(items: &[&str]) -> Vec<String> {
    items.iter().map(|s| s.to_string()).collect()
}

fn owned(s: &str) -> Option<String> {
    Some(s.to_string())
}

fn gates(items: &[(&str, bool)]) -> Table<bool> {
    let mut t = Table::new();
    for (k, v) in items {
        t.insert(k.to_string(), *v);
    }
    t
}

fn tools(items: &[(&str, bool)]) -> ToolsConfig {
    ToolsConfig { tools: gates(items) }
}

fn hooks(items: &[(&str, bool)]) -> HooksConfig {
    HooksConfig { hooks: gates(items) }
}

fn skills(items: &[(&str, bool)]) -> SkillsConfig {
    SkillsConfig { skills: gates(items) }
}

fn json(s: &str) -> Json {
    parse_json(s).unwrap()
}

fn tool(full_name: &str) -> HookToolDef {
    HookToolDef {
        full_name: full_name.to_string(),
        short_name: "short".to_string(),
        description: "current time".to_string(),
        parameters_schema: json("{\"type\":\"object\"}"),
        permission_args: Vec::new(),
    }
}

fn datetime() -> HookScript<()> {
    HookScript {
        name: "datetime".to_string(),
        file_name: "datetime.sh".to_string(),
        path: (),
        test: None,
        tools: vec![tool("datetime_now"), tool("datetime_zone")],
    }
}

fn no_skill(_: &str) -> SkillResult {
    Err("none".to_string())
}

fn some_skill(_: &str) -> SkillResult {
    Ok(ParsedDoc {
        frontmatter: SkillFrontmatter { description: None },
        body: "skill body".to_string(),
    })
}

fn agent(body: &str) -> ParsedDoc<AgentFrontmatter> {
    ParsedDoc { frontmatter: AgentFrontmatter::default(), body: body.to_string() }
}

// --- tables ---

#[test]
fn tables_are_padded() {
    let header = list(&["name", "description"]);
    let rows = vec![list(&["a", "first"]), list(&["longer", "x"]), list(&["lone"])];
    assert_eq!(
        format_table(Some(&header), &rows),
        [
            "name    description",
            "------  -----------",
            "a       first",
            "longer  x",
            "lone",
        ]
    );
    assert!(format_table(None, &vec![]).is_empty());
    assert_eq!(format_table(Some(&list(&["h"])), &vec![]), ["h", "-"]);
    assert_eq!(format_table(None, &vec![list(&["a", "b"])]), ["a  b"]);
    // widths count bytes, padding counts characters
    assert_eq!(
        format_table(None, &vec![list(&["\u{e9}", "1"]), list(&["a", "2"])]),
        ["\u{e9}   1", "a   2"]
    );
}

#[test]
fn test_list_output_uses_aligned_columns() {
    let rows = tools_table(&Vec::<HookScript<()>>::new(), &tools(&[]), &None, &hooks(&[]), &None);
    let out = format_table(Some(&list(&["name", "description", "enabled"])), &rows).join("\n");
    assert!(!out.contains('\t'), "output should use spaces, not tabs: {}", out);
    assert!(out.contains("  "), "output should have padded columns: {}", out);
}

#[test]
fn permissions_are_listed_most_specific_first() {
    let mut map = Table::new();
    for (k, v) in [
        ("*", PermissionLevel::Deny),
        ("ls", PermissionLevel::Allow),
        ("apt update", PermissionLevel::Ask),
        ("a?c*", PermissionLevel::Deny),
        ("pwd", PermissionLevel::Allow),
        ("cat", PermissionLevel::Allow),
    ] {
        map.insert(k.to_string(), v);
    }
    let mut t = Table::new();
    t.insert("read".to_string(), Permission::Level(PermissionLevel::Ask));
    t.insert("bash".to_string(), Permission::Patterns(map));
    assert_eq!(
        permission_rows(&PermissionsConfig { tools: t }),
        [
            list(&["bash", "apt update", "ask"]),
            list(&["", "cat", "allow"]),
            list(&["", "pwd", "allow"]),
            list(&["", "ls", "allow"]),
            list(&["", "*", "deny"]),
            list(&["", "a?c*", "deny"]),
            list(&["read", "", "ask"]),
        ]
    );
}

#[test]
fn tools_are_listed_with_their_status() {
    let rows = tools_table(
        &vec![datetime()],
        &tools(&[("*", true), ("datetime_zone", false), ("bash", false)]),
        &None,
        &hooks(&[("datetime", true)]),
        &None,
    );
    assert_eq!(
        rows,
        [
            list(&["read", "read the contents of a file", "true"]),
            list(&["bash", "execute a bash command", "false"]),
            list(&["datetime_now", "current time", "true"]),
            list(&["datetime_zone", "current time", "false"]),
        ]
    );
    let rows = tools_table(&vec![datetime()], &tools(&[("*", true)]), &None, &hooks(&[]), &None);
    assert_eq!(rows[2][2], "false");
    assert_eq!(status_str(true), "true");
    assert_eq!(status_str(false), "false");
}

#[test]
fn hooks_agents_skills_and_providers_have_rows() {
    assert_eq!(
        hook_row(&datetime(), "~/h.sh", &hooks(&[]), &Some(list(&["datetime"]))),
        list(&["datetime", "~/h.sh", "datetime_now,datetime_zone", "true"])
    );
    assert_eq!(agent_row("a", Some("d")), list(&["a", "d"]));
    assert_eq!(agent_row("a", None), list(&["a", ""]));
    assert_eq!(skill_row("s", None, &skills(&[("*", true)])), list(&["s", "", "true"]));
    assert_eq!(skill_row("s", Some("d"), &skills(&[])), list(&["s", "d", "false"]));
    let p = |name: &str, client: Option<&str>, url: Option<&str>| ProviderConfig {
        name: name.to_string(),
        client: client.map(|s| s.to_string()),
        api_key: None,
        base_url: url.map(|s| s.to_string()),
    };
    assert_eq!(
        provider_rows(&vec![p("local", Some("openai"), Some("http://l")), p("xai", None, None)]),
        [list(&["local", "openai", "http://l"]), list(&["xai", "xai", "-"])]
    );
}

#[test]
fn paths_are_shortened() {
    assert_eq!(shorten_path("/w/a", Some("a"), Some("x/a")), "a");
    assert_eq!(shorten_path("/h/x/a", None, Some("x/a")), "~/x/a");
    assert_eq!(shorten_path("/etc/a", None, None), "/etc/a");
}

#[test]
fn the_first_listed_pattern_that_applies_decides() {
    let mut map = Table::new();
    for (k, v) in [
        ("ls*", PermissionLevel::Deny),
        ("ls -*a*", PermissionLevel::Allow),
        ("ls -la", PermissionLevel::Ask),
        ("*", PermissionLevel::Allow),
    ] {
        map.insert(k.to_string(), v);
    }
    let mut t = Table::new();
    t.insert("bash".to_string(), Permission::Patterns(map));
    let p = PermissionsConfig { tools: t };
    let rows = permission_rows(&p);
    let patterns: Vec<&str> = rows.iter().map(|r| r[1].as_str()).collect();
    assert_eq!(patterns, ["ls -la", "ls*", "*", "ls -*a*"]);
    assert_eq!(p.check("bash", "ls -la", false), PermissionLevel::Ask);
    assert_eq!(p.check("bash", "ls -a", false), PermissionLevel::Deny);
    assert_eq!(p.check("bash", "pwd", false), PermissionLevel::Allow);
}

// --- prompts ---

#[test]
fn only_a_yes_agrees() {
    for s in ["y", "Y", "yes", "YES", " y \n"] {
        assert!(is_agreement(s), "{:?}", s);
    }
    for s in ["", "n", "Yes", "yEs", "yy", "y n"] {
        assert!(!is_agreement(s), "{:?}", s);
    }
    assert_eq!(confirmation_question("bash", "ls"), "allow bash \"ls\"? [y/N] ");
    assert_eq!(auto_accept_note("bash", "ls"), "auto-accepting: bash \"ls\"");
    assert_eq!(
        no_terminal_note("bash", "ls"),
        "cannot open /dev/tty for confirmation, denying: bash ls"
    );
}

#[test]
fn the_prompt_comes_from_flag_argument_or_stdin() {
    assert_eq!(get_user_prompt(&owned("a"), &owned("b"), Some("c")), Ok("a".to_string()));
    assert_eq!(get_user_prompt(&None, &owned("b"), Some("c")), Ok("b".to_string()));
    assert_eq!(get_user_prompt(&None, &None, Some("c\n")), Ok("c\n".to_string()));
    assert_eq!(get_user_prompt(&owned(""), &owned("b"), Some("c")), Ok("c".to_string()));
    assert!(needs_stdin(&owned(""), &owned("b")));
    assert!(needs_stdin(&None, &None));
    assert!(!needs_stdin(&None, &owned("b")));
}

#[test]
fn test_empty_prompt_shows_usage() {
    let e = "one of --prompt or stdin must be non-empty".to_string();
    assert_eq!(get_user_prompt(&None, &None, Some("")), Err(e.clone()));
    assert_eq!(get_user_prompt(&None, &None, None), Err(e.clone()));
    assert_eq!(get_user_prompt(&owned(" \n"), &None, Some("x")), Err(e));
}

#[test]
fn test_system_prompt_flag() {
    let (p, w) = resolve_system_prompt(
        None,
        &owned("you are a pirate"),
        &None,
        &owned("default"),
        &skills(&[]),
        no_skill,
    );
    assert_eq!(p, "you are a pirate");
    assert!(w.is_empty());
}

#[test]
fn test_system_prompt_overrides_agent() {
    let a = agent("original system prompt\n");
    let (p, _) = resolve_system_prompt(
        Some(&a),
        &owned("override prompt"),
        &Some(list(&["s"])),
        &None,
        &skills(&[("*", true)]),
        some_skill,
    );
    assert_eq!(p, "override prompt");
}

#[test]
fn system_prompts_are_composed() {
    let on = skills(&[("*", true)]);
    let mut a = agent("body");
    a.frontmatter.skills = Some(list(&["own"]));
    let (p, _) = resolve_system_prompt(Some(&a), &None, &None, &None, &on, some_skill);
    assert_eq!(p, "body\n\n# skills\n\n## own\nskill body\n");
    let (p, _) =
        resolve_system_prompt(Some(&a), &None, &Some(list(&["other"])), &None, &on, some_skill);
    assert_eq!(p, "body\n\n# skills\n\n## other\nskill body\n");
    let (p, _) = resolve_system_prompt(
        None,
        &owned("flag"),
        &Some(list(&["s"])),
        &owned("default"),
        &on,
        some_skill,
    );
    assert_eq!(p, "flag");
    let (p, _) = resolve_system_prompt(
        None,
        &None,
        &Some(list(&["s"])),
        &owned("default"),
        &on,
        some_skill,
    );
    assert_eq!(p, "\n\n# skills\n\n## s\nskill body\n");
    let (p, _) = resolve_system_prompt(None, &None, &None, &owned("default"), &on, no_skill);
    assert_eq!(p, "default");
    let (p, w) = resolve_system_prompt(
        None,
        &None,
        &Some(list(&["off"])),
        &owned("default"),
        &skills(&[]),
        no_skill,
    );
    assert_eq!(p, "default");
    assert_eq!(w, ["warning: skill 'off' disabled by config"]);
}

#[test]
fn test_mutate_request_appends_to_system_prompt() {
    assert_eq!(
        finish_system_prompt("base prompt", &list(&["INJECTED-BY-HOOK"])),
        "base prompt\n\nINJECTED-BY-HOOK"
    );
    assert_eq!(finish_system_prompt("", &list(&["a", "", "b"])), "a\n\n\n\nb");
    assert_eq!(finish_system_prompt("\n body \n\n", &list(&[])), "body");
}

#[test]
fn the_model_and_the_limits_are_chosen() {
    assert_eq!(choose_model(&owned("f"), &owned("a"), &owned("c")), "f");
    assert_eq!(choose_model(&None, &owned("a"), &owned("c")), "a");
    assert_eq!(choose_model(&None, &None, &owned("c")), "c");
    assert_eq!(choose_model(&None, &None, &None), "openai/gpt-4o");
    let mut c = Config::default();
    assert_eq!(choose_max_tokens(None, &c), 16384);
    assert_eq!(choose_max_turns(&c), 32);
    assert_eq!(choose_output_limit(&c), 2000);
    c.default_max_tokens = Some(5);
    c.default_max_turns = Some(6);
    c.tool_output_truncate = Some(0);
    assert_eq!(choose_max_tokens(None, &c), 5);
    assert_eq!(choose_max_tokens(Some(4), &c), 4);
    assert_eq!(choose_max_turns(&c), 6);
    assert_eq!(choose_output_limit(&c), 0);
}

#[test]
fn within_one_invocation_deny_wins() {
    let target = |t: &str, p: Option<&str>| (t.to_string(), p.map(|s| s.to_string()));
    let o = permission_overrides(
        &vec![target("bash", None), target("read", Some("/etc/*"))],
        &vec![target("read", None)],
        &vec![target("bash", None)],
    );
    let shown: Vec<(&str, Option<&str>, PermissionLevel)> =
        o.iter().map(|o| (o.tool.as_str(), o.pattern.as_deref(), o.level)).collect();
    assert_eq!(
        shown,
        [
            ("bash", None, PermissionLevel::Allow),
            ("read", Some("/etc/*"), PermissionLevel::Allow),
            ("read", None, PermissionLevel::Ask),
            ("bash", None, PermissionLevel::Deny),
        ]
    );
    let p = PermissionsConfig { tools: Table::new() }.apply_overrides(&o);
    assert_eq!(p.check("bash", "ls", false), PermissionLevel::Deny);
}

#[test]
fn the_agent_and_the_flags_override_the_configuration() {
    let target = |t: &str, p: Option<&str>| (t.to_string(), p.map(|s| s.to_string()));
    let level = |list: &[(&str, PermissionLevel)]| {
        let mut t = Table::new();
        for (k, l) in list {
            t.insert(k.to_string(), Permission::Level(*l));
        }
        PermissionsConfig { tools: t }
    };
    let p = settle_permissions(
        level(&[("read", PermissionLevel::Allow), ("bash", PermissionLevel::Allow)]),
        level(&[("bash", PermissionLevel::Ask)]),
        &vec![target("bash", Some("ls")), target("bash", Some("rm"))],
        &vec![target("bash", Some("pwd"))],
        &vec![target("bash", Some("rm"))],
    );
    assert_eq!(p.check("read", "/x", true), PermissionLevel::Allow);
    assert_eq!(p.check("bash", "cat x", false), PermissionLevel::Ask);
    assert_eq!(p.check("bash", "ls", false), PermissionLevel::Allow);
    assert_eq!(p.check("bash", "pwd", false), PermissionLevel::Ask);
    assert_eq!(p.check("bash", "rm", false), PermissionLevel::Deny);
}

#[test]
fn the_first_mode_in_precedence_is_chosen() {
    let mut f = Flags {
        init: true,
        list_agents: true,
        list_skills: true,
        list_tools: true,
        list_hooks: true,
        list_providers: true,
        list_permissions: true,
        dry_run: true,
        dump_request: true,
    };
    assert_eq!(choose_mode(&f), Mode::Init);
    f.init = false;
    assert_eq!(choose_mode(&f), Mode::ListAgents);
    f.list_agents = false;
    assert_eq!(choose_mode(&f), Mode::ListSkills);
    f.list_skills = false;
    assert_eq!(choose_mode(&f), Mode::ListTools);
    f.list_tools = false;
    assert_eq!(choose_mode(&f), Mode::ListHooks);
    f.list_hooks = false;
    assert_eq!(choose_mode(&f), Mode::ListProviders);
    f.list_providers = false;
    assert_eq!(choose_mode(&f), Mode::ListPermissions);
    f.list_permissions = false;
    assert_eq!(choose_mode(&f), Mode::DryRun);
    f.dry_run = false;
    assert_eq!(choose_mode(&f), Mode::DumpRequest);
    f.dump_request = false;
    assert_eq!(choose_mode(&f), Mode::Run);
}

// --- rendering ---

fn shown(out: &[Output]) -> Vec<(Stream, &str)> {
    out.iter().map(|o| (o.stream, o.text.as_str())).collect()
}

#[test]
fn text_goes_to_stdout_and_the_rest_to_stderr() {
    let mut r = Renderer::new(false, 2000);
    let out = r.render(&Report::Reasoning("hm".to_string()), None);
    assert_eq!(shown(&out), [(Stream::Stderr, "\u{1b}[2;3mhm\u{1b}[0m")]);
    let out = r.render(&Report::Text("hello".to_string()), None);
    assert_eq!(shown(&out), [(Stream::Stderr, "\n"), (Stream::Stdout, "hello")]);
    let call = Report::ToolCall { name: "read".to_string(), args: "{}".to_string() };
    assert_eq!(
        shown(&r.render(&call, None)),
        [(Stream::Stderr, "\u{1b}[1;36mread\u{1b}[0m\u{1b}[2m({})\u{1b}[0m\n")]
    );
    assert_eq!(
        shown(&r.render(&Report::ToolResult("a\nb".to_string()), None)),
        [(Stream::Stderr, "\u{1b}[2m  -> a\\nb\u{1b}[0m\n")]
    );
    assert_eq!(
        shown(&r.render(&Report::Error("broke".to_string()), None)),
        [(Stream::Stderr, "stream error: broke\n")]
    );
    r.render(&Report::Reasoning("x".to_string()), None);
    assert_eq!(shown(&r.render(&Report::EndStream, None)), [(Stream::Stderr, "\n")]);
    assert!(r.render(&Report::Restart, None).is_empty());
}

#[test]
fn a_quiet_run_shows_text_and_errors_alone() {
    let mut r = Renderer::new(true, 2000);
    assert!(r.render(&Report::Reasoning("hm".to_string()), None).is_empty());
    assert!(r.render(&Report::ToolResult("x".to_string()), None).is_empty());
    let call = Report::ToolCall { name: "read".to_string(), args: "{}".to_string() };
    assert!(r.render(&call, None).is_empty());
    assert_eq!(
        shown(&r.render(&Report::Text("t".to_string()), None)),
        [(Stream::Stdout, "t")]
    );
    assert_eq!(
        shown(&r.render(&Report::Error("e".to_string()), None)),
        [(Stream::Stderr, "stream error: e\n")]
    );
    assert!(!r.spools("long enough to be cut"));
}

#[test]
fn long_results_are_cut_at_a_character() {
    assert_eq!(text_within("a\u{e9}b", 2), "a");
    assert_eq!(text_within("a\u{e9}b", 3), "a\u{e9}");
    assert_eq!(text_within("ab", 9), "ab");
    let mut r = Renderer::new(false, 2);
    assert!(r.spools("abc"));
    assert!(!r.spools("ab"));
    assert_eq!(
        shown(&r.render(&Report::ToolResult("a\u{e9}b".to_string()), Some("/c/0.txt"))),
        [
            (Stream::Stderr, "\u{1b}[2m  -> a\u{1b}[0m\n"),
            (
                Stream::Stderr,
                "\u{1b}[33m  ! truncated tool output: 1 of 4 bytes shown. full content at \
                 /c/0.txt (read with: cat /c/0.txt)\u{1b}[0m\n"
            ),
        ]
    );
    assert_eq!(
        shown(&r.render(&Report::ToolResult("abc".to_string()), None))[1],
        (
            Stream::Stderr,
            "\u{1b}[33m  ! truncated tool output: 2 of 3 bytes shown \
             (failed to spool full content)\u{1b}[0m\n"
        )
    );
    let r = Renderer::new(false, 0);
    assert!(!r.spools("abc"));
}

#[test]
fn spooled_output_has_a_place() {
    assert_eq!(spool_dir(Some("/x"), Some("/h"), 7), "/x/hrns/7");
    assert_eq!(spool_dir(None, Some("/h"), 7), "/h/.cache/hrns/7");
    assert_eq!(spool_dir(None, None, 7), "/tmp/hrns/7");
    assert_eq!(spool_file(3), "3.txt");
}

// --- requests ---

#[test]
fn test_tools_glob_filters_hook_tool_from_dump_request() {
    // [tools] "*" = true with "datetime_*" = false should hide the
    // hook-registered `datetime_now` tool from --dump-request.
    let t = tools(&[("*", true), ("datetime_*", false)]);
    let request = build_request("m", 1, "x", "y", request_tools(&vec![datetime()], &t, &None));
    let out = request.render_pretty().unwrap();
    assert!(out.contains("\"name\": \"read\""));
    assert!(out.contains("\"name\": \"bash\""));
    assert!(!out.contains("datetime_now"));
}

#[test]
fn test_tools_glob_allows_hook_tool_when_pattern_enables_it() {
    // sanity: with "*" = true and no override, the hook tool is exposed.
    let t = tools(&[("*", true)]);
    let request = build_request("m", 1, "x", "y", request_tools(&vec![datetime()], &t, &None));
    assert!(request.render_pretty().unwrap().contains("datetime_now"));
}

#[test]
fn requests_are_exact() {
    assert_eq!(
        build_request("m", 5, "", "hi", vec![]),
        json(r#"{"model":"m","max_tokens":5,"messages":[{"role":"user","content":"hi"}]}"#)
    );
    assert_eq!(
        build_request("m", 5, "sys", "hi", vec![json("1")]),
        json(
            r#"{"model":"m","max_tokens":5,"tools":[1],
            "messages":[{"role":"system","content":"sys"},{"role":"user","content":"hi"}]}"#
        )
    );
    let d = tool_def_as_function(&read_tool_definition());
    assert_eq!(d.get("type"), Some(&Json::text("function")));
    assert_eq!(d.get("function").unwrap().get("name"), Some(&Json::text("read")));
    assert_eq!(
        d.get("function").unwrap().get("parameters"),
        Some(&read_tool_definition().parameters)
    );
}

// --- dry runs ---

fn dry_run() -> DryRun {
    DryRun {
        provider: "openai".to_string(),
        model: "gpt".to_string(),
        max_tokens: 1,
        max_turns: 2,
        tools: Vec::new(),
        permissions: Vec::new(),
        hooks: Vec::new(),
        system_prompt: "sys".to_string(),
        user_prompt: "usr".to_string(),
    }
}

#[test]
fn test_dry_run_outputs_prompts() {
    let t = tools(&[("bash", true)]);
    let d = DryRun {
        tools: dry_run_tools(&Vec::<HookScript<()>>::new(), &t, &None),
        system_prompt: "you are a test agent".to_string(),
        user_prompt: "hello world".to_string(),
        ..dry_run()
    };
    let out = dry_run_report(&d).join("\n");
    assert!(out.contains("--- system prompt ---"));
    assert!(out.contains("you are a test agent"));
    assert!(out.contains("--- user prompt ---"));
    assert!(out.contains("hello world"));
    assert!(out.contains("bash"));
}

#[test]
fn dry_runs_are_exact() {
    assert_eq!(
        dry_run_report(&dry_run()).join("\n"),
        "--- model ---\nopenai/gpt\nmax_tokens: 1\nmax_turns: 2\n\n--- tools ---\n(none)\n\n\
         --- permissions ---\n\n--- system prompt ---\nsys\n\n--- user prompt ---\nusr"
    );
    let d = DryRun {
        tools: dry_run_tools(&vec![datetime()], &tools(&[("read", true)]), &None),
        permissions: vec![
            format_permission("read", Some("Level(Allow)")),
            format_permission("datetime_now", None),
        ],
        hooks: vec![format_hook(&datetime(), "/h/datetime.sh")],
        ..dry_run()
    };
    assert_eq!(
        dry_run_report(&d).join("\n"),
        "--- model ---\nopenai/gpt\nmax_tokens: 1\nmax_turns: 2\n\n--- tools ---\nread\n\
         datetime_now\ndatetime_zone\n\n--- permissions ---\nread: Level(Allow)\n\
         datetime_now: (unset, defaults to deny)\n\n--- hooks ---\n\
         datetime  /h/datetime.sh  [datetime_now,datetime_zone]\n\n\
         --- system prompt ---\nsys\n\n--- user prompt ---\nusr"
    );
}

// --- init ---

#[test]
fn test_init_creates_config() {
    assert_eq!(config_dir("/h"), "/h/.config/hrns");
    let p = plan_init(false, false);
    assert!(p.create_dir);
    assert!(p.write_file);
}

#[test]
fn test_init_does_not_overwrite() {
    let p = plan_init(true, true);
    assert!(!p.create_dir);
    assert!(!p.write_file);
    assert!(plan_init(true, false).write_file);
}
