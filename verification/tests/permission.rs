use hrns::permission::{
    check_tool_permission, decide, parse_level, parse_permission_target, permission_from_node,
    permission_level_str, Permission, PermissionLevel, PermissionNode, PermissionOverride,
    PermissionResolver, PermissionsConfig, Scalar, ToolError,
};
use hrns::table::Table;
use std::cell::RefCell;

fn patterns(list: &[(&str, PermissionLevel)]) -> Permission {
    let mut t = Table::new();
    for (k, v) in list {
        t.insert(k.to_string(), *v);
    }
    Permission::Patterns(t)
}

fn config(list: Vec<(&str, Permission)>) -> PermissionsConfig {
    let mut tools = Table::new();
    for (k, v) in list {
        tools.insert(k.to_string(), v);
    }
    PermissionsConfig { tools }
}

fn over(tool: &str, pattern: Option<&str>, level: PermissionLevel) -> PermissionOverride {
    PermissionOverride {
        tool: tool.to_string(),
        pattern: pattern.map(|p| p.to_string()),
        level,
    }
}

fn scalar(s: &str) -> Scalar {
    Scalar { text: Some(s.to_string()), shown: format!("String({s:?})") }
}

// --- permission resolution (path mode for read) ---

#[test]
fn test_permission_path_patterns() {
    let perm = patterns(&[
        ("**", PermissionLevel::Deny),
        ("/etc/os-release", PermissionLevel::Allow),
    ]);
    assert_eq!(perm.check("/etc/os-release", true), PermissionLevel::Allow);
    assert_eq!(perm.check("/etc/shadow", true), PermissionLevel::Deny);
}

#[test]
fn test_permission_doublestar_dir_pattern() {
    let perm = patterns(&[
        ("**", PermissionLevel::Deny),
        ("/home/**", PermissionLevel::Allow),
    ]);
    assert_eq!(perm.check("/home/user/file.txt", true), PermissionLevel::Allow);
    assert_eq!(perm.check("/etc/passwd", true), PermissionLevel::Deny);
}

// --- permission resolution (command mode for bash) ---

#[test]
fn test_permission_command_star_matches_slashes() {
    let perm = patterns(&[("*", PermissionLevel::Deny), ("ls *", PermissionLevel::Allow)]);
    // in command mode, "ls *" matches args with slashes
    assert_eq!(perm.check("ls -la /home/user", false), PermissionLevel::Allow);
    assert_eq!(perm.check("rm -rf /", false), PermissionLevel::Deny);
}

#[test]
fn test_permission_command_most_specific_wins() {
    let perm = patterns(&[("*", PermissionLevel::Deny), ("apt update", PermissionLevel::Allow)]);
    assert_eq!(perm.check("apt update", false), PermissionLevel::Allow);
    assert_eq!(perm.check("rm -rf /", false), PermissionLevel::Deny);
}

#[test]
fn test_permission_trailing_wildcard_matches_no_args() {
    let perm = patterns(&[("*", PermissionLevel::Deny), ("ls *", PermissionLevel::Allow)]);
    // "ls *" should also match bare "ls" (no args)
    assert_eq!(perm.check("ls", false), PermissionLevel::Allow);
    assert_eq!(perm.check("ls -la /home", false), PermissionLevel::Allow);
    assert_eq!(perm.check("rm", false), PermissionLevel::Deny);
}

#[test]
fn a_trailing_double_star_matches_the_bare_command_too() {
    let perm = patterns(&[("ls **", PermissionLevel::Allow)]);
    assert_eq!(perm.check("ls", false), PermissionLevel::Allow);
    assert_eq!(perm.check("lsof", false), PermissionLevel::Deny);
}

#[test]
fn a_level_holds_for_every_input() {
    let perm = Permission::Level(PermissionLevel::Ask);
    assert_eq!(perm.check("anything", false), PermissionLevel::Ask);
    assert_eq!(perm.check("", true), PermissionLevel::Ask);
}

#[test]
fn the_fewest_wildcards_win() {
    let perm =
        patterns(&[("ls*", PermissionLevel::Deny), ("ls -*a*", PermissionLevel::Allow)]);
    assert_eq!(perm.check("ls -la", false), PermissionLevel::Deny);
    let perm = patterns(&[("*", PermissionLevel::Deny), ("ls*", PermissionLevel::Allow)]);
    assert_eq!(perm.check("ls -la", false), PermissionLevel::Allow);
}

#[test]
fn clones_decide_alike() {
    let c = config(vec![
        ("read", Permission::Level(PermissionLevel::Allow)),
        ("bash", patterns(&[("*", PermissionLevel::Deny), ("ls", PermissionLevel::Ask)])),
    ]);
    let d = c.clone();
    assert_eq!(c, d);
    assert_eq!(d.check("bash", "ls", false), PermissionLevel::Ask);
    let o = over("bash", Some("ls"), PermissionLevel::Allow);
    assert_eq!(o.clone(), o);
}

#[test]
fn a_tool_without_an_entry_is_denied() {
    let c = config(vec![("read", Permission::Level(PermissionLevel::Allow))]);
    assert_eq!(c.check("read", "/x", true), PermissionLevel::Allow);
    assert_eq!(c.check("bash", "ls", false), PermissionLevel::Deny);
    assert_eq!(PermissionsConfig::default().check("read", "/x", true), PermissionLevel::Deny);
}

#[test]
fn entries_are_found_by_globs_and_the_very_name_wins() {
    let c = config(vec![
        ("*", Permission::Level(PermissionLevel::Ask)),
        ("datetime_*", Permission::Level(PermissionLevel::Allow)),
        ("datetime_set", Permission::Level(PermissionLevel::Deny)),
    ]);
    assert_eq!(c.check("bash", "ls", false), PermissionLevel::Ask);
    assert_eq!(c.check("datetime_now", "*", false), PermissionLevel::Allow);
    assert_eq!(c.check("datetime_set", "*", false), PermissionLevel::Deny);
}

#[test]
fn merging_prefers_the_second_entries() {
    let a = config(vec![
        ("read", Permission::Level(PermissionLevel::Allow)),
        ("bash", Permission::Level(PermissionLevel::Deny)),
    ]);
    let b = config(vec![("bash", Permission::Level(PermissionLevel::Ask))]);
    let c = a.merge(b);
    assert_eq!(c.check("read", "x", true), PermissionLevel::Allow);
    assert_eq!(c.check("bash", "x", false), PermissionLevel::Ask);
}

#[test]
fn a_bare_override_replaces_the_entry() {
    let c = config(vec![(
        "bash",
        patterns(&[("*", PermissionLevel::Deny), ("ls", PermissionLevel::Deny)]),
    )]);
    let c = c.apply_overrides(&[over("bash", None, PermissionLevel::Allow)]);
    assert_eq!(c.check("bash", "ls", false), PermissionLevel::Allow);
}

#[test]
fn a_pattern_override_keeps_a_level_for_the_rest() {
    let c = config(vec![("bash", Permission::Level(PermissionLevel::Ask))]);
    let c = c.apply_overrides(&[over("bash", Some("apt update"), PermissionLevel::Allow)]);
    assert_eq!(c.check("bash", "apt update", false), PermissionLevel::Allow);
    assert_eq!(c.check("bash", "rm -rf /x", false), PermissionLevel::Ask);
}

#[test]
fn a_pattern_override_makes_an_entry_where_there_is_none() {
    let c = PermissionsConfig::default();
    let c = c.apply_overrides(&[over("read", Some("/etc/*"), PermissionLevel::Allow)]);
    assert_eq!(c.check("read", "/etc/hosts", true), PermissionLevel::Allow);
    assert_eq!(c.check("read", "/home/x", true), PermissionLevel::Deny);
    assert_eq!(c.check("bash", "ls", false), PermissionLevel::Deny);
}

#[test]
fn the_last_override_of_a_target_decides() {
    let list = [
        over("bash", Some("ls"), PermissionLevel::Allow),
        over("bash", Some("ls"), PermissionLevel::Ask),
        over("bash", Some("pwd"), PermissionLevel::Deny),
    ];
    let c = PermissionsConfig::default().apply_overrides(&list);
    assert_eq!(c.check("bash", "ls", false), PermissionLevel::Ask);
    assert_eq!(c.check("bash", "pwd", false), PermissionLevel::Deny);
}

#[test]
fn denials_win_whatever_else_is_denied_after_them() {
    let list = [
        over("bash", None, PermissionLevel::Allow),
        over("bash", None, PermissionLevel::Deny),
        over("bash", Some("l*"), PermissionLevel::Deny),
        over("read", None, PermissionLevel::Deny),
    ];
    let c = PermissionsConfig::default().apply_overrides(&list);
    assert_eq!(c.check("bash", "ls", false), PermissionLevel::Deny);
    assert_eq!(c.check("bash", "pwd", false), PermissionLevel::Deny);
}

#[test]
fn targets_are_split_at_the_first_colon() {
    assert_eq!(parse_permission_target("bash"), Ok(("bash".to_string(), None)));
    assert_eq!(
        parse_permission_target("bash:apt update"),
        Ok(("bash".to_string(), Some("apt update".to_string())))
    );
    assert_eq!(
        parse_permission_target("read:/a:b"),
        Ok(("read".to_string(), Some("/a:b".to_string())))
    );
}

#[test]
fn level_names_go_both_ways() {
    for l in [PermissionLevel::Allow, PermissionLevel::Ask, PermissionLevel::Deny] {
        assert_eq!(parse_level(permission_level_str(&l)), Ok(l));
    }
    assert_eq!(
        parse_level("dennny"),
        Err("invalid permission level 'dennny', expected 'allow', 'ask', or 'deny'".to_string())
    );
}

#[test]
fn nodes_become_permissions() {
    assert_eq!(
        permission_from_node(&PermissionNode::Text("ask".to_string())),
        Ok(Permission::Level(PermissionLevel::Ask))
    );
    let map = PermissionNode::Mapping(vec![
        (scalar("*"), scalar("deny")),
        (scalar("ls"), scalar("allow")),
    ]);
    assert_eq!(
        permission_from_node(&map),
        Ok(patterns(&[("*", PermissionLevel::Deny), ("ls", PermissionLevel::Allow)]))
    );
}

#[test]
fn nodes_that_are_no_permissions_are_refused() {
    assert_eq!(
        permission_from_node(&PermissionNode::Text("no".to_string())),
        Err("invalid permission level 'no', expected 'allow', 'ask', or 'deny'".to_string())
    );
    let number = Scalar { text: None, shown: "Number(1)".to_string() };
    assert_eq!(
        permission_from_node(&PermissionNode::Mapping(vec![(number, scalar("deny"))])),
        Err("expected string key, got Number(1)".to_string())
    );
    let number = Scalar { text: None, shown: "Number(1)".to_string() };
    assert_eq!(
        permission_from_node(&PermissionNode::Mapping(vec![(scalar("*"), number)])),
        Err("pattern '*': expected 'allow', 'ask', or 'deny', got Number(1)".to_string())
    );
    assert_eq!(
        permission_from_node(&PermissionNode::Mapping(vec![(scalar("*"), scalar("dennny"))])),
        Err("pattern '*': invalid permission level 'dennny', expected 'allow', 'ask', or 'deny'"
            .to_string())
    );
    assert_eq!(
        permission_from_node(&PermissionNode::Other("Number(12345)".to_string())),
        Err("expected a permission level string or a map of patterns, got Number(12345)"
            .to_string())
    );
}

struct Answer {
    says: bool,
    asked: RefCell<Vec<(String, String)>>,
}

impl PermissionResolver for Answer {
    fn confirm(&self, tool_name: &str, input: &str) -> bool {
        self.asked.borrow_mut().push((tool_name.to_string(), input.to_string()));
        self.says
    }
}

fn answer(says: bool) -> Answer {
    Answer { says, asked: RefCell::new(Vec::new()) }
}

#[test]
fn asking_is_left_to_the_resolver() {
    let c = config(vec![
        ("ask", Permission::Level(PermissionLevel::Ask)),
        ("yes", Permission::Level(PermissionLevel::Allow)),
    ]);
    let a = answer(true);
    assert_eq!(check_tool_permission(&c, &a, "ask", "x", false), Ok(()));
    assert_eq!(*a.asked.borrow(), vec![("ask".to_string(), "x".to_string())]);
    let a = answer(false);
    assert_eq!(
        check_tool_permission(&c, &a, "ask", "x", false),
        Err(ToolError::ToolCallError("permission denied (user rejected): x".to_string()))
    );
    let a = answer(false);
    assert_eq!(check_tool_permission(&c, &a, "yes", "x", false), Ok(()));
    assert_eq!(
        check_tool_permission(&c, &a, "no", "x", false),
        Err(ToolError::ToolCallError("permission denied: x".to_string()))
    );
    assert!(a.asked.borrow().is_empty());
}

#[test]
fn a_level_and_an_answer_decide() {
    assert_eq!(decide(PermissionLevel::Allow, false, "x"), Ok(()));
    assert_eq!(decide(PermissionLevel::Ask, true, "x"), Ok(()));
    assert_eq!(
        decide(PermissionLevel::Deny, true, "x"),
        Err(ToolError::ToolCallError("permission denied: x".to_string()))
    );
}

#[test]
fn two_lists_of_overrides_are_one() {
    let first =
        [over("bash", Some("ls"), PermissionLevel::Allow), over("read", None, PermissionLevel::Ask)];
    let second =
        [over("bash", Some("ls"), PermissionLevel::Deny), over("read", Some("/x"), PermissionLevel::Allow)];
    let whole = [first[0].clone(), first[1].clone(), second[0].clone(), second[1].clone()];
    let a = PermissionsConfig::default().apply_overrides(&first).apply_overrides(&second);
    let b = PermissionsConfig::default().apply_overrides(&whole);
    assert_eq!(a, b);
    assert_eq!(a.check("bash", "ls", false), PermissionLevel::Deny);
    assert_eq!(a.check("read", "/x", true), PermissionLevel::Allow);
    assert_eq!(a.check("read", "/y", true), PermissionLevel::Ask);
}
