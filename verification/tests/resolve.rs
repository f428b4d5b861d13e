use hrns::config::{SkillsConfig, ToolsConfig};
use hrns::permission::{
    permission_from_node, PermissionLevel, PermissionNode, PermissionsConfig, Scalar,
};
use hrns::resolve::{
    append_skills, build_system_prompt, count_levels, find_all_in_dirs,
    find_listing_places, find_lookup_places, global_subdirs, load_agent, load_skill,
    local_subdirs, parse_markdown_with_frontmatter, split_frontmatter, AgentFrontmatter, Anchor,
    DirEntry, FoundFile, Kind, ParsedDoc, SkillFrontmatter, SkillResult,
};
use hrns::table::Table;

fn list(items: &[&str]) -> Vec<String> {
    items.iter().map(|s| s.to_string()).collect()
}

fn gates(list: &[(&str, bool)]) -> SkillsConfig {
    let mut skills = Table::new();
    for (k, v) in list {
        skills.insert(k.to_string(), *v);
    }
    SkillsConfig { skills }
}

fn found(content: &str) -> Option<FoundFile> {
    Some(FoundFile { path: "/p/x.md".to_string(), content: Ok(content.to_string()) })
}

fn scalar(v: &serde_yaml::Value) -> Scalar {
    Scalar { text: v.as_str().map(|s| s.to_string()), shown: format!("{:?}", v) }
}

fn node(v: &serde_yaml::Value) -> PermissionNode {
    match v {
        serde_yaml::Value::String(s) => PermissionNode::Text(s.clone()),
        serde_yaml::Value::Mapping(m) => {
            PermissionNode::Mapping(m.iter().map(|(k, v)| (scalar(k), scalar(v))).collect())
        }
        other => PermissionNode::Other(format!("{:?}", other)),
    }
}

/// reads the frontmatter of an agent from yaml.
fn agent_yaml(s: &str) -> Result<AgentFrontmatter, String> {
    let v: serde_yaml::Value = serde_yaml::from_str(s).map_err(|e| e.to_string())?;
    let mut tools = Table::new();
    if let Some(m) = v.get("tools").and_then(|t| t.as_mapping()) {
        for (k, on) in m {
            tools.insert(k.as_str().unwrap().to_string(), on.as_bool().unwrap());
        }
    }
    let mut permissions = Table::new();
    if let Some(m) = v.get("permissions").and_then(|t| t.as_mapping()) {
        for (k, p) in m {
            permissions.insert(k.as_str().unwrap().to_string(), permission_from_node(&node(p))?);
        }
    }
    Ok(AgentFrontmatter {
        description: v.get("description").and_then(|d| d.as_str()).map(|d| d.to_string()),
        model: None,
        skills: None,
        tools: ToolsConfig { tools },
        permissions: PermissionsConfig { tools: permissions },
    })
}

fn skill_yaml(s: &str) -> Result<SkillFrontmatter, String> {
    let v: serde_yaml::Value = serde_yaml::from_str(s).map_err(|e| e.to_string())?;
    Ok(SkillFrontmatter {
        description: v.get("description").and_then(|d| d.as_str()).map(|d| d.to_string()),
    })
}

fn skill(description: Option<&str>, body: &str) -> SkillResult {
    Ok(ParsedDoc {
        frontmatter: SkillFrontmatter { description: description.map(|s| s.to_string()) },
        body: body.to_string(),
    })
}

#[test]
fn test_wildcard_denies_by_default() {
    // ensures that "**": deny blocks unmatched patterns
    let doc = load_agent(
        ".shared",
        "test-agent",
        found(
            r#"---
tools:
  bash: true
permissions:
  bash:
    "**": deny
    "echo hello": allow
---
test agent
"#,
        ),
        agent_yaml,
    )
    .unwrap();
    assert_eq!(doc.body, "test agent\n");
    assert!(doc.frontmatter.tools.is_active("bash", &None));
    let p = &doc.frontmatter.permissions;
    assert_eq!(p.check("bash", "rm -rf /", false), PermissionLevel::Deny);
    assert_eq!(p.check("bash", "echo hello", false), PermissionLevel::Allow);
}

#[test]
fn test_agent_with_bash_and_read_tools() {
    let doc = load_agent(
        ".shared",
        "test-agent",
        found(
            r#"---
tools:
  read: true
  bash: true
permissions:
  read:
    "**": allow
  bash:
    "**": deny
    "ls **": allow
---
test agent
"#,
        ),
        agent_yaml,
    )
    .unwrap();
    assert!(doc.frontmatter.tools.is_active("read", &None));
    assert!(doc.frontmatter.tools.is_active("bash", &None));
    let p = &doc.frontmatter.permissions;
    assert_eq!(p.check("read", "/etc/passwd", true), PermissionLevel::Allow);
    assert_eq!(p.check("bash", "ls -la", false), PermissionLevel::Allow);
    assert_eq!(p.check("bash", "rm x", false), PermissionLevel::Deny);
}

#[test]
fn test_invalid_permission_level_shows_value() {
    let e = load_agent(
        ".shared",
        "test-agent",
        found(
            r#"---
tools:
  bash: true
permissions:
  bash:
    "*": dennny
---
test agent
"#,
        ),
        agent_yaml,
    )
    .unwrap_err();
    assert!(e.contains("invalid permission level 'dennny'"), "{}", e);
    assert!(e.contains("agent 'test-agent'"), "{}", e);
}

#[test]
fn test_parse_error_includes_agent_name() {
    let e = load_agent(
        ".shared",
        "test-agent",
        found(
            r#"---
permissions:
  read: 12345
---
test
"#,
        ),
        agent_yaml,
    )
    .unwrap_err();
    assert!(e.contains("agent 'test-agent'"), "{}", e);
    assert!(e.starts_with("agent 'test-agent' (/p/x.md): expected a permission level"), "{}", e);
}

#[test]
fn documents_are_split() {
    let parts = |s: &str| split_frontmatter(s);
    let some = |a: &str, b: &str| Some((a.to_string(), b.to_string()));
    assert_eq!(parts("---\na: 1\n---\nbody\n"), some("a: 1", "body\n"));
    assert_eq!(parts("---\na: 1\n---\r\nbody"), some("a: 1", "body"));
    assert_eq!(parts("---\na: 1\n---"), some("a: 1", ""));
    assert_eq!(parts("---\na: 1\n---x"), some("a: 1", "x"));
    assert_eq!(parts("---\r\na: 1\n---\nb"), some("\na: 1", "b"));
    assert_eq!(parts("---\n\n---\n\nb"), some("", "\nb"));
    assert_eq!(parts("---\n---\nb"), None);
    assert_eq!(parts("--- \na\n---\nb"), None);
    assert_eq!(parts("text"), None);
    assert_eq!(parts(""), None);
}

#[test]
fn frontmatter_is_read_by_the_given_parser() {
    let doc = parse_markdown_with_frontmatter("---\ndescription: d\n---\nb", skill_yaml).unwrap();
    assert_eq!(doc.frontmatter.description.as_deref(), Some("d"));
    assert_eq!(doc.body, "b");
    let doc = parse_markdown_with_frontmatter("plain", skill_yaml).unwrap();
    assert_eq!(doc.frontmatter.description, None);
    assert_eq!(doc.body, "plain");
    assert!(parse_markdown_with_frontmatter("---\n: [\n---\nb", skill_yaml).is_err());
}

#[test]
fn the_walk_ends_at_the_git_root() {
    assert_eq!(count_levels(&[false, true, false]), 2);
    assert_eq!(count_levels(&[true, false]), 1);
    assert_eq!(count_levels(&[false, false, false]), 3);
    assert_eq!(count_levels(&[]), 0);
}

fn shown(places: Vec<hrns::resolve::Place>) -> Vec<(Anchor, String)> {
    places.into_iter().map(|p| (p.anchor, p.path)).collect()
}

fn at(anchor: Anchor, paths: &[&str]) -> Vec<(Anchor, String)> {
    paths.iter().map(|p| (anchor, p.to_string())).collect()
}

#[test]
fn agents_are_looked_for_nearest_first() {
    let local = [
        ".opencode/agents/a.md",
        ".shared/agents/a.md",
        ".agents/agents/a.md",
        ".opencode/a.md",
        ".shared/a.md",
        ".agents/a.md",
    ];
    let global = [
        ".config/opencode/agents/a.md",
        ".shared/agents/a.md",
        ".agents/agents/a.md",
        ".config/opencode/a.md",
        ".shared/a.md",
        ".agents/a.md",
    ];
    let mut expected = at(Anchor::Ancestor(0), &local);
    expected.extend(at(Anchor::Ancestor(1), &local));
    expected.extend(at(Anchor::Home, &global));
    let git = [false, true];
    assert_eq!(shown(find_lookup_places(Kind::Agent, ".shared", "a", &git, true)), expected);
    assert_eq!(
        shown(find_lookup_places(Kind::Agent, ".shared", "a", &[true], false)),
        at(Anchor::Ancestor(0), &local)
    );
}

#[test]
fn a_skill_directory_comes_before_a_skill_file() {
    let places = shown(find_lookup_places(Kind::Skill, ".shared", "s", &[true], false));
    assert_eq!(places.len(), 14);
    assert_eq!(places[0].1, ".opencode/skills/s/SKILL.md");
    assert_eq!(places[3].1, ".pi/agent/skills/s/SKILL.md");
    assert_eq!(places[6].1, ".agents/s/SKILL.md");
    assert_eq!(places[7].1, ".opencode/skills/s.md");
    assert_eq!(places[13].1, ".agents/s.md");
}

#[test]
fn a_local_skill_of_either_form_comes_before_a_global_one() {
    let places = shown(find_lookup_places(Kind::Skill, ".shared", "foo", &[true], true));
    let at = |anchor: Anchor, path: &str| {
        places.iter().position(|p| *p == (anchor, path.to_string())).unwrap()
    };
    assert!(
        at(Anchor::Ancestor(0), ".shared/skills/foo.md")
            < at(Anchor::Home, ".shared/skills/foo/SKILL.md")
    );
    assert_eq!(places.len(), 28);
    assert!(places[..14].iter().all(|p| p.0 == Anchor::Ancestor(0)));
    assert!(places[14..].iter().all(|p| p.0 == Anchor::Home));
    let places = shown(find_lookup_places(Kind::Skill, ".shared", "foo", &[false, true], false));
    assert_eq!(places[13], (Anchor::Ancestor(0), ".agents/foo.md".to_string()));
    assert_eq!(places[14], (Anchor::Ancestor(1), ".opencode/skills/foo/SKILL.md".to_string()));
}

#[test]
fn flat_bases_are_not_listed() {
    assert_eq!(
        shown(find_listing_places(Kind::Agent, ".shared", &[true], true)),
        [
            at(
                Anchor::Ancestor(0),
                &[".opencode/agents", ".shared/agents", ".agents/agents"]
            ),
            at(
                Anchor::Home,
                &[".config/opencode/agents", ".shared/agents", ".agents/agents"]
            ),
        ]
        .concat()
    );
    assert_eq!(
        local_subdirs(Kind::Skill, ".shared"),
        [".opencode/skills", ".shared/skills", ".agents/skills", ".pi/agent/skills"]
    );
    assert_eq!(
        global_subdirs(Kind::Skill, ".shared"),
        [".config/opencode/skills", ".shared/skills", ".agents/skills", ".pi/agent/skills"]
    );
}

fn entry(name: Option<&str>, is_dir: bool, holds_skill: bool) -> DirEntry {
    DirEntry { is_dir, holds_skill, file_name: name.map(|s| s.to_string()) }
}

#[test]
fn definitions_are_listed_by_name() {
    let listed = find_all_in_dirs(&vec![
        entry(Some("zeta.md"), false, false),
        entry(Some("tool"), true, true),
        entry(Some("empty"), true, false),
        entry(Some("notes.txt"), false, false),
        entry(Some(".md"), false, false),
        entry(None, false, false),
        entry(Some("tool.md"), false, false),
        entry(Some("alpha.md"), false, false),
        entry(Some("odd.md"), true, false),
    ]);
    let shown: Vec<(&str, usize, bool)> =
        listed.iter().map(|l| (l.name.as_str(), l.entry, l.in_dir)).collect();
    assert_eq!(
        shown,
        [("alpha", 7, false), ("odd", 8, false), ("tool", 1, true), ("zeta", 0, false)]
    );
}

#[test]
fn test_list_skills_finds_global_skills() {
    let places = shown(find_listing_places(Kind::Skill, ".shared", &[true], true));
    assert!(places.contains(&(Anchor::Home, ".shared/skills".to_string())));
    let listed = find_all_in_dirs(&vec![entry(Some("global-skill.md"), false, false)]);
    assert_eq!(listed[0].name, "global-skill");
}

#[test]
fn missing_and_unreadable_files_are_reported() {
    assert_eq!(
        load_agent(".shared", "x", None, agent_yaml).unwrap_err(),
        "agent 'x' not found in .opencode/, .shared/, or .agents/ directories"
    );
    assert_eq!(
        load_skill(".shared", "x", None, skill_yaml).unwrap_err(),
        "skill 'x' not found in .opencode/, .shared/, .agents/, or .pi/agent/ directories"
    );
    let unreadable =
        FoundFile { path: "/p".to_string(), content: Err("permission denied".to_string()) };
    assert_eq!(
        load_skill(".shared", "x", Some(unreadable), skill_yaml).unwrap_err(),
        "permission denied"
    );
    let e = load_skill(".shared", "x", found("---\n: [\n---\n"), skill_yaml).unwrap_err();
    assert!(e.starts_with("skill 'x' (/p/x.md): "), "{}", e);
    let s = load_skill(".shared", "x", found("---\ndescription: d\n---\nb"), skill_yaml).unwrap();
    assert_eq!(s.frontmatter.description.as_deref(), Some("d"));
    assert_eq!(s.body, "b");
}

#[test]
fn skills_are_appended_to_the_prompt() {
    let mut prompt = "base".to_string();
    let config = gates(&[("*", true), ("off", false)]);
    let load = |name: &str| -> SkillResult {
        match name {
            "one" => skill(Some("first"), "body one"),
            "two" => skill(None, "body two"),
            _ => Err("gone".to_string()),
        }
    };
    let warnings = append_skills(&mut prompt, &list(&["one", "off", "lost", "two"]), &config, load);
    assert_eq!(
        prompt,
        "base\n\n# skills\n\n## one\ndescription: first\nbody one\n\n## two\nbody two\n"
    );
    assert_eq!(
        warnings,
        ["warning: skill 'off' disabled by config", "warning: failed to load skill 'lost': gone"]
    );
}

#[test]
fn a_prompt_without_enabled_skills_stays() {
    let load = |_: &str| -> SkillResult { skill(None, "b") };
    let mut prompt = "base".to_string();
    let warnings = append_skills(&mut prompt, &list(&["off"]), &gates(&[]), load);
    assert_eq!(prompt, "base");
    assert_eq!(warnings, ["warning: skill 'off' disabled by config"]);
    let mut doc =
        ParsedDoc { frontmatter: AgentFrontmatter::default(), body: "agent".to_string() };
    assert_eq!(build_system_prompt(&doc, &gates(&[("*", true)]), load).0, "agent");
    doc.frontmatter.skills = Some(list(&["s"]));
    assert_eq!(
        build_system_prompt(&doc, &gates(&[("*", true)]), load).0,
        "agent\n\n# skills\n\n## s\nb\n"
    );
}
