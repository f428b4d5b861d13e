use hrns::config::{
    api_key_variable, config_paths, first_where, load_config, resolve_provider, Config,
    HooksConfig, ProviderConfig, SkillsConfig, ToolsConfig,
};
use hrns::table::Table;

fn gates(list: &[(&str, bool)]) -> Table<bool> {
    let mut t = Table::new();
    for (k, v) in list {
        t.insert(k.to_string(), *v);
    }
    t
}

fn env(list: &[(&str, &str)]) -> Table<String> {
    let mut t = Table::new();
    for (k, v) in list {
        t.insert(k.to_string(), v.to_string());
    }
    t
}

fn provider(name: &str, client: Option<&str>, key: Option<&str>, url: Option<&str>) -> ProviderConfig {
    ProviderConfig {
        name: name.to_string(),
        client: client.map(|s| s.to_string()),
        api_key: key.map(|s| s.to_string()),
        base_url: url.map(|s| s.to_string()),
    }
}

#[test]
fn gates_decide_unless_there_is_a_list() {
    let c = ToolsConfig { tools: gates(&[("*", true), ("bash", false)]) };
    assert!(c.is_active("read", &None));
    assert!(!c.is_active("bash", &None));
    let list = Some(vec!["bash".to_string()]);
    assert!(c.is_active("bash", &list));
    assert!(!c.is_active("read", &list));
    assert!(!ToolsConfig::default().is_active("read", &None));
}

#[test]
fn hooks_and_skills_have_gates_too() {
    let h = HooksConfig { hooks: gates(&[("*", true), ("datetime", false)]) };
    assert!(h.is_active("demo", &None));
    assert!(!h.is_active("datetime", &None));
    assert!(h.is_active("datetime", &Some(vec!["datetime".to_string()])));
    let s = SkillsConfig { skills: gates(&[("sys-*", true)]) };
    assert!(s.is_active("sys-admin"));
    assert!(!s.is_active("other"));
    assert!(!s.clone().is_active("other"));
    assert!(!HooksConfig::default().clone().is_active("demo", &None));
}

#[test]
fn merged_gates_are_those_of_both() {
    let a = ToolsConfig { tools: gates(&[("read", false), ("bash", true)]) };
    let b = ToolsConfig { tools: gates(&[("read", true)]) };
    let c = a.clone().merge(b);
    assert!(c.is_active("read", &None));
    assert!(c.is_active("bash", &None));
    assert!(!a.is_active("read", &None));
}

#[test]
fn the_configuration_is_looked_for_in_order() {
    assert_eq!(
        config_paths(Some("/home/u")),
        ["hrns.toml", ".hrns.toml", ".config/hrns.toml", "/home/u/.config/hrns/config.toml"]
    );
    assert_eq!(config_paths(None), ["hrns.toml", ".hrns.toml", ".config/hrns.toml"]);
    let paths = config_paths(Some("/h"));
    assert_eq!(first_where(&paths, |p: &String| p.starts_with('.')), Some(1));
    assert_eq!(first_where(&paths, |_: &String| false), None);
}

#[test]
fn an_empty_or_missing_file_sets_nothing() {
    let parse = |s: &str| -> Result<Config, String> { Err(format!("parsed {}", s)) };
    assert_eq!(load_config(None, parse), Ok(Config::default()));
    assert_eq!(load_config(Some(""), parse), Ok(Config::default()));
    assert_eq!(load_config(Some("x = 1"), parse), Err("parsed x = 1".to_string()));
    assert_eq!(Config::default().providers.len(), 0);
}

#[test]
fn a_model_name_resolves_to_a_provider() {
    let mut config = Config::default();
    config.providers.push(provider("local", Some("openai_completions"), Some("fake"), Some("http://l/v1")));
    config.providers.push(provider("anthropic", None, None, None));
    config.providers.push(provider("local", Some("gemini"), None, None));
    let e = env(&[("ANTHROPIC_API_KEY", "ak"), ("OPENAI_API_KEY", "ok")]);
    let r = resolve_provider(&config, "local/some/model", &e);
    assert_eq!(r.provider_name, "local");
    assert_eq!(r.client_type, "openai_completions");
    assert_eq!(r.model_name, "some/model");
    assert_eq!(r.api_key, "fake");
    assert_eq!(r.base_url, Some("http://l/v1".to_string()));
    let r = resolve_provider(&config, "anthropic/m", &e);
    assert_eq!(r.client_type, "anthropic");
    assert_eq!(r.api_key, "ak");
    assert_eq!(r.base_url, None);
    let r = resolve_provider(&config, "gpt", &e);
    assert_eq!((r.provider_name.as_str(), r.client_type.as_str()), ("openai", "openai"));
    assert_eq!((r.model_name.as_str(), r.api_key.as_str()), ("gpt", "ok"));
    let r = resolve_provider(&config, "cohere/x", &e);
    assert_eq!(r.api_key, "");
    let r = resolve_provider(&config, "other/x", &e);
    assert_eq!(r.client_type, "other");
    assert_eq!(r.api_key, "");
}

#[test]
fn each_client_type_has_its_variable() {
    for (client, variable) in [
        ("openai", "OPENAI_API_KEY"),
        ("openai_completions", "OPENAI_API_KEY"),
        ("openai_responses", "OPENAI_API_KEY"),
        ("anthropic", "ANTHROPIC_API_KEY"),
        ("gemini", "GEMINI_API_KEY"),
        ("cohere", "COHERE_API_KEY"),
        ("xai", "XAI_API_KEY"),
    ] {
        assert_eq!(api_key_variable(client), Some(variable));
    }
    assert_eq!(api_key_variable("local"), None);
}
