//! the configuration: where it is looked for, the per-tool/hook/skill enable
//! gates, and the provider that a model name resolves to. all gates share the
//! glob semantics in [`crate::glob`].

use crate::glob;
use crate::permission::PermissionsConfig;
use crate::table::Table;
use crate::text;
use vstd::prelude::*;

verus! {

// --- gates ---

/// the names are gates that stand open: the most specific matching pattern
/// decides, and a name that no pattern matches is shut.
pub open spec fn enabled(gates: Map<Seq<char>, bool>, name: Seq<char>) -> bool {
    match glob::best(gates.dom(), glob::by_prefix(name)) {
        Some(p) => gates[p],
        None => false,
    }
}

/// a name is active where it is listed, if there is a list, and else where its
/// gate stands open.
pub open spec fn active(
    gates: Map<Seq<char>, bool>,
    name: Seq<char>,
    list: Option<Vec<String>>,
) -> bool {
    match list {
        Some(names) => text::texts(names@).contains(name),
        None => enabled(gates, name),
    }
}

/// whether a name's gate stands open.
fn is_enabled(gates: &Table<bool>, name: &str) -> (r: bool)
    ensures
        r == enabled(gates@, name@),
{
    glob::glob_lookup(gates, name, false)
}

/// whether a name is active.
fn is_active_in(gates: &Table<bool>, name: &str, list: &Option<Vec<String>>) -> (r: bool)
    ensures
        r == active(gates@, name@, *list),
{
    match list {
        Some(names) => text::contains_str(names, name),
        None => is_enabled(gates, name),
    }
}

#[derive(Debug, PartialEq)]
pub struct ToolsConfig {
    pub tools: Table<bool>,
}

impl View for ToolsConfig {
    type V = Map<Seq<char>, bool>;

    open spec fn view(&self) -> Map<Seq<char>, bool> {
        self.tools@
    }
}

impl Default for ToolsConfig {
    fn default() -> (r: Self)
        ensures
            r@ == Map::<Seq<char>, bool>::empty(),
    {
        ToolsConfig { tools: Table::new() }
    }
}

impl Clone for ToolsConfig {
    fn clone(&self) -> (r: Self)
        ensures
            r@ == self@,
    {
        ToolsConfig { tools: self.tools.copied() }
    }
}

impl ToolsConfig {
    /// the gates of both; where both have one, the other's counts.
    pub fn merge(self, other: ToolsConfig) -> (r: ToolsConfig)
        ensures
            r@ == self@.union_prefer_right(other@),
    {
        let mut tools = self.tools;
        tools.extend(other.tools);
        ToolsConfig { tools }
    }

    /// checks if a tool is active. if `tools_override` is Some, only the listed
    /// tools are enabled (ignoring config). otherwise, looks up the tool in the
    /// config map using gitignore-style glob matching (most specific wins, `"*"`
    /// acts as a default). default: false.
    pub fn is_active(&self, tool_name: &str, tools_override: &Option<Vec<String>>) -> (r: bool)
        ensures
            r == active(self@, tool_name@, *tools_override),
    {
        is_active_in(&self.tools, tool_name, tools_override)
    }
}

/// gates which hook scripts are loaded, keyed by the hook's declared `name`
/// (returned in `discover`, defaulting to the file stem). same glob semantics as
/// `[tools]`: `"*" = false` is the default.
#[derive(Debug, PartialEq)]
pub struct HooksConfig {
    pub hooks: Table<bool>,
}

impl View for HooksConfig {
    type V = Map<Seq<char>, bool>;

    open spec fn view(&self) -> Map<Seq<char>, bool> {
        self.hooks@
    }
}

impl Default for HooksConfig {
    fn default() -> (r: Self)
        ensures
            r@ == Map::<Seq<char>, bool>::empty(),
    {
        HooksConfig { hooks: Table::new() }
    }
}

impl Clone for HooksConfig {
    fn clone(&self) -> (r: Self)
        ensures
            r@ == self@,
    {
        HooksConfig { hooks: self.hooks.copied() }
    }
}

impl HooksConfig {
    /// checks if a hook is active. if `hooks_override` is Some, only the listed
    /// hooks are enabled (ignoring config). otherwise, looks up the hook in
    /// config with glob semantics.
    pub fn is_active(&self, hook_name: &str, hooks_override: &Option<Vec<String>>) -> (r: bool)
        ensures
            r == active(self@, hook_name@, *hooks_override),
    {
        is_active_in(&self.hooks, hook_name, hooks_override)
    }
}

/// gates which skills are loadable. keyed by skill name (the file stem passed to
/// `load_skill`). same glob semantics as `[tools]`.
#[derive(Debug, PartialEq)]
pub struct SkillsConfig {
    pub skills: Table<bool>,
}

impl View for SkillsConfig {
    type V = Map<Seq<char>, bool>;

    open spec fn view(&self) -> Map<Seq<char>, bool> {
        self.skills@
    }
}

impl Default for SkillsConfig {
    fn default() -> (r: Self)
        ensures
            r@ == Map::<Seq<char>, bool>::empty(),
    {
        SkillsConfig { skills: Table::new() }
    }
}

impl Clone for SkillsConfig {
    fn clone(&self) -> (r: Self)
        ensures
            r@ == self@,
    {
        SkillsConfig { skills: self.skills.copied() }
    }
}

impl SkillsConfig {
    /// checks if a skill is enabled, with glob semantics.
    pub fn is_active(&self, skill_name: &str) -> (r: bool)
        ensures
            r == enabled(self@, skill_name@),
    {
        is_enabled(&self.skills, skill_name)
    }
}

// --- the configuration ---

#[derive(Debug, PartialEq)]
pub struct ProviderConfig {
    pub name: String,
    /// openai (responses API), openai_completions, anthropic, gemini, cohere, xai
    pub client: Option<String>,
    pub api_key: Option<String>,
    pub base_url: Option<String>,
}

impl Default for ProviderConfig {
    fn default() -> (r: Self)
        ensures
            r.name@ == Seq::<char>::empty(),
            r.client is None,
            r.api_key is None,
            r.base_url is None,
    {
        ProviderConfig { name: String::new(), client: None, api_key: None, base_url: None }
    }
}

impl Clone for ProviderConfig {
    fn clone(&self) -> (r: Self)
        ensures
            r.name@ == self.name@,
            text::text_opt(r.client) == text::text_opt(self.client),
            text::text_opt(r.api_key) == text::text_opt(self.api_key),
            text::text_opt(r.base_url) == text::text_opt(self.base_url),
    {
        ProviderConfig {
            name: self.name.clone(),
            client: text::copy_opt(&self.client),
            api_key: text::copy_opt(&self.api_key),
            base_url: text::copy_opt(&self.base_url),
        }
    }
}

#[derive(Debug, PartialEq)]
pub struct Config {
    pub default_model: Option<String>,
    pub default_max_tokens: Option<u64>,
    pub default_max_turns: Option<usize>,
    /// fallback system prompt used when no `-s` flag and no agent body
    pub default_system_prompt: Option<String>,
    /// max bytes of tool-call output rendered to stderr (default: 2000)
    pub tool_output_truncate: Option<usize>,
    pub tools: ToolsConfig,
    pub permissions: PermissionsConfig,
    pub hooks: HooksConfig,
    pub skills: SkillsConfig,
    pub providers: Vec<ProviderConfig>,
}

/// a configuration that sets nothing.
pub open spec fn sets_nothing(c: Config) -> bool {
    &&& c.default_model is None
    &&& c.default_max_tokens is None
    &&& c.default_max_turns is None
    &&& c.default_system_prompt is None
    &&& c.tool_output_truncate is None
    &&& c.tools@ == Map::<Seq<char>, bool>::empty()
    &&& c.permissions@.dom() == Set::<Seq<char>>::empty()
    &&& c.hooks@ == Map::<Seq<char>, bool>::empty()
    &&& c.skills@ == Map::<Seq<char>, bool>::empty()
    &&& c.providers@.len() == 0
}

impl Default for Config {
    fn default() -> (r: Self)
        ensures
            sets_nothing(r),
    {
        Config {
            default_model: None,
            default_max_tokens: None,
            default_max_turns: None,
            default_system_prompt: None,
            tool_output_truncate: None,
            tools: ToolsConfig::default(),
            permissions: PermissionsConfig::default(),
            hooks: HooksConfig::default(),
            skills: SkillsConfig::default(),
            providers: Vec::new(),
        }
    }
}

/// the places where the configuration is looked for, first to last: the project
/// ones, and the global one where there is a home directory.
pub open spec fn config_places(home: Option<Seq<char>>) -> Seq<Seq<char>> {
    let local = seq!["hrns.toml"@, ".hrns.toml"@, ".config/hrns.toml"@];
    match home {
        Some(h) => local.push(text::path_join(h, ".config/hrns/config.toml"@)),
        None => local,
    }
}

/// the places where the configuration is looked for, first to last.
pub fn config_paths(home: Option<&str>) -> (r: Vec<String>)
    ensures
        text::texts(r@) == config_places(text::str_opt(home)),
{
    let mut r: Vec<String> = Vec::new();
    r.push("hrns.toml".to_owned());
    r.push(".hrns.toml".to_owned());
    r.push(".config/hrns.toml".to_owned());
    assert(text::texts(r@) =~= config_places(None));
    if let Some(h) = home {
        let ghost before = r@;
        let path = text::join_paths(h, ".config/hrns/config.toml");
        r.push(path);
        assert(text::texts(r@) =~= text::texts(before).push(path@));
    }
    r
}

/// the index of the first item that passes a test.
pub fn first_where<T, F: Fn(&T) -> bool>(items: &Vec<T>, test: F) -> (r: Option<usize>)
    requires
        forall|x: &T| #[trigger] call_requires(test, (x,)),
    ensures
        match r {
            Some(i) => {
                &&& i < items@.len()
                &&& call_ensures(test, (&items@[i as int],), true)
                &&& forall|j: int|
                    0 <= j < i ==> #[trigger] call_ensures(test, (&items@[j],), false)
            },
            None => forall|j: int|
                0 <= j < items@.len() ==> #[trigger] call_ensures(test, (&items@[j],), false),
        },
{
    let mut i: usize = 0;
    while i < items.len()
        invariant
            i <= items@.len(),
            forall|x: &T| #[trigger] call_requires(test, (x,)),
            forall|j: int| 0 <= j < i ==> #[trigger] call_ensures(test, (&items@[j],), false),
        decreases items@.len() - i,
    {
        if test(&items[i]) {
            return Some(i);
        }
        i += 1;
    }
    None
}

/// the configuration that a file holds, as `parse` reads it. where there is no
/// file, or an empty one, nothing is set.
pub fn load_config<E, F: Fn(&str) -> Result<Config, E>>(
    content: Option<&str>,
    parse: F,
) -> (r: Result<Config, E>)
    requires
        forall|s: &str| #[trigger] call_requires(parse, (s,)),
    ensures
        match content {
            Some(s) if s@.len() > 0 => call_ensures(parse, (s,), r),
            _ => r is Ok && sets_nothing(r->Ok_0),
        },
{
    match content {
        Some(s) => {
            if s.is_empty() {
                Ok(Config::default())
            } else {
                parse(s)
            }
        },
        None => Ok(Config::default()),
    }
}

// --- providers ---

/// the provider wiring a `<provider>/<model>` string resolves to against the
/// config: the rig client type, the bare model id, and the credentials. shared
/// by the CLI and the hmux backend so both resolve a model the same way.
#[derive(Debug, PartialEq)]
pub struct Resolved {
    pub provider_name: String,
    pub client_type: String,
    pub model_name: String,
    pub api_key: String,
    pub base_url: Option<String>,
}

/// what the wiring of a provider stands for.
pub struct Wiring {
    pub provider: Seq<char>,
    pub client: Seq<char>,
    pub model: Seq<char>,
    pub key: Seq<char>,
    pub url: Option<Seq<char>>,
}

impl View for Resolved {
    type V = Wiring;

    open spec fn view(&self) -> Wiring {
        Wiring {
            provider: self.provider_name@,
            client: self.client_type@,
            model: self.model_name@,
            key: self.api_key@,
            url: text::text_opt(self.base_url),
        }
    }
}

/// the provider and the model of a full model name: what stands before and
/// behind the first slash. without one the provider is openai.
pub open spec fn split_model(full: Seq<char>) -> (Seq<char>, Seq<char>) {
    let i = text::position(full, '/');
    if 0 <= i < full.len() {
        (full.take(i), full.skip(i + 1))
    } else {
        ("openai"@, full)
    }
}

/// the first provider of that name.
pub open spec fn provider_named(
    providers: Seq<ProviderConfig>,
    name: Seq<char>,
) -> Option<ProviderConfig>
    decreases providers.len(),
{
    if providers.len() == 0 {
        None
    } else if providers[0].name@ == name {
        Some(providers[0])
    } else {
        provider_named(providers.drop_first(), name)
    }
}

/// the client type of a provider: its own, or else the provider's name.
pub open spec fn client_of(p: Option<ProviderConfig>, name: Seq<char>) -> Seq<char> {
    match p {
        Some(p) => match p.client {
            Some(c) => c@,
            None => name,
        },
        None => name,
    }
}

/// the environment variable that holds the key for a client type.
pub open spec fn key_variable(client: Seq<char>) -> Option<Seq<char>> {
    if client == "openai"@ || client == "openai_completions"@ || client == "openai_responses"@ {
        Some("OPENAI_API_KEY"@)
    } else if client == "anthropic"@ {
        Some("ANTHROPIC_API_KEY"@)
    } else if client == "gemini"@ {
        Some("GEMINI_API_KEY"@)
    } else if client == "cohere"@ {
        Some("COHERE_API_KEY"@)
    } else if client == "xai"@ {
        Some("XAI_API_KEY"@)
    } else {
        None
    }
}

/// the key for a client type that the environment gives; empty where it gives
/// none.
pub open spec fn key_in_environment(env: Map<Seq<char>, String>, client: Seq<char>) -> Seq<char> {
    match key_variable(client) {
        Some(v) => if env.contains_key(v) {
            env[v]@
        } else {
            Seq::empty()
        },
        None => Seq::empty(),
    }
}

/// the key of a provider: its own, or else that of the environment.
pub open spec fn key_of(
    p: Option<ProviderConfig>,
    env: Map<Seq<char>, String>,
    client: Seq<char>,
) -> Seq<char> {
    match p {
        Some(p) => match p.api_key {
            Some(k) => k@,
            None => key_in_environment(env, client),
        },
        None => key_in_environment(env, client),
    }
}

/// the base url of a provider.
pub open spec fn url_of(p: Option<ProviderConfig>) -> Option<Seq<char>> {
    match p {
        Some(p) => text::text_opt(p.base_url),
        None => None,
    }
}

/// the wiring that a full model name resolves to.
pub open spec fn wiring(
    providers: Seq<ProviderConfig>,
    full: Seq<char>,
    env: Map<Seq<char>, String>,
) -> Wiring {
    let (provider, model) = split_model(full);
    let p = provider_named(providers, provider);
    let client = client_of(p, provider);
    Wiring { provider, client, model, key: key_of(p, env, client), url: url_of(p) }
}

/// the environment variable that holds the key for a client type.
pub fn api_key_variable(client: &str) -> (r: Option<&'static str>)
    ensures
        match r {
            Some(v) => key_variable(client@) == Some(v@),
            None => key_variable(client@) is None,
        },
{
    if text::str_eq(client, "openai") || text::str_eq(client, "openai_completions")
        || text::str_eq(client, "openai_responses") {
        Some("OPENAI_API_KEY")
    } else if text::str_eq(client, "anthropic") {
        Some("ANTHROPIC_API_KEY")
    } else if text::str_eq(client, "gemini") {
        Some("GEMINI_API_KEY")
    } else if text::str_eq(client, "cohere") {
        Some("COHERE_API_KEY")
    } else if text::str_eq(client, "xai") {
        Some("XAI_API_KEY")
    } else {
        None
    }
}

/// the key for a client type that the environment gives.
fn environment_key(env: &Table<String>, client: &str) -> (r: String)
    ensures
        r@ == key_in_environment(env@, client@),
{
    match api_key_variable(client) {
        Some(v) => match env.get(v) {
            Some(key) => key.clone(),
            None => String::new(),
        },
        None => String::new(),
    }
}

/// the provider and the model of a full model name.
fn split_full_name(full: &str) -> (r: (String, String))
    ensures
        (r.0@, r.1@) == split_model(full@),
{
    let chars = text::chars_of(full);
    let i = text::position_from(chars.as_slice(), 0, '/');
    assert(chars@.skip(0) =~= chars@);
    if i < chars.len() {
        (full.substring_char(0, i).to_owned(), full.substring_char(i + 1, chars.len()).to_owned())
    } else {
        ("openai".to_owned(), full.to_owned())
    }
}

/// the first provider of that name.
fn find_provider<'a>(providers: &'a Vec<ProviderConfig>, name: &str) -> (r: Option<
    &'a ProviderConfig,
>)
    ensures
        match r {
            Some(p) => provider_named(providers@, name@) == Some(*p),
            None => provider_named(providers@, name@) is None,
        },
{
    let mut i: usize = 0;
    assert(providers@.skip(0) =~= providers@);
    while i < providers.len()
        invariant
            i <= providers@.len(),
            provider_named(providers@, name@) == provider_named(
                providers@.skip(i as int),
                name@,
            ),
        decreases providers@.len() - i,
    {
        let ghost rest = providers@.skip(i as int);
        assert(rest[0] == providers@[i as int]);
        assert(rest.drop_first() =~= providers@.skip(i + 1));
        if text::str_eq(providers[i].name.as_str(), name) {
            return Some(&providers[i]);
        }
        i += 1;
    }
    None
}

/// resolves `full_model_name` (`<provider>/<model>`, provider defaulting to
/// openai) against the config's providers. the api key falls back to the
/// conventional env var per client type (OPENAI_API_KEY, ANTHROPIC_API_KEY, ...)
/// so a keyless local server still works and a hosted one errors upstream. `env`
/// holds the environment's variables.
pub fn resolve_provider(config: &Config, full_model_name: &str, env: &Table<String>) -> (r:
    Resolved)
    ensures
        ({
            let (provider, model) = split_model(full_model_name@);
            let p = provider_named(config.providers@, provider);
            let client = client_of(p, provider);
            &&& r.provider_name@ == provider
            &&& r.client_type@ == client
            &&& r.model_name@ == model
            &&& r.api_key@ == key_of(p, env@, client)
            &&& text::text_opt(r.base_url) == url_of(p)
        }),
        r@ == wiring(config.providers@, full_model_name@, env@),
{
    let (provider_name, model_name) = split_full_name(full_model_name);
    match find_provider(&config.providers, provider_name.as_str()) {
        Some(p) => {
            let client_type = match &p.client {
                Some(c) => c.clone(),
                None => provider_name.clone(),
            };
            let api_key = match &p.api_key {
                Some(k) => k.clone(),
                None => environment_key(env, client_type.as_str()),
            };
            Resolved {
                provider_name,
                client_type,
                model_name,
                api_key,
                base_url: text::copy_opt(&p.base_url),
            }
        },
        None => {
            let client_type = provider_name.clone();
            let api_key = environment_key(env, client_type.as_str());
            Resolved { provider_name, client_type, model_name, api_key, base_url: None }
        },
    }
}

// --- laws ---

/// where there is a list, the gates make no difference: exactly the listed names
/// are active.
pub proof fn law_list_is_exclusive(
    a: Map<Seq<char>, bool>,
    b: Map<Seq<char>, bool>,
    name: Seq<char>,
    list: Vec<String>,
)
    ensures
        active(a, name, Some(list)) == active(b, name, Some(list)),
        active(a, name, Some(list)) == text::texts(list@).contains(name),
{
}

/// nothing is active that no pattern matches.
pub proof fn law_shut_by_default(gates: Map<Seq<char>, bool>, name: Seq<char>)
    requires
        forall|p: Seq<char>| gates.contains_key(p) ==> !#[trigger] glob::matches(p, name, false),
    ensures
        !enabled(gates, name),
{
    let score = glob::by_prefix(name);
    assert forall|q: Seq<char>| !(#[trigger] gates.dom().contains(q) && score(q) is Some) by {
        if gates.contains_key(q) {
            assert(!glob::matches(q, name, false));
        }
    }
}

/// a gate with the very name decides, whatever the other patterns say.
pub proof fn law_exact_gate_decides(gates: Map<Seq<char>, bool>, name: Seq<char>)
    requires
        gates.contains_key(name),
        glob::wildcards(name) == 0,
    ensures
        enabled(gates, name) == gates[name],
{
    glob::law_exact_entry_wins(gates.dom(), name);
}

/// a gate `*` decides where no other pattern matches.
pub proof fn law_star_is_the_default(gates: Map<Seq<char>, bool>, name: Seq<char>)
    requires
        gates.contains_key(seq!['*']),
        forall|p: Seq<char>|
            gates.contains_key(p) && p != seq!['*'] ==> !#[trigger] glob::matches(p, name, false),
    ensures
        enabled(gates, name) == gates[seq!['*']],
{
    let star = seq!['*'];
    let score = glob::by_prefix(name);
    glob::law_stars(star, name, false);
    assert forall|q: Seq<char>| #[trigger]
        gates.dom().contains(q) && score(q) is Some && q != star implies glob::preferred(
        score,
        star,
        q,
    ) by {
        assert(!glob::matches(q, name, false));
    }
    glob::lemma_best(gates.dom(), score, star);
}

/// in merged gates the second ones count.
pub proof fn law_second_gates_count(
    a: Map<Seq<char>, bool>,
    b: Map<Seq<char>, bool>,
    name: Seq<char>,
)
    requires
        b.contains_key(name),
        glob::wildcards(name) == 0,
    ensures
        enabled(a.union_prefer_right(b), name) == b[name],
{
    law_exact_gate_decides(a.union_prefer_right(b), name);
}

/// a full model name with a slash is its provider, the slash and its model; the
/// provider has no slash.
pub proof fn law_model_name_parts(full: Seq<char>)
    requires
        full.contains('/'),
    ensures
        full == split_model(full).0 + seq!['/'] + split_model(full).1,
        !split_model(full).0.contains('/'),
{
    text::lemma_position(full, '/');
    let i = text::position(full, '/');
    let k = choose|k: int| 0 <= k < full.len() && full[k] == '/';
    assert(i <= k);
    assert(full =~= full.take(i) + seq!['/'] + full.skip(i + 1));
    assert forall|j: int| 0 <= j < i implies full.take(i)[j] != '/' by {
        assert(full[j] != '/');
    }
}

/// a key in the configuration is used whatever the environment holds.
pub proof fn law_configured_key_counts(
    p: ProviderConfig,
    env: Map<Seq<char>, String>,
    client: Seq<char>,
)
    requires
        p.api_key is Some,
    ensures
        key_of(Some(p), env, client) == p.api_key->0@,
{
}

/// the last place is the global one; the project's own come first.
pub proof fn law_project_places_first(home: Seq<char>)
    ensures
        config_places(Some(home)).drop_last() == config_places(None),
        config_places(Some(home)).last() == text::path_join(home, ".config/hrns/config.toml"@),
{
    assert(config_places(Some(home)).drop_last() =~= config_places(None));
}

/// a gate decides where each other one that matches the name has a shorter literal
/// prefix, or at equal prefixes fewer literal bytes, or at equal literal bytes more
/// wildcards.
pub proof fn law_most_specific_gate_decides(
    gates: Map<Seq<char>, bool>,
    name: Seq<char>,
    p: Seq<char>,
)
    requires
        gates.contains_key(p),
        glob::matches(p, name, false),
        forall|q: Seq<char>| #[trigger]
            gates.contains_key(q) && q != p && glob::matches(q, name, false)
                ==> glob::literal_prefix(q) < glob::literal_prefix(p) || glob::literal_prefix(q)
                == glob::literal_prefix(p) && (glob::specificity(q) < glob::specificity(p)
                || glob::specificity(q) == glob::specificity(p) && glob::wildcards(q)
                > glob::wildcards(p)),
    ensures
        enabled(gates, name) == gates[p],
{
    assert forall|q: Seq<char>| #[trigger]
        gates.dom().contains(q) && q != p && glob::matches(q, name, false) implies glob::literal_prefix(
        q,
    ) < glob::literal_prefix(p) || glob::literal_prefix(q) == glob::literal_prefix(p) && (
    glob::specificity(q) < glob::specificity(p) || glob::specificity(q) == glob::specificity(p)
        && glob::wildcards(q) > glob::wildcards(p)) by {
        assert(gates.contains_key(q) && q != p && glob::matches(q, name, false));
    }
    glob::law_best_of_lookup(gates.dom(), name, p);
}

/// without a list the gates decide.
pub proof fn law_gates_decide_without_list(gates: Map<Seq<char>, bool>, name: Seq<char>)
    ensures
        active(gates, name, None) == enabled(gates, name),
{
}

/// a listed name is active, and one that is not listed is not.
pub proof fn law_listed_names_are_active(
    gates: Map<Seq<char>, bool>,
    name: Seq<char>,
    list: Vec<String>,
)
    ensures
        active(gates, name, Some(list)) <==> exists|i: int|
            0 <= i < list@.len() && (#[trigger] list@[i])@ == name,
{
    let names = text::texts(list@);
    if names.contains(name) {
        let i = choose|i: int| 0 <= i < names.len() && names[i] == name;
        assert(list@[i]@ == name);
    }
    if exists|i: int| 0 <= i < list@.len() && (#[trigger] list@[i])@ == name {
        let i = choose|i: int| 0 <= i < list@.len() && (#[trigger] list@[i])@ == name;
        assert(names[i] == name);
    }
}

/// a name without a slash is a model of openai.
pub proof fn law_bare_model_name(full: Seq<char>)
    requires
        !full.contains('/'),
    ensures
        split_model(full) == ("openai"@, full),
{
    text::lemma_position(full, '/');
    let i = text::position(full, '/');
    if i < full.len() {
        assert(full.contains(full[i]));
    }
}

/// a provider and a model with a slash between them are split again, whatever
/// slashes the model has.
pub proof fn law_full_model_name(provider: Seq<char>, model: Seq<char>)
    requires
        !provider.contains('/'),
    ensures
        split_model(provider + seq!['/'] + model) == (provider, model),
{
    let full = provider + seq!['/'] + model;
    assert forall|j: int| 0 <= j < provider.len() implies full[j] != '/' by {
        assert(full[j] == provider[j]);
        assert(provider.contains(provider[j]));
    }
    text::lemma_position_unique(full, '/', provider.len() as int);
    assert(full.take(provider.len() as int) =~= provider);
    assert(full.skip(provider.len() as int + 1) =~= model);
}

/// the first provider of a name is the one that counts.
pub proof fn law_first_provider_counts(providers: Seq<ProviderConfig>, name: Seq<char>, i: int)
    requires
        0 <= i < providers.len(),
        providers[i].name@ == name,
        forall|j: int| 0 <= j < i ==> (#[trigger] providers[j]).name@ != name,
    ensures
        provider_named(providers, name) == Some(providers[i]),
    decreases i,
{
    if i > 0 {
        let rest = providers.drop_first();
        assert(providers[0].name@ != name);
        assert forall|j: int| 0 <= j < i - 1 implies (#[trigger] rest[j]).name@ != name by {
            assert(rest[j] == providers[j + 1]);
        }
        law_first_provider_counts(rest, name, i - 1);
    }
}

/// there is no provider of a name that none has.
pub proof fn law_unknown_provider(providers: Seq<ProviderConfig>, name: Seq<char>)
    requires
        forall|j: int| 0 <= j < providers.len() ==> (#[trigger] providers[j]).name@ != name,
    ensures
        provider_named(providers, name) is None,
    decreases providers.len(),
{
    if providers.len() > 0 {
        let rest = providers.drop_first();
        assert(providers[0].name@ != name);
        assert forall|j: int| 0 <= j < rest.len() implies (#[trigger] rest[j]).name@ != name by {
            assert(rest[j] == providers[j + 1]);
        }
        law_unknown_provider(rest, name);
    }
}

/// a model of a configured provider is resolved by that provider's settings: its
/// client where it sets one and else its name, its own key where it sets one, and
/// its base url.
pub proof fn law_configured_provider(
    providers: Seq<ProviderConfig>,
    i: int,
    model: Seq<char>,
    env: Map<Seq<char>, String>,
)
    requires
        0 <= i < providers.len(),
        !providers[i].name@.contains('/'),
        forall|j: int| 0 <= j < i ==> (#[trigger] providers[j]).name@ != providers[i].name@,
    ensures
        ({
            let p = providers[i];
            let w = wiring(providers, p.name@ + seq!['/'] + model, env);
            &&& w.provider == p.name@
            &&& w.model == model
            &&& w.client == if p.client is Some {
                p.client->0@
            } else {
                p.name@
            }
            &&& p.api_key is Some ==> w.key == p.api_key->0@
            &&& p.base_url is Some ==> w.url == Some(p.base_url->0@)
            &&& p.base_url is None ==> w.url is None
        }),
{
    law_full_model_name(providers[i].name@, model);
    law_first_provider_counts(providers, providers[i].name@, i);
}

/// a model of a provider that is not configured goes to the client of that name,
/// without a base url.
pub proof fn law_unconfigured_provider(
    providers: Seq<ProviderConfig>,
    name: Seq<char>,
    model: Seq<char>,
    env: Map<Seq<char>, String>,
)
    requires
        !name.contains('/'),
        forall|j: int| 0 <= j < providers.len() ==> (#[trigger] providers[j]).name@ != name,
    ensures
        ({
            let w = wiring(providers, name + seq!['/'] + model, env);
            &&& w.provider == name
            &&& w.client == name
            &&& w.model == model
            &&& w.url is None
        }),
{
    law_full_model_name(name, model);
    law_unknown_provider(providers, name);
}

/// the value of a variable; empty where it is not set.
pub open spec fn variable_value(env: Map<Seq<char>, String>, name: Seq<char>) -> Seq<char> {
    if env.contains_key(name) {
        env[name]@
    } else {
        Seq::empty()
    }
}

/// the names of the client types are told apart.
proof fn lemma_client_names()
    ensures
        "openai"@ != "anthropic"@,
        "openai"@ != "gemini"@,
        "openai"@ != "cohere"@,
        "openai"@ != "xai"@,
        "openai_completions"@ != "anthropic"@,
        "openai_completions"@ != "gemini"@,
        "openai_completions"@ != "cohere"@,
        "openai_completions"@ != "xai"@,
        "openai_responses"@ != "anthropic"@,
        "openai_responses"@ != "gemini"@,
        "openai_responses"@ != "cohere"@,
        "openai_responses"@ != "xai"@,
        "anthropic"@ != "gemini"@,
        "anthropic"@ != "cohere"@,
        "anthropic"@ != "xai"@,
        "gemini"@ != "cohere"@,
        "gemini"@ != "xai"@,
        "cohere"@ != "xai"@,
{
    reveal_strlit("openai");
    reveal_strlit("openai_completions");
    reveal_strlit("openai_responses");
    reveal_strlit("anthropic");
    reveal_strlit("gemini");
    reveal_strlit("cohere");
    reveal_strlit("xai");
    assert("openai"@[0] == 'o' && "openai_completions"@[0] == 'o' && "openai_responses"@[0] == 'o'
        && "anthropic"@[0] == 'a' && "gemini"@[0] == 'g' && "cohere"@[0] == 'c' && "xai"@[0]
        == 'x');
}

/// where a provider sets no key, its client type decides from which variable it
/// comes, whatever the provider is named.
pub proof fn law_key_goes_by_client(
    providers: Seq<ProviderConfig>,
    full: Seq<char>,
    env: Map<Seq<char>, String>,
)
    requires
        provider_named(providers, split_model(full).0) is Some ==> provider_named(
            providers,
            split_model(full).0,
        )->0.api_key is None,
    ensures
        ({
            let w = wiring(providers, full, env);
            let openai = w.client == "openai"@ || w.client == "openai_completions"@ || w.client
                == "openai_responses"@;
            &&& openai ==> w.key == variable_value(env, "OPENAI_API_KEY"@)
            &&& w.client == "anthropic"@ ==> w.key == variable_value(env, "ANTHROPIC_API_KEY"@)
            &&& w.client == "gemini"@ ==> w.key == variable_value(env, "GEMINI_API_KEY"@)
            &&& w.client == "cohere"@ ==> w.key == variable_value(env, "COHERE_API_KEY"@)
            &&& w.client == "xai"@ ==> w.key == variable_value(env, "XAI_API_KEY"@)
            &&& !openai && w.client != "anthropic"@ && w.client != "gemini"@ && w.client
                != "cohere"@ && w.client != "xai"@ ==> w.key.len() == 0
        }),
{
    lemma_client_names();
}

/// the key of a configured provider without one is that of its client, by the
/// client's variable: that of the environment alone counts, and not the name.
pub proof fn law_key_ignores_provider_name(
    p: ProviderConfig,
    q: ProviderConfig,
    env: Map<Seq<char>, String>,
    client: Seq<char>,
)
    requires
        p.api_key is None,
        q.api_key is None,
    ensures
        key_of(Some(p), env, client) == key_of(Some(q), env, client),
        key_of(Some(p), env, client) == key_of(None, env, client),
        client == "anthropic"@ ==> key_of(Some(p), env, client) == variable_value(
            env,
            "ANTHROPIC_API_KEY"@,
        ),
{
    lemma_client_names();
}

/// the project's configuration is looked for in three places, the visible file
/// first, and the global one below the home directory.
pub proof fn law_config_places(home: Option<Seq<char>>)
    ensures
        config_places(home)[0] == "hrns.toml"@,
        config_places(home)[1] == ".hrns.toml"@,
        config_places(home)[2] == ".config/hrns.toml"@,
        config_places(home).len() == if home is Some { 4int } else { 3 },
        home is Some ==> config_places(home)[3] == text::path_join(
            home->0,
            ".config/hrns/config.toml"@,
        ),
{
}

/// a configuration that sets nothing enables nothing, permits nothing, and has no
/// provider.
pub proof fn law_nothing_is_set(c: Config, name: Seq<char>, s: Seq<char>)
    requires
        sets_nothing(c),
    ensures
        !enabled(c.tools@, name),
        !enabled(c.hooks@, name),
        !enabled(c.skills@, name),
        crate::permission::verdict(c.permissions@, name, s, false)
            == crate::permission::PermissionLevel::Deny,
        provider_named(c.providers@, name) is None,
        c.default_model is None,
        c.default_max_tokens is None,
        c.default_max_turns is None,
        c.default_system_prompt is None,
        c.tool_output_truncate is None,
{
    law_shut_by_default(c.tools@, name);
    crate::permission::law_unmatched_tool_is_denied(c.permissions@, name, s, false);
}

} // verus!
