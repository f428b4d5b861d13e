//! the permission model: each tool maps to a flat level (allow/ask/deny) or a
//! glob-pattern map. the "ask" decision is resolved by a caller-supplied
//! `PermissionResolver`, so the core stays tty-agnostic.

use crate::glob;
use crate::table;
use crate::table::Table;
use crate::text;
use vstd::prelude::*;

verus! {

#[derive(Debug, Clone, Copy, PartialEq, Eq, Structural)]
pub enum PermissionLevel {
    Allow,
    Ask,
    Deny,
}

/// a permission can be a single level or a map of glob patterns to levels.
/// patterns support gitignore-style globs: `*` (non-slash), `**` (any), `?`.
/// when multiple patterns match, the most specific (fewest wildcards) wins.
#[derive(Debug, PartialEq)]
pub enum Permission {
    Level(PermissionLevel),
    Patterns(Table<PermissionLevel>),
}

/// what a permission stands for.
pub enum Rule {
    Level(PermissionLevel),
    Patterns(Map<Seq<char>, PermissionLevel>),
}

impl View for Permission {
    type V = Rule;

    open spec fn view(&self) -> Rule {
        match *self {
            Permission::Level(l) => Rule::Level(l),
            Permission::Patterns(t) => Rule::Patterns(t@),
        }
    }
}

impl Clone for Permission {
    fn clone(&self) -> (r: Self)
        ensures
            r@ == self@,
    {
        match self {
            Permission::Level(l) => Permission::Level(*l),
            Permission::Patterns(t) => Permission::Patterns(t.copied()),
        }
    }
}

/// what a table of permissions stands for.
pub open spec fn rules(m: Map<Seq<char>, Permission>) -> Map<Seq<char>, Rule> {
    m.map_values(|p: Permission| p@)
}

// --- what a rule decides ---

/// a pattern without its trailing ` **` or ` *`.
pub open spec fn without_arguments(p: Seq<char>) -> Option<Seq<char>> {
    if seq![' ', '*', '*'].is_suffix_of(p) {
        Some(p.take(p.len() - 3))
    } else if seq![' ', '*'].is_suffix_of(p) {
        Some(p.take(p.len() - 2))
    } else {
        None
    }
}

/// a pattern of a permission applies to an input: as it stands, or with its
/// trailing ` *` or ` **` left off, so that `ls *` also matches `ls`.
pub open spec fn applies(p: Seq<char>, s: Seq<char>, path_mode: bool) -> bool {
    glob::matches(p, s, path_mode) || match without_arguments(p) {
        Some(q) => glob::matches(q, s, path_mode),
        None => false,
    }
}

/// ranks the patterns of a permission that apply to an input: the one with the
/// fewest wildcards comes first, then the one with the most literal bytes.
pub open spec fn by_rule(s: Seq<char>, path_mode: bool) -> glob::Score {
    |p: Seq<char>|
        if applies(p, s, path_mode) {
            Some(
                glob::Rank {
                    first: -(glob::wildcards(p) as int),
                    second: glob::specificity(p) as int,
                    third: 0,
                },
            )
        } else {
            None
        }
}

/// ranks the entries whose names match a tool's: the most specific one comes
/// first, then the one with the fewest wildcards.
pub open spec fn by_entry(tool: Seq<char>) -> glob::Score {
    |p: Seq<char>|
        if glob::matches(p, tool, false) {
            Some(
                glob::Rank {
                    first: glob::specificity(p) as int,
                    second: -(glob::wildcards(p) as int),
                    third: 0,
                },
            )
        } else {
            None
        }
}

/// the level that a rule gives for an input; where no pattern applies, deny.
pub open spec fn level_for(rule: Rule, s: Seq<char>, path_mode: bool) -> PermissionLevel {
    match rule {
        Rule::Level(l) => l,
        Rule::Patterns(m) => match glob::best(m.dom(), by_rule(s, path_mode)) {
            Some(p) => m[p],
            None => PermissionLevel::Deny,
        },
    }
}

/// the level that a set of rules gives for a tool and an input; where no entry
/// matches the tool's name, deny.
pub open spec fn verdict(
    m: Map<Seq<char>, Rule>,
    tool: Seq<char>,
    s: Seq<char>,
    path_mode: bool,
) -> PermissionLevel {
    match glob::best(m.dom(), by_entry(tool)) {
        Some(p) => level_for(m[p], s, path_mode),
        None => PermissionLevel::Deny,
    }
}

// --- levels ---

/// the level with the given name.
pub open spec fn level_named(s: Seq<char>) -> Option<PermissionLevel> {
    if s == "allow"@ {
        Some(PermissionLevel::Allow)
    } else if s == "ask"@ {
        Some(PermissionLevel::Ask)
    } else if s == "deny"@ {
        Some(PermissionLevel::Deny)
    } else {
        None
    }
}

/// the complaint about a name that is no level.
pub open spec fn bad_level(s: Seq<char>) -> Seq<char> {
    "invalid permission level '"@ + s + "', expected 'allow', 'ask', or 'deny'"@
}

/// the level with the given name.
pub fn find_level(s: &str) -> (r: Option<PermissionLevel>)
    ensures
        r == level_named(s@),
{
    if text::str_eq(s, "allow") {
        Some(PermissionLevel::Allow)
    } else if text::str_eq(s, "ask") {
        Some(PermissionLevel::Ask)
    } else if text::str_eq(s, "deny") {
        Some(PermissionLevel::Deny)
    } else {
        None
    }
}

/// reads a level from its name.
pub fn parse_level(s: &str) -> (r: Result<PermissionLevel, String>)
    ensures
        match r {
            Ok(l) => level_named(s@) == Some(l),
            Err(e) => level_named(s@) is None && e@ == bad_level(s@),
        },
{
    match find_level(s) {
        Some(l) => Ok(l),
        None => Err(
            text::concat3(
                "invalid permission level '",
                s,
                "', expected 'allow', 'ask', or 'deny'",
            ),
        ),
    }
}

/// the name of a level.
pub open spec fn level_name(l: PermissionLevel) -> Seq<char> {
    match l {
        PermissionLevel::Allow => "allow"@,
        PermissionLevel::Ask => "ask"@,
        PermissionLevel::Deny => "deny"@,
    }
}

pub fn permission_level_str(l: &PermissionLevel) -> (r: &'static str)
    ensures
        r@ == level_name(*l),
{
    match l {
        PermissionLevel::Allow => "allow",
        PermissionLevel::Ask => "ask",
        PermissionLevel::Deny => "deny",
    }
}

/// reading the name of a level gives the level back.
pub proof fn law_level_names(l: PermissionLevel)
    ensures
        level_named(level_name(l)) == Some(l),
{
    reveal_strlit("allow");
    reveal_strlit("ask");
    reveal_strlit("deny");
    assert("allow"@.len() == 5 && "ask"@.len() == 3 && "deny"@.len() == 4);
}

// --- reading a permission from a document ---

/// a key or value of a document: its text, if it is one, and how it is shown
/// in a complaint.
#[derive(Debug, PartialEq)]
pub struct Scalar {
    pub text: Option<String>,
    pub shown: String,
}

/// the part of a document that a permission is read from.
#[derive(Debug, PartialEq)]
pub enum PermissionNode {
    Text(String),
    Mapping(Vec<(Scalar, Scalar)>),
    Other(String),
}

/// reads one entry of a pattern map: the pattern with its level, or a complaint.
pub open spec fn entry_meaning(key: Scalar, value: Scalar) -> Result<
    (Seq<char>, PermissionLevel),
    Seq<char>,
> {
    match key.text {
        None => Err("expected string key, got "@ + key.shown@),
        Some(k) => match value.text {
            None => Err(
                "pattern '"@ + k@ + "': expected 'allow', 'ask', or 'deny', got "@ + value.shown@,
            ),
            Some(v) => match level_named(v@) {
                Some(l) => Ok((k@, l)),
                None => Err("pattern '"@ + k@ + "': "@ + bad_level(v@)),
            },
        },
    }
}

/// reads a pattern map: the first complaint, or the patterns with their levels.
pub open spec fn entries_meaning(s: Seq<(Scalar, Scalar)>) -> Result<
    Map<Seq<char>, PermissionLevel>,
    Seq<char>,
>
    decreases s.len(),
{
    if s.len() == 0 {
        Ok(Map::empty())
    } else {
        match entries_meaning(s.drop_last()) {
            Err(e) => Err(e),
            Ok(m) => match entry_meaning(s.last().0, s.last().1) {
                Err(e) => Err(e),
                Ok((k, l)) => Ok(m.insert(k, l)),
            },
        }
    }
}

/// reads a permission.
pub open spec fn node_meaning(node: PermissionNode) -> Result<Rule, Seq<char>> {
    match node {
        PermissionNode::Text(s) => match level_named(s@) {
            Some(l) => Ok(Rule::Level(l)),
            None => Err(bad_level(s@)),
        },
        PermissionNode::Mapping(entries) => match entries_meaning(entries@) {
            Ok(m) => Ok(Rule::Patterns(m)),
            Err(e) => Err(e),
        },
        PermissionNode::Other(shown) => Err(
            "expected a permission level string or a map of patterns, got "@ + shown@,
        ),
    }
}

/// reads one entry of a pattern map.
fn read_entry(key: &Scalar, value: &Scalar) -> (r: Result<(String, PermissionLevel), String>)
    ensures
        match r {
            Ok((k, l)) => entry_meaning(*key, *value) == Ok::<_, Seq<char>>((k@, l)),
            Err(e) => entry_meaning(*key, *value) == Err::<(Seq<char>, PermissionLevel), _>(e@),
        },
{
    let k = match &key.text {
        Some(k) => k,
        None => {
            return Err(text::concat2("expected string key, got ", key.shown.as_str()));
        },
    };
    let v = match &value.text {
        Some(v) => v,
        None => {
            let mut e = text::concat3(
                "pattern '",
                k.as_str(),
                "': expected 'allow', 'ask', or 'deny', got ",
            );
            e.append(value.shown.as_str());
            return Err(e);
        },
    };
    match parse_level(v.as_str()) {
        Ok(l) => Ok((k.clone(), l)),
        Err(complaint) => {
            let mut e = text::concat3("pattern '", k.as_str(), "': ");
            e.append(complaint.as_str());
            Err(e)
        },
    }
}

/// once an entry is bad, the complaint stays.
proof fn lemma_first_complaint(s: Seq<(Scalar, Scalar)>, n: int)
    requires
        0 <= n <= s.len(),
        entries_meaning(s.take(n)) is Err,
    ensures
        entries_meaning(s) == entries_meaning(s.take(n)),
    decreases s.len() - n,
{
    if n < s.len() {
        assert(s.take(n + 1).drop_last() =~= s.take(n));
        lemma_first_complaint(s, n + 1);
    } else {
        assert(s.take(n) =~= s);
    }
}

/// reads a permission: a level, or a map of patterns to levels.
pub fn permission_from_node(node: &PermissionNode) -> (r: Result<Permission, String>)
    ensures
        match r {
            Ok(p) => node_meaning(*node) == Ok::<_, Seq<char>>(p@),
            Err(e) => node_meaning(*node) == Err::<Rule, _>(e@),
        },
{
    match node {
        PermissionNode::Text(s) => match parse_level(s.as_str()) {
            Ok(l) => Ok(Permission::Level(l)),
            Err(e) => Err(e),
        },
        PermissionNode::Mapping(entries) => {
            let mut patterns: Table<PermissionLevel> = Table::new();
            let mut i: usize = 0;
            assert(entries@.take(0) =~= Seq::empty());
            while i < entries.len()
                invariant
                    i <= entries@.len(),
                    *node == PermissionNode::Mapping(*entries),
                    entries_meaning(entries@.take(i as int)) == Ok::<_, Seq<char>>(patterns@),
                decreases entries@.len() - i,
            {
                assert(entries@.take(i + 1).drop_last() =~= entries@.take(i as int));
                match read_entry(&entries[i].0, &entries[i].1) {
                    Ok((k, l)) => {
                        patterns.insert(k, l);
                    },
                    Err(e) => {
                        proof {
                            lemma_first_complaint(entries@, i + 1);
                        }
                        return Err(e);
                    },
                }
                i += 1;
            }
            assert(entries@.take(entries@.len() as int) =~= entries@);
            Ok(Permission::Patterns(patterns))
        },
        PermissionNode::Other(shown) => Err(
            text::concat2(
                "expected a permission level string or a map of patterns, got ",
                shown.as_str(),
            ),
        ),
    }
}

// --- checking ---

/// the pattern with its trailing ` **` or ` *` left off, if it has one.
fn strip_arguments(pattern: &str) -> (r: Option<String>)
    ensures
        match r {
            Some(q) => without_arguments(pattern@) == Some(q@),
            None => without_arguments(pattern@) is None,
        },
{
    proof {
        reveal_strlit(" **");
        reveal_strlit(" *");
        assert(" **"@ =~= seq![' ', '*', '*']);
        assert(" *"@ =~= seq![' ', '*']);
    }
    let n = pattern.unicode_len();
    if text::ends_with(pattern, " **") {
        let q = pattern.substring_char(0, n - 3);
        assert(q@ =~= pattern@.take(pattern@.len() - 3));
        Some(q.to_owned())
    } else if text::ends_with(pattern, " *") {
        let q = pattern.substring_char(0, n - 2);
        assert(q@ =~= pattern@.take(pattern@.len() - 2));
        Some(q.to_owned())
    } else {
        None
    }
}

/// ranks the patterns of a permission for an input.
struct ByRule<'a> {
    input: &'a str,
    path_mode: bool,
}

impl<'a> glob::Ranking for ByRule<'a> {
    closed spec fn score(&self) -> glob::Score {
        by_rule(self.input@, self.path_mode)
    }

    fn rank(&self, pattern: &str) -> (r: Option<glob::Standing>) {
        let found = glob::glob_matches(pattern, self.input, self.path_mode).is_some()
            || match strip_arguments(pattern) {
            Some(prefix) => glob::glob_matches(
                prefix.as_str(),
                self.input,
                self.path_mode,
            ).is_some(),
            None => false,
        };
        if found {
            Some(
                glob::Standing {
                    first: -(glob::pattern_wildcards(pattern) as i128),
                    second: glob::literal_bytes(pattern) as i128,
                    third: 0,
                },
            )
        } else {
            None
        }
    }
}

/// ranks the entries for a tool.
struct ByEntry<'a> {
    tool: &'a str,
}

impl<'a> glob::Ranking for ByEntry<'a> {
    closed spec fn score(&self) -> glob::Score {
        by_entry(self.tool@)
    }

    fn rank(&self, pattern: &str) -> (r: Option<glob::Standing>) {
        match glob::glob_matches(pattern, self.tool, false) {
            Some(n) => Some(
                glob::Standing {
                    first: n as i128,
                    second: -(glob::pattern_wildcards(pattern) as i128),
                    third: 0,
                },
            ),
            None => None,
        }
    }
}

impl Permission {
    /// checks the permission level for the given input.
    /// `path_mode`: when true, `*` stops at `/` boundaries (for file paths).
    /// when false, `*` matches any character (for commands).
    pub fn check(&self, input: &str, path_mode: bool) -> (r: PermissionLevel)
        ensures
            r == level_for(self@, input@, path_mode),
    {
        match self {
            Permission::Level(level) => *level,
            Permission::Patterns(patterns) => match glob::find_best(
                patterns,
                &ByRule { input, path_mode },
            ) {
                Some(i) => *patterns.value_at(i),
                None => PermissionLevel::Deny,
            },
        }
    }
}

#[derive(Debug, PartialEq)]
pub struct PermissionsConfig {
    pub tools: Table<Permission>,
}

impl View for PermissionsConfig {
    type V = Map<Seq<char>, Rule>;

    open spec fn view(&self) -> Map<Seq<char>, Rule> {
        rules(self.tools@)
    }
}

impl Default for PermissionsConfig {
    fn default() -> (r: Self)
        ensures
            r@ == Map::<Seq<char>, Rule>::empty(),
    {
        let r = PermissionsConfig { tools: Table::new() };
        assert(r@ =~= Map::empty());
        r
    }
}

impl Clone for PermissionsConfig {
    fn clone(&self) -> (r: Self)
        ensures
            r@ == self@,
    {
        let mut out: Table<Permission> = Table::new();
        let n = self.tools.len();
        let ghost list = self.tools.list();
        let mut i: usize = 0;
        assert(list.take(0) =~= Seq::empty());
        assert(rules(out@) =~= rules(table::map_of(list.take(0))));
        while i < n
            invariant
                i <= n,
                n == list.len(),
                list == self.tools.list(),
                rules(out@) == rules(table::map_of(list.take(i as int))),
            decreases n - i,
        {
            let ghost before = out@;
            let ghost seen = table::map_of(list.take(i as int));
            let key = self.tools.key_at(i).clone();
            let value = self.tools.value_at(i).clone();
            proof {
                assert(list.take(i + 1).drop_last() =~= list.take(i as int));
                assert(rules(before.insert(key@, value)) =~= rules(before).insert(key@, value@));
                assert(rules(seen.insert(key@, list[i as int].1)) =~= rules(seen).insert(
                    key@,
                    value@,
                ));
            }
            out.insert(key, value);
            i += 1;
        }
        assert(list.take(n as int) =~= list);
        PermissionsConfig { tools: out }
    }
}

// --- overrides ---

/// a single CLI permission override, built from `--permissions-{allow,ask,deny}`.
/// shapes for the flag value:
///   `TOOL`                   -> pattern is None (replaces tool entry)
///   `TOOL:PATTERN`           -> pattern merges into the tool's map
#[derive(Debug, PartialEq)]
pub struct PermissionOverride {
    pub tool: String,
    pub pattern: Option<String>,
    pub level: PermissionLevel,
}

/// what an override stands for.
pub struct Override {
    pub tool: Seq<char>,
    pub pattern: Option<Seq<char>>,
    pub level: PermissionLevel,
}

impl View for PermissionOverride {
    type V = Override;

    open spec fn view(&self) -> Override {
        Override {
            tool: self.tool@,
            pattern: match self.pattern {
                Some(p) => Some(p@),
                None => None,
            },
            level: self.level,
        }
    }
}

impl Clone for PermissionOverride {
    fn clone(&self) -> (r: Self)
        ensures
            r@ == self@,
    {
        PermissionOverride {
            tool: self.tool.clone(),
            pattern: text::copy_opt(&self.pattern),
            level: self.level,
        }
    }
}

/// what a list of overrides stands for.
pub open spec fn override_models(s: Seq<PermissionOverride>) -> Seq<Override> {
    Seq::new(s.len(), |i: int| s[i]@)
}

/// the patterns that a rule is extended from: its own; for a level, `**` with
/// that level.
pub open spec fn patterns_of(rule: Rule) -> Map<Seq<char>, PermissionLevel> {
    match rule {
        Rule::Patterns(m) => m,
        Rule::Level(l) => Map::empty().insert("**"@, l),
    }
}

/// the patterns that the entry of a tool is extended from.
pub open spec fn base_patterns(m: Map<Seq<char>, Rule>, tool: Seq<char>) -> Map<
    Seq<char>,
    PermissionLevel,
> {
    if m.contains_key(tool) {
        patterns_of(m[tool])
    } else {
        Map::empty()
    }
}

/// the rules with one override applied.
pub open spec fn overridden(m: Map<Seq<char>, Rule>, o: Override) -> Map<Seq<char>, Rule> {
    match o.pattern {
        None => m.insert(o.tool, Rule::Level(o.level)),
        Some(p) => m.insert(o.tool, Rule::Patterns(base_patterns(m, o.tool).insert(p, o.level))),
    }
}

/// the rules with a list of overrides applied one after the other.
pub open spec fn all_overridden(m: Map<Seq<char>, Rule>, list: Seq<Override>) -> Map<
    Seq<char>,
    Rule,
>
    decreases list.len(),
{
    if list.len() == 0 {
        m
    } else {
        overridden(all_overridden(m, list.drop_last()), list.last())
    }
}

impl PermissionsConfig {
    /// the entries of both; those of `other` replace those with the same names.
    pub fn merge(self, other: PermissionsConfig) -> (r: PermissionsConfig)
        ensures
            r@ == self@.union_prefer_right(other@),
    {
        let mut merged = self.tools;
        merged.extend(other.tools);
        let r = PermissionsConfig { tools: merged };
        assert(r@ =~= self@.union_prefer_right(other@));
        r
    }

    /// applies one override.
    fn apply_override(self, ov: &PermissionOverride) -> (r: Self)
        ensures
            r@ == overridden(self@, ov@),
    {
        let mut tools = self.tools;
        match &ov.pattern {
            None => {
                tools.insert(ov.tool.clone(), Permission::Level(ov.level));
            },
            Some(pat) => {
                let mut patterns = match tools.remove(ov.tool.as_str()) {
                    Some(Permission::Patterns(map)) => map,
                    Some(Permission::Level(lvl)) => {
                        let mut m: Table<PermissionLevel> = Table::new();
                        m.insert("**".to_owned(), lvl);
                        m
                    },
                    None => Table::new(),
                };
                assert(patterns@ == base_patterns(self@, ov.tool@));
                patterns.insert(pat.clone(), ov.level);
                tools.insert(ov.tool.clone(), Permission::Patterns(patterns));
            },
        }
        let r = PermissionsConfig { tools };
        assert(r@ =~= overridden(self@, ov@));
        r
    }

    /// applies CLI-style overrides on top of self with pattern-level
    /// granularity. for each override:
    ///   - a bare `TOOL=LEVEL` replaces the tool entry entirely.
    ///   - a `TOOL:PATTERN=LEVEL` merges into the tool's pattern map; if the
    ///     existing entry was a single level, it is first promoted to a
    ///     pattern map with `**` mapped to the old level.
    pub fn apply_overrides(self, overrides: &[PermissionOverride]) -> (r: Self)
        ensures
            r@ == all_overridden(self@, override_models(overrides@)),
    {
        let ghost list = override_models(overrides@);
        let mut r = self;
        let mut i: usize = 0;
        assert(list.take(0) =~= Seq::empty());
        while i < overrides.len()
            invariant
                i <= overrides@.len(),
                list == override_models(overrides@),
                r@ == all_overridden(self@, list.take(i as int)),
            decreases overrides@.len() - i,
        {
            assert(list.take(i + 1).drop_last() =~= list.take(i as int));
            r = r.apply_override(&overrides[i]);
            i += 1;
        }
        assert(list.take(list.len() as int) =~= list);
        r
    }

    /// the level for a tool and an input. the entry is found by glob match on
    /// the tool's name (so `"*" = "deny"` works as a default); the most specific
    /// match wins; missing entries default to deny.
    pub fn check(&self, tool_name: &str, input: &str, path_mode: bool) -> (r: PermissionLevel)
        ensures
            r == verdict(self@, tool_name@, input@, path_mode),
    {
        assert(self@.dom() =~= self.tools@.dom());
        match glob::find_best(&self.tools, &ByEntry { tool: tool_name }) {
            Some(i) => self.tools.value_at(i).check(input, path_mode),
            None => PermissionLevel::Deny,
        }
    }
}

/// what a `TOOL` or `TOOL:PATTERN` value stands for.
pub open spec fn target_parts(s: Seq<char>) -> (Seq<char>, Option<Seq<char>>) {
    let i = text::position(s, ':');
    if i < s.len() {
        (text::trim(s.take(i)), Some(s.skip(i + 1)))
    } else {
        (text::trim(s), None)
    }
}

/// parses the `TOOL` or `TOOL:PATTERN` value (without the level, which is
/// supplied by which flag was used).
pub fn parse_permission_target(s: &str) -> (r: Result<(String, Option<String>), String>)
    ensures
        match r {
            Ok((tool, pattern)) => {
                &&& target_parts(s@).0.len() > 0
                &&& tool@ == target_parts(s@).0
                &&& match pattern {
                    Some(p) => target_parts(s@).1 == Some(p@),
                    None => target_parts(s@).1 is None,
                }
            },
            Err(e) => {
                &&& target_parts(s@).0.len() == 0
                &&& e@ == "invalid permission target '"@ + s@ + "': empty tool name"@
            },
        },
{
    let chars = text::chars_of(s);
    let i = text::position_from(chars.as_slice(), 0, ':');
    assert(chars@.skip(0) =~= s@);
    let n = chars.len();
    let (tool, pattern) = if i < n {
        let head = s.substring_char(0, i);
        let tail = s.substring_char(i + 1, n);
        assert(head@ =~= s@.take(i as int));
        assert(tail@ =~= s@.skip(i + 1));
        (text::trimmed(head), Some(tail.to_owned()))
    } else {
        (text::trimmed(s), None)
    };
    if tool.as_str().is_empty() {
        return Err(text::concat3("invalid permission target '", s, "': empty tool name"));
    }
    Ok((tool, pattern))
}

// --- asking ---

/// the error of a tool call.
#[derive(Debug, PartialEq)]
pub enum ToolError {
    /// the call was refused or failed.
    ToolCallError(String),
    /// the arguments are no JSON.
    JsonError(String),
}

/// what the error of a tool call stands for.
pub enum ErrorModel {
    Call(Seq<char>),
    Json(Seq<char>),
}

impl View for ToolError {
    type V = ErrorModel;

    open spec fn view(&self) -> ErrorModel {
        match *self {
            ToolError::ToolCallError(m) => ErrorModel::Call(m@),
            ToolError::JsonError(m) => ErrorModel::Json(m@),
        }
    }
}

/// what the outcome of a tool call stands for.
pub open spec fn outcome(r: Result<String, ToolError>) -> Result<Seq<char>, ErrorModel> {
    match r {
        Ok(s) => Ok(s@),
        Err(e) => Err(e@),
    }
}

/// resolves an "ask"-level permission for a tool invocation. the CLI prompts
/// on /dev/tty (bypassable with --yes). returns true to allow the call, false
/// to deny.
pub trait PermissionResolver {
    fn confirm(&self, tool_name: &str, input: &str) -> bool;
}

/// `r` is the error of a refused call with the given text.
pub open spec fn is_call_error<T>(r: Result<T, ToolError>, message: Seq<char>) -> bool {
    match r {
        Err(ToolError::ToolCallError(m)) => m@ == message,
        _ => false,
    }
}

/// what a level and the answer to "ask" lead to.
pub open spec fn decided(
    r: Result<(), ToolError>,
    level: PermissionLevel,
    confirmed: bool,
    input: Seq<char>,
) -> bool {
    match level {
        PermissionLevel::Allow => r is Ok,
        PermissionLevel::Ask => if confirmed {
            r is Ok
        } else {
            is_call_error(r, "permission denied (user rejected): "@ + input)
        },
        PermissionLevel::Deny => is_call_error(r, "permission denied: "@ + input),
    }
}

/// turns a level, with the answer to "ask", into the outcome of the check.
pub fn decide(level: PermissionLevel, confirmed: bool, input: &str) -> (r: Result<(), ToolError>)
    ensures
        decided(r, level, confirmed, input@),
{
    match level {
        PermissionLevel::Allow => Ok(()),
        PermissionLevel::Ask => if confirmed {
            Ok(())
        } else {
            Err(
                ToolError::ToolCallError(
                    text::concat2("permission denied (user rejected): ", input),
                ),
            )
        },
        PermissionLevel::Deny => Err(
            ToolError::ToolCallError(text::concat2("permission denied: ", input)),
        ),
    }
}

/// checks permission for a tool invocation, returning Ok(()) or a ToolError.
/// `path_mode`: true for file-path tools (read), false for command tools (bash).
/// an "ask" verdict is delegated to `resolver`.
pub fn check_tool_permission<R: PermissionResolver>(
    permissions: &PermissionsConfig,
    resolver: &R,
    tool_name: &str,
    input: &str,
    path_mode: bool,
) -> (r: Result<(), ToolError>)
    ensures
        verdict(permissions@, tool_name@, input@, path_mode) != PermissionLevel::Ask ==> decided(
            r,
            verdict(permissions@, tool_name@, input@, path_mode),
            false,
            input@,
        ),
        verdict(permissions@, tool_name@, input@, path_mode) == PermissionLevel::Ask ==> exists|
            confirmed: bool,
        | #[trigger]
            call_ensures(R::confirm, (resolver, tool_name, input), confirmed) && decided(
                r,
                PermissionLevel::Ask,
                confirmed,
                input@,
            ),
{
    let level = permissions.check(tool_name, input, path_mode);
    let confirmed = match level {
        PermissionLevel::Ask => resolver.confirm(tool_name, input),
        _ => false,
    };
    decide(level, confirmed, input)
}

// --- laws ---

/// a pattern for exactly this input, without wildcards, decides.
pub proof fn law_exact_rule_wins(
    m: Map<Seq<char>, PermissionLevel>,
    s: Seq<char>,
    path_mode: bool,
)
    requires
        m.contains_key(s),
        glob::wildcards(s) == 0,
    ensures
        level_for(Rule::Patterns(m), s, path_mode) == m[s],
{
    let score = by_rule(s, path_mode);
    glob::law_literal_pattern(s, s, path_mode);
    assert forall|q: Seq<char>| #[trigger]
        m.dom().contains(q) && score(q) is Some && q != s implies glob::preferred(score, s, q) by {
        if glob::wildcards(q) == 0 {
            lemma_no_arguments(q);
            glob::law_literal_pattern(q, s, path_mode);
        }
    }
    glob::lemma_best(m.dom(), score, s);
}

/// of the patterns of a permission that apply to an input, the one that decides
/// has the fewest wildcards.
pub proof fn law_fewest_wildcards_win(
    m: Map<Seq<char>, PermissionLevel>,
    s: Seq<char>,
    path_mode: bool,
    p: Seq<char>,
)
    requires
        m.contains_key(p),
        applies(p, s, path_mode),
        forall|q: Seq<char>| #[trigger]
            m.contains_key(q) && applies(q, s, path_mode) && q != p ==> glob::wildcards(p)
                < glob::wildcards(q),
    ensures
        level_for(Rule::Patterns(m), s, path_mode) == m[p],
{
    let score = by_rule(s, path_mode);
    assert forall|q: Seq<char>| #[trigger]
        m.dom().contains(q) && score(q) is Some && q != p implies glob::preferred(score, p, q) by {
        assert(m.contains_key(q));
    }
    glob::lemma_best(m.dom(), score, p);
}

/// what ends in a star has a wildcard.
proof fn lemma_no_arguments(p: Seq<char>)
    requires
        glob::wildcards(p) == 0,
    ensures
        without_arguments(p) is None,
{
    if without_arguments(p) is Some {
        let a = seq![' ', '*', '*'];
        let b = seq![' ', '*'];
        if a.is_suffix_of(p) {
            assert(p.last() == a[2]);
        } else {
            assert(p.last() == b[1]);
        }
        assert(text::count(p, '*') > 0);
    }
}

/// a tool that no entry matches is denied.
pub proof fn law_unmatched_tool_is_denied(
    m: Map<Seq<char>, Rule>,
    tool: Seq<char>,
    s: Seq<char>,
    path_mode: bool,
)
    requires
        forall|p: Seq<char>| m.contains_key(p) ==> !#[trigger] glob::matches(p, tool, false),
    ensures
        verdict(m, tool, s, path_mode) == PermissionLevel::Deny,
{
    let score = by_entry(tool);
    if glob::any_applies(m.dom(), score) {
        let q = choose|q: Seq<char>| #[trigger] m.dom().contains(q) && score(q) is Some;
        assert(!glob::matches(q, tool, false));
    }
}

/// an entry for exactly this tool decides.
pub proof fn law_exact_tool_wins(
    m: Map<Seq<char>, Rule>,
    tool: Seq<char>,
    s: Seq<char>,
    path_mode: bool,
)
    requires
        m.contains_key(tool),
        glob::wildcards(tool) == 0,
    ensures
        verdict(m, tool, s, path_mode) == level_for(m[tool], s, path_mode),
{
    let score = by_entry(tool);
    glob::law_literal_pattern(tool, tool, false);
    assert forall|q: Seq<char>| #[trigger]
        m.dom().contains(q) && score(q) is Some && q != tool implies glob::preferred(
        score,
        tool,
        q,
    ) by {
        glob::law_specificity_bounded(q, tool, false);
        if glob::wildcards(q) == 0 {
            glob::law_literal_pattern(q, tool, false);
        }
    }
    glob::lemma_best(m.dom(), score, tool);
}

/// after a bare override of a tool its level is the one for every input.
pub proof fn law_bare_override_decides(
    m: Map<Seq<char>, Rule>,
    o: Override,
    s: Seq<char>,
    path_mode: bool,
)
    requires
        o.pattern is None,
        glob::wildcards(o.tool) == 0,
    ensures
        verdict(overridden(m, o), o.tool, s, path_mode) == o.level,
{
    law_exact_tool_wins(overridden(m, o), o.tool, s, path_mode);
}

/// after an override of one exact input that input has its level.
pub proof fn law_pattern_override_decides(
    m: Map<Seq<char>, Rule>,
    o: Override,
    s: Seq<char>,
    path_mode: bool,
)
    requires
        o.pattern == Some(s),
        glob::wildcards(o.tool) == 0,
        glob::wildcards(s) == 0,
    ensures
        verdict(overridden(m, o), o.tool, s, path_mode) == o.level,
{
    let n = overridden(m, o);
    law_exact_tool_wins(n, o.tool, s, path_mode);
    law_exact_rule_wins(base_patterns(m, o.tool).insert(s, o.level), s, path_mode);
}

/// an override leaves the entries of other tools alone.
pub proof fn law_override_is_local(m: Map<Seq<char>, Rule>, o: Override, tool: Seq<char>)
    requires
        tool != o.tool,
    ensures
        overridden(m, o).contains_key(tool) == m.contains_key(tool),
        m.contains_key(tool) ==> overridden(m, o)[tool] == m[tool],
{
}

/// where a tool had a single level, a pattern override keeps that level for
/// every input to which the pattern does not apply.
pub proof fn law_promotion_keeps_level(
    m: Map<Seq<char>, Rule>,
    o: Override,
    level: PermissionLevel,
    p: Seq<char>,
    s: Seq<char>,
    path_mode: bool,
)
    requires
        o.pattern == Some(p),
        m.contains_key(o.tool),
        m[o.tool] == Rule::Level(level),
        !applies(p, s, path_mode),
        glob::wildcards(o.tool) == 0,
    ensures
        verdict(overridden(m, o), o.tool, s, path_mode) == level,
{
    let n = overridden(m, o);
    law_exact_tool_wins(n, o.tool, s, path_mode);
    let all = "**"@;
    reveal_strlit("**");
    assert(all =~= seq!['*', '*']);
    glob::law_stars(all, s, path_mode);
    let patterns = patterns_of(m[o.tool]).insert(p, o.level);
    let score = by_rule(s, path_mode);
    assert(score(all) is Some);
    assert(all != p);
    assert(glob::is_best(patterns.dom(), score, all));
    glob::lemma_best(patterns.dom(), score, all);
}

/// a pattern with a trailing ` *` applies to the command with no arguments.
pub proof fn law_trailing_star_matches_bare_command(
    p: Seq<char>,
    s: Seq<char>,
    path_mode: bool,
)
    requires
        glob::matches(p, s, path_mode),
    ensures
        applies(p + seq![' ', '*'], s, path_mode),
        applies(p + seq![' ', '*', '*'], s, path_mode),
{
    let one = p + seq![' ', '*'];
    let two = p + seq![' ', '*', '*'];
    assert(one.subrange(one.len() - 2, one.len() as int) =~= seq![' ', '*']);
    assert(two.subrange(two.len() - 3, two.len() as int) =~= seq![' ', '*', '*']);
    assert(two.take(two.len() - 3) =~= p);
    assert(one.take(one.len() - 2) =~= p);
    if seq![' ', '*', '*'].is_suffix_of(one) {
        let a = one.subrange(one.len() - 3, one.len() as int);
        assert(a[1] == one[one.len() - 2]);
        assert(a[1] == '*');
        assert(one[one.len() - 2] == ' ');
    }
}

/// an entry of the second set decides for its tool after a merge.
pub proof fn law_merge_prefers_second(
    a: Map<Seq<char>, Rule>,
    b: Map<Seq<char>, Rule>,
    tool: Seq<char>,
    s: Seq<char>,
    path_mode: bool,
)
    requires
        b.contains_key(tool),
        glob::wildcards(tool) == 0,
    ensures
        verdict(a.union_prefer_right(b), tool, s, path_mode) == level_for(b[tool], s, path_mode),
{
    law_exact_tool_wins(a.union_prefer_right(b), tool, s, path_mode);
}

/// applying two lists of overrides one after the other is applying the list of
/// the first and then the second.
pub proof fn law_overrides_in_a_row(
    m: Map<Seq<char>, Rule>,
    a: Seq<Override>,
    b: Seq<Override>,
)
    ensures
        all_overridden(m, a + b) == all_overridden(all_overridden(m, a), b),
    decreases b.len(),
{
    if b.len() == 0 {
        assert(a + b =~= a);
    } else {
        assert((a + b).drop_last() =~= a + b.drop_last());
        law_overrides_in_a_row(m, a, b.drop_last());
    }
}

/// the last override of a tool and an input without wildcards decides, whatever
/// came before it; later ones of the same tool for other patterns make no
/// difference.
pub proof fn law_last_override_decides(
    m: Map<Seq<char>, Rule>,
    earlier: Seq<Override>,
    o: Override,
    later: Seq<Override>,
    s: Seq<char>,
    path_mode: bool,
)
    requires
        o.pattern == Some(s),
        glob::wildcards(o.tool) == 0,
        glob::wildcards(s) == 0,
        forall|i: int|
            0 <= i < later.len() && (#[trigger] later[i]).tool == o.tool ==> later[i].pattern
                is Some && later[i].pattern != Some(s),
    ensures
        verdict(all_overridden(m, earlier.push(o) + later), o.tool, s, path_mode) == o.level,
{
    law_overrides_in_a_row(m, earlier.push(o), later);
    assert(earlier.push(o).drop_last() =~= earlier);
    let n = all_overridden(m, earlier.push(o));
    lemma_entry_stands(n, later, o.tool, s, o.level);
    let r = all_overridden(n, later);
    law_exact_tool_wins(r, o.tool, s, path_mode);
    law_exact_rule_wins(r[o.tool]->Patterns_0, s, path_mode);
}

/// an entry for a pattern stands until the tool or the pattern is overridden.
proof fn lemma_entry_stands(
    m: Map<Seq<char>, Rule>,
    list: Seq<Override>,
    tool: Seq<char>,
    s: Seq<char>,
    level: PermissionLevel,
)
    requires
        m.contains_key(tool),
        m[tool] is Patterns,
        m[tool]->Patterns_0.contains_key(s),
        m[tool]->Patterns_0[s] == level,
        forall|i: int|
            0 <= i < list.len() && (#[trigger] list[i]).tool == tool ==> list[i].pattern is Some
                && list[i].pattern != Some(s),
    ensures
        all_overridden(m, list).contains_key(tool),
        all_overridden(m, list)[tool] is Patterns,
        all_overridden(m, list)[tool]->Patterns_0.contains_key(s),
        all_overridden(m, list)[tool]->Patterns_0[s] == level,
    decreases list.len(),
{
    if list.len() > 0 {
        let t = list.drop_last();
        assert forall|i: int|
            0 <= i < t.len() && (#[trigger] t[i]).tool == tool implies t[i].pattern is Some
            && t[i].pattern != Some(s) by {
            assert(t[i] == list[i]);
        }
        lemma_entry_stands(m, t, tool, s, level);
        assert(list[list.len() - 1] == list.last());
    }
}

/// a rule with finitely many patterns.
pub open spec fn is_finite_rule(rule: Rule) -> bool {
    match rule {
        Rule::Level(_) => true,
        Rule::Patterns(m) => m.dom().finite(),
    }
}

/// one more pattern that denies takes nothing back that is denied.
proof fn lemma_one_more_denial(
    m: Map<Seq<char>, PermissionLevel>,
    p: Seq<char>,
    s: Seq<char>,
    path_mode: bool,
)
    requires
        m.dom().finite(),
        level_for(Rule::Patterns(m), s, path_mode) == PermissionLevel::Deny,
    ensures
        level_for(Rule::Patterns(m.insert(p, PermissionLevel::Deny)), s, path_mode)
            == PermissionLevel::Deny,
{
    let n = m.insert(p, PermissionLevel::Deny);
    let score = by_rule(s, path_mode);
    if glob::any_applies(n.dom(), score) {
        glob::lemma_best_exists(n.dom(), score);
        let b = glob::best(n.dom(), score)->0;
        if b != p {
            assert(m.dom().contains(b));
            assert forall|q: Seq<char>| #[trigger]
                m.dom().contains(q) && score(q) is Some && q != b implies glob::preferred(
                score,
                b,
                q,
            ) by {
                assert(n.dom().contains(q));
            }
            glob::lemma_best(m.dom(), score, b);
        }
    }
}

/// an override that denies takes nothing back that is denied.
proof fn lemma_denial_stays(
    m: Map<Seq<char>, Rule>,
    o: Override,
    tool: Seq<char>,
    s: Seq<char>,
    path_mode: bool,
)
    requires
        m.contains_key(tool),
        is_finite_rule(m[tool]),
        level_for(m[tool], s, path_mode) == PermissionLevel::Deny,
        o.level == PermissionLevel::Deny,
    ensures
        overridden(m, o).contains_key(tool),
        is_finite_rule(overridden(m, o)[tool]),
        level_for(overridden(m, o)[tool], s, path_mode) == PermissionLevel::Deny,
{
    if o.tool == tool && o.pattern is Some {
        let base = base_patterns(m, tool);
        if m[tool] is Level {
            let score = by_rule(s, path_mode);
            assert(base == Map::<Seq<char>, PermissionLevel>::empty().insert(
                "**"@,
                PermissionLevel::Deny,
            ));
            if glob::any_applies(base.dom(), score) {
                glob::lemma_best_exists(base.dom(), score);
            }
        }
        lemma_one_more_denial(base, o.pattern->0, s, path_mode);
    }
}

/// what is denied stays denied, whatever is denied after it.
pub proof fn law_denials_stay(
    m: Map<Seq<char>, Rule>,
    list: Seq<Override>,
    tool: Seq<char>,
    s: Seq<char>,
    path_mode: bool,
)
    requires
        m.contains_key(tool),
        glob::wildcards(tool) == 0,
        is_finite_rule(m[tool]),
        verdict(m, tool, s, path_mode) == PermissionLevel::Deny,
        forall|i: int|
            0 <= i < list.len() ==> (#[trigger] list[i]).level == PermissionLevel::Deny,
    ensures
        verdict(all_overridden(m, list), tool, s, path_mode) == PermissionLevel::Deny,
        all_overridden(m, list).contains_key(tool),
        is_finite_rule(all_overridden(m, list)[tool]),
    decreases list.len(),
{
    if list.len() > 0 {
        let t = list.drop_last();
        assert forall|i: int| 0 <= i < t.len() implies (#[trigger] t[i]).level
            == PermissionLevel::Deny by {
            assert(t[i] == list[i]);
        }
        law_denials_stay(m, t, tool, s, path_mode);
        let n = all_overridden(m, t);
        law_exact_tool_wins(n, tool, s, path_mode);
        assert(list[list.len() - 1] == list.last());
        lemma_denial_stays(n, list.last(), tool, s, path_mode);
        law_exact_tool_wins(all_overridden(m, list), tool, s, path_mode);
    }
}

/// overrides keep rules finite.
proof fn lemma_finite(m: Map<Seq<char>, Rule>, list: Seq<Override>, tool: Seq<char>)
    requires
        m.contains_key(tool) ==> is_finite_rule(m[tool]),
    ensures
        all_overridden(m, list).contains_key(tool) ==> is_finite_rule(
            all_overridden(m, list)[tool],
        ),
    decreases list.len(),
{
    if list.len() > 0 {
        lemma_finite(m, list.drop_last(), tool);
    }
}

/// of the overrides of one invocation, where all denials come last, each denial
/// decides for its target, a tool or a tool and an input without wildcards.
pub proof fn law_denials_win(
    m: Map<Seq<char>, Rule>,
    earlier: Seq<Override>,
    denials: Seq<Override>,
    k: int,
    s: Seq<char>,
    path_mode: bool,
)
    requires
        0 <= k < denials.len(),
        forall|i: int|
            0 <= i < denials.len() ==> (#[trigger] denials[i]).level == PermissionLevel::Deny,
        glob::wildcards(denials[k].tool) == 0,
        denials[k].pattern is None || (denials[k].pattern == Some(s) && glob::wildcards(s) == 0),
        m.contains_key(denials[k].tool) ==> is_finite_rule(m[denials[k].tool]),
    ensures
        verdict(all_overridden(m, earlier + denials), denials[k].tool, s, path_mode)
            == PermissionLevel::Deny,
{
    let o = denials[k];
    let front = earlier + denials.take(k);
    let rest = denials.skip(k + 1);
    assert(earlier + denials =~= front.push(o) + rest);
    law_overrides_in_a_row(m, front.push(o), rest);
    assert(front.push(o).drop_last() =~= front);
    let n = all_overridden(m, front.push(o));
    lemma_finite(m, front.push(o), o.tool);
    if o.pattern is None {
        law_bare_override_decides(all_overridden(m, front), o, s, path_mode);
    } else {
        law_pattern_override_decides(all_overridden(m, front), o, s, path_mode);
    }
    assert forall|i: int| 0 <= i < rest.len() implies (#[trigger] rest[i]).level
        == PermissionLevel::Deny by {
        assert(rest[i] == denials[k + 1 + i]);
    }
    law_denials_stay(n, rest, o.tool, s, path_mode);
}

/// the level that stands for a target: that of its pattern, and for a bare tool,
/// or a pattern without an entry, that of the tool as a whole.
pub open spec fn standing(
    m: Map<Seq<char>, Rule>,
    tool: Seq<char>,
    pattern: Option<Seq<char>>,
) -> Option<PermissionLevel> {
    if !m.contains_key(tool) {
        None
    } else {
        match m[tool] {
            Rule::Level(l) => Some(l),
            Rule::Patterns(q) => if pattern is Some && q.contains_key(pattern->0) {
                Some(q[pattern->0])
            } else if q.contains_key("**"@) {
                Some(q["**"@])
            } else {
                None
            },
        }
    }
}

/// an override is for a target, or for its tool as a whole.
pub open spec fn addresses(o: Override, tool: Seq<char>, pattern: Option<Seq<char>>) -> bool {
    &&& o.tool == tool
    &&& o.pattern is None || o.pattern == pattern || o.pattern == Some("**"@)
}

/// what stands for a target changes only by overrides that address it.
pub proof fn law_level_stands(
    m: Map<Seq<char>, Rule>,
    list: Seq<Override>,
    tool: Seq<char>,
    pattern: Option<Seq<char>>,
    level: PermissionLevel,
)
    requires
        standing(m, tool, pattern) == Some(level),
        forall|i: int|
            0 <= i < list.len() && addresses(#[trigger] list[i], tool, pattern) ==> list[i].level
                == level,
    ensures
        standing(all_overridden(m, list), tool, pattern) == Some(level),
    decreases list.len(),
{
    if list.len() > 0 {
        let t = list.drop_last();
        assert forall|i: int|
            0 <= i < t.len() && addresses(#[trigger] t[i], tool, pattern) implies t[i].level
            == level by {
            assert(t[i] == list[i]);
        }
        law_level_stands(m, t, tool, pattern, level);
        assert(list[list.len() - 1] == list.last());
    }
}

/// an override stands for its own target, whatever came before it, until a later
/// one addresses the target.
pub proof fn law_override_stands(
    m: Map<Seq<char>, Rule>,
    list: Seq<Override>,
    k: int,
)
    requires
        0 <= k < list.len(),
        forall|i: int|
            k < i < list.len() && addresses(#[trigger] list[i], list[k].tool, list[k].pattern)
                ==> list[i].level == list[k].level,
    ensures
        standing(all_overridden(m, list), list[k].tool, list[k].pattern) == Some(list[k].level),
{
    let o = list[k];
    let front = list.take(k + 1);
    let rest = list.skip(k + 1);
    assert(list =~= front + rest);
    law_overrides_in_a_row(m, front, rest);
    assert(front.last() == o);
    assert forall|i: int|
        0 <= i < rest.len() && addresses(#[trigger] rest[i], o.tool, o.pattern) implies rest[i].level
        == o.level by {
        assert(rest[i] == list[k + 1 + i]);
    }
    law_level_stands(all_overridden(m, front), rest, o.tool, o.pattern, o.level);
}

/// the pattern of a permission that applies to an input decides where every other
/// one that applies has more wildcards, or as many wildcards and fewer literal
/// bytes.
pub proof fn law_most_specific_pattern_decides(
    m: Map<Seq<char>, PermissionLevel>,
    s: Seq<char>,
    path_mode: bool,
    p: Seq<char>,
)
    requires
        m.contains_key(p),
        applies(p, s, path_mode),
        forall|q: Seq<char>| #[trigger]
            m.contains_key(q) && q != p && applies(q, s, path_mode) ==> glob::wildcards(p)
                < glob::wildcards(q) || (glob::wildcards(p) == glob::wildcards(q)
                && glob::specificity(q) < glob::specificity(p)),
    ensures
        level_for(Rule::Patterns(m), s, path_mode) == m[p],
{
    let score = by_rule(s, path_mode);
    assert forall|q: Seq<char>| #[trigger]
        m.dom().contains(q) && score(q) is Some && q != p implies glob::preferred(score, p, q) by {
        assert(m.contains_key(q) && q != p && applies(q, s, path_mode));
    }
    glob::lemma_best(m.dom(), score, p);
}

/// of two patterns with equally many wildcards that apply to an input, the one
/// with more literal bytes decides, whatever their order.
pub proof fn law_more_literal_bytes_decide(
    p: Seq<char>,
    q: Seq<char>,
    a: PermissionLevel,
    b: PermissionLevel,
    s: Seq<char>,
    path_mode: bool,
)
    requires
        applies(p, s, path_mode),
        applies(q, s, path_mode),
        glob::wildcards(p) == glob::wildcards(q),
        glob::specificity(q) < glob::specificity(p),
    ensures
        level_for(
            Rule::Patterns(Map::empty().insert(p, a).insert(q, b)),
            s,
            path_mode,
        ) == a,
        level_for(
            Rule::Patterns(Map::empty().insert(q, b).insert(p, a)),
            s,
            path_mode,
        ) == a,
{
    law_most_specific_pattern_decides(
        Map::empty().insert(p, a).insert(q, b),
        s,
        path_mode,
        p,
    );
    law_most_specific_pattern_decides(
        Map::empty().insert(q, b).insert(p, a),
        s,
        path_mode,
        p,
    );
}

/// the narrower of two command prefixes decides: `git push *` over `git *` on
/// every command that both apply to.
pub proof fn law_longer_command_prefix_decides(
    a: Seq<char>,
    more: Seq<char>,
    wide: PermissionLevel,
    narrow: PermissionLevel,
    rest: Seq<char>,
)
    requires
        glob::wildcards(a) == 0,
        glob::wildcards(more) == 0,
        more.len() > 0,
    ensures
        level_for(
            Rule::Patterns(
                Map::empty().insert(a + seq!['*'], wide).insert(a + more + seq!['*'], narrow),
            ),
            a + more + rest,
            false,
        ) == narrow,
{
    let star = seq!['*'];
    let none = Seq::<char>::empty();
    let p = a + more + star;
    let q = a + star;
    let s = a + more + rest;
    text::law_count(none, '*', '*');
    text::law_count(none, '?', '*');
    assert(none.push('*') =~= star);
    glob::law_text_star_text(a, star, none, more + rest, false);
    assert(a + star + none =~= q);
    assert(a + (more + rest) + none =~= s);
    glob::lemma_specificity_concat(a, more);
    glob::law_text_star_text(a + more, star, none, rest, false);
    assert(a + more + star + none =~= p);
    assert(a + more + rest + none =~= s);
    text::lemma_utf8_len_concat(a, more);
    text::lemma_utf8_len_bound(more);
    text::lemma_utf8_len_bound(none);
    glob::lemma_specificity_concat(a, star);
    glob::lemma_specificity_concat(a + more, star);
    assert(text::utf8_len(none) == 0);
    law_more_literal_bytes_decide(p, q, narrow, wide, s, false);
}

/// an entry decides for a tool where every other one that matches its name is less
/// specific, or as specific with more wildcards.
pub proof fn law_most_specific_entry_decides(
    m: Map<Seq<char>, Rule>,
    tool: Seq<char>,
    s: Seq<char>,
    path_mode: bool,
    p: Seq<char>,
)
    requires
        m.contains_key(p),
        glob::matches(p, tool, false),
        forall|q: Seq<char>| #[trigger]
            m.contains_key(q) && q != p && glob::matches(q, tool, false) ==> glob::specificity(q)
                < glob::specificity(p) || (glob::specificity(q) == glob::specificity(p)
                && glob::wildcards(p) < glob::wildcards(q)),
    ensures
        verdict(m, tool, s, path_mode) == level_for(m[p], s, path_mode),
{
    let score = by_entry(tool);
    assert forall|q: Seq<char>| #[trigger]
        m.dom().contains(q) && score(q) is Some && q != p implies glob::preferred(score, p, q) by {
        assert(m.contains_key(q) && q != p && glob::matches(q, tool, false));
    }
    glob::lemma_best(m.dom(), score, p);
}

/// an entry of stars decides for every tool that no other entry matches.
pub proof fn law_star_entry_is_the_default(
    m: Map<Seq<char>, Rule>,
    tool: Seq<char>,
    s: Seq<char>,
    path_mode: bool,
)
    requires
        m.contains_key(seq!['*']),
        forall|q: Seq<char>| #[trigger]
            m.contains_key(q) && q != seq!['*'] ==> !glob::matches(q, tool, false),
    ensures
        verdict(m, tool, s, path_mode) == level_for(m[seq!['*']], s, path_mode),
{
    glob::law_stars(seq!['*'], tool, false);
    law_most_specific_entry_decides(m, tool, s, path_mode, seq!['*']);
}

/// an input that no pattern applies to is denied.
pub proof fn law_unmatched_input_is_denied(
    m: Map<Seq<char>, PermissionLevel>,
    s: Seq<char>,
    path_mode: bool,
)
    requires
        forall|p: Seq<char>| #[trigger] m.contains_key(p) ==> !applies(p, s, path_mode),
    ensures
        level_for(Rule::Patterns(m), s, path_mode) == PermissionLevel::Deny,
{
    let score = by_rule(s, path_mode);
    assert forall|q: Seq<char>| !(#[trigger] m.dom().contains(q) && score(q) is Some) by {
        if m.contains_key(q) {
            assert(!applies(q, s, path_mode));
        }
    }
}

/// the level that decides is that of a pattern that applies, or deny.
pub proof fn law_level_is_of_a_pattern(
    m: Map<Seq<char>, PermissionLevel>,
    s: Seq<char>,
    path_mode: bool,
    p: Seq<char>,
)
    requires
        glob::is_best(m.dom(), by_rule(s, path_mode), p),
    ensures
        m.contains_key(p),
        applies(p, s, path_mode),
        level_for(Rule::Patterns(m), s, path_mode) == m[p],
{
    glob::lemma_best(m.dom(), by_rule(s, path_mode), p);
}

/// a single level is the one for every input.
pub proof fn law_single_level(l: PermissionLevel, s: Seq<char>, path_mode: bool)
    ensures
        level_for(Rule::Level(l), s, path_mode) == l,
{
}

/// a pattern applies where it matches as it stands or without a trailing ` *` or
/// ` **`, and nowhere else.
pub proof fn law_applies(p: Seq<char>, s: Seq<char>, path_mode: bool)
    ensures
        glob::matches(p, s, path_mode) ==> applies(p, s, path_mode),
        applies(p, s, path_mode) ==> glob::matches(p, s, path_mode) || exists|q: Seq<char>|
            #[trigger] glob::matches(q, s, path_mode) && (p == q + seq![' ', '*'] || p == q + seq![
                ' ',
                '*',
                '*',
            ]),
{
    let one = seq![' ', '*'];
    let two = seq![' ', '*', '*'];
    if applies(p, s, path_mode) && !glob::matches(p, s, path_mode) {
        let q = without_arguments(p)->0;
        if two.is_suffix_of(p) {
            assert(p =~= q + two);
        } else {
            assert(p =~= q + one);
        }
        assert(glob::matches(q, s, path_mode));
    }
}

/// only the three names are levels.
pub proof fn law_levels_have_one_name(s: Seq<char>)
    ensures
        match level_named(s) {
            Some(PermissionLevel::Allow) => s == "allow"@,
            Some(PermissionLevel::Ask) => s == "ask"@,
            Some(PermissionLevel::Deny) => s == "deny"@,
            None => s != "allow"@ && s != "ask"@ && s != "deny"@,
        },
{
}

/// reading a pattern map goes entry by entry: the first complaint is the outcome,
/// and of several entries for one pattern the last counts.
pub proof fn law_pattern_map(s: Seq<(Scalar, Scalar)>, key: Scalar, value: Scalar)
    ensures
        entries_meaning(s) is Err ==> entries_meaning(s.push((key, value))) == entries_meaning(s),
        entries_meaning(s) is Ok && key.text is Some && value.text is Some && level_named(
            value.text->0@,
        ) is Some ==> {
            let after = entries_meaning(s.push((key, value)));
            &&& after is Ok
            &&& after->Ok_0 == entries_meaning(s)->Ok_0.insert(
                key.text->0@,
                level_named(value.text->0@)->0,
            )
        },
        entries_meaning(s) is Ok && (key.text is None || value.text is None || level_named(
            value.text->0@,
        ) is None) ==> entries_meaning(s.push((key, value))) is Err,
        entries_meaning(Seq::empty()) == Ok::<Map<Seq<char>, PermissionLevel>, Seq<char>>(
            Map::empty(),
        ),
{
    assert(s.push((key, value)).drop_last() =~= s);
}

/// what is wrong with an entry of a pattern map is told with its pattern.
pub proof fn law_entry_complaints(key: Scalar, value: Scalar)
    ensures
        key.text is None ==> entry_meaning(key, value) == Err::<
            (Seq<char>, PermissionLevel),
            Seq<char>,
        >("expected string key, got "@ + key.shown@),
        key.text is Some && value.text is None ==> entry_meaning(key, value) == Err::<
            (Seq<char>, PermissionLevel),
            Seq<char>,
        >(
            "pattern '"@ + key.text->0@ + "': expected 'allow', 'ask', or 'deny', got "@
                + value.shown@,
        ),
        key.text is Some && value.text is Some && value.text->0@ != "allow"@ && value.text->0@
            != "ask"@ && value.text->0@ != "deny"@ ==> entry_meaning(key, value) == Err::<
            (Seq<char>, PermissionLevel),
            Seq<char>,
        >(
            "pattern '"@ + key.text->0@ + "': "@ + ("invalid permission level '"@ + value.text->0@
                + "', expected 'allow', 'ask', or 'deny'"@),
        ),
{
}

/// a permission is read from the name of a level or from a map of patterns, and
/// from nothing else.
pub proof fn law_permission_document(node: PermissionNode)
    ensures
        match node {
            PermissionNode::Text(s) => match level_named(s@) {
                Some(l) => node_meaning(node) == Ok::<Rule, Seq<char>>(Rule::Level(l)),
                None => node_meaning(node) is Err,
            },
            PermissionNode::Mapping(entries) => match entries_meaning(entries@) {
                Ok(m) => node_meaning(node) == Ok::<Rule, Seq<char>>(Rule::Patterns(m)),
                Err(e) => node_meaning(node) == Err::<Rule, Seq<char>>(e),
            },
            PermissionNode::Other(_) => node_meaning(node) is Err,
        },
{
}

/// a target is a tool, or a tool, a colon and a pattern; the pattern is taken as it
/// is, colons and blanks included.
pub proof fn law_targets(tool: Seq<char>, pattern: Seq<char>)
    requires
        !tool.contains(':'),
        tool.len() > 0 ==> !text::is_white(tool[0]) && !text::is_white(tool.last()),
    ensures
        target_parts(tool) == (tool, None::<Seq<char>>),
        target_parts(tool + seq![':'] + pattern) == (tool, Some(pattern)),
{
    let none = Seq::<char>::empty();
    text::law_trim_undoes_padding(none, tool, none);
    assert(none + tool + none =~= tool);
    text::lemma_position(tool, ':');
    let p = text::position(tool, ':');
    if p < tool.len() {
        assert(tool.contains(tool[p]));
    }
    let s = tool + seq![':'] + pattern;
    assert forall|j: int| 0 <= j < tool.len() implies s[j] != ':' by {
        assert(s[j] == tool[j]);
        assert(tool.contains(tool[j]));
    }
    text::lemma_position_unique(s, ':', tool.len() as int);
    assert(s.take(tool.len() as int) =~= tool);
    assert(s.skip(tool.len() as int + 1) =~= pattern);
}

/// an override of a pattern leaves the other patterns of its tool as they are.
pub proof fn law_override_keeps_other_patterns(
    m: Map<Seq<char>, Rule>,
    o: Override,
    patterns: Map<Seq<char>, PermissionLevel>,
    q: Seq<char>,
)
    requires
        o.pattern is Some,
        m.contains_key(o.tool),
        m[o.tool] == Rule::Patterns(patterns),
        q != o.pattern->0,
    ensures
        overridden(m, o)[o.tool] is Patterns,
        overridden(m, o)[o.tool]->Patterns_0.contains_key(q) == patterns.contains_key(q),
        patterns.contains_key(q) ==> overridden(m, o)[o.tool]->Patterns_0[q] == patterns[q],
        overridden(m, o)[o.tool]->Patterns_0.contains_key(o.pattern->0),
        overridden(m, o)[o.tool]->Patterns_0[o.pattern->0] == o.level,
{
}

/// a pattern override of a tool without an entry gives it that pattern alone, and
/// one of a tool with a single level keeps that level under `**`.
pub proof fn law_override_promotes(m: Map<Seq<char>, Rule>, o: Override)
    requires
        o.pattern is Some,
    ensures
        !m.contains_key(o.tool) ==> overridden(m, o)[o.tool] == Rule::Patterns(
            Map::empty().insert(o.pattern->0, o.level),
        ),
        m.contains_key(o.tool) && m[o.tool] is Level && o.pattern->0 != "**"@ ==> {
            let n = overridden(m, o)[o.tool]->Patterns_0;
            &&& n.contains_key("**"@)
            &&& n["**"@] == m[o.tool]->Level_0
            &&& n[o.pattern->0] == o.level
            &&& n.dom() == set!["**"@, o.pattern->0]
        },
{
    if m.contains_key(o.tool) && m[o.tool] is Level {
        let n = overridden(m, o)[o.tool]->Patterns_0;
        assert(n.dom() =~= set!["**"@, o.pattern->0]);
    }
}

/// a call passes on allow, and on ask where the user has agreed; otherwise it is
/// refused, with the input in the error.
pub proof fn law_decisions(
    r: Result<(), ToolError>,
    level: PermissionLevel,
    confirmed: bool,
    input: Seq<char>,
)
    requires
        decided(r, level, confirmed, input),
    ensures
        r is Ok <==> level == PermissionLevel::Allow || (level == PermissionLevel::Ask
            && confirmed),
        level == PermissionLevel::Deny ==> r->Err_0@ == ErrorModel::Call(
            "permission denied: "@ + input,
        ),
        level == PermissionLevel::Ask && !confirmed ==> r->Err_0@ == ErrorModel::Call(
            "permission denied (user rejected): "@ + input,
        ),
{
}

/// the models of permissions, overrides and errors tell what the values hold.
pub proof fn law_permission_models(
    p: Permission,
    c: PermissionsConfig,
    o: PermissionOverride,
    e: ToolError,
    k: Seq<char>,
)
    ensures
        ({
            match p {
                Permission::Level(l) => p@ == Rule::Level(l),
                Permission::Patterns(t) => p@ is Patterns && (p@->Patterns_0.contains_key(k)
                    == t@.contains_key(k)) && (t@.contains_key(k) ==> p@->Patterns_0[k] == t@[k]),
            }
        }),
        c@.contains_key(k) == c.tools@.contains_key(k),
        c.tools@.contains_key(k) ==> c@[k] == c.tools@[k]@,
        o@.tool == o.tool@,
        o@.level == o.level,
        o.pattern is Some ==> o@.pattern == Some(o.pattern->0@),
        o.pattern is None ==> o@.pattern is None,
        match e {
            ToolError::ToolCallError(m) => e@ == ErrorModel::Call(m@),
            ToolError::JsonError(m) => e@ == ErrorModel::Json(m@),
        },
{
}

} // verus!
