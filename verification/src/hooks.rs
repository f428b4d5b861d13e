//! the host side of the harness control protocol: the hook scripts, what they
//! are told, what is made of their answers, and the tools that they register.
//! stages: discover, mutate_request, execute_tool, before_tool, after_tool and
//! before_stop.

use crate::config;
use crate::config::ToolsConfig;
use crate::json;
use crate::json::{Json, Model};
use crate::merge;
use crate::permission;
use crate::permission::{ErrorModel, PermissionsConfig, Rule, ToolError};
use crate::resolve;
use crate::resolve::Place;
use crate::schema;
use crate::table::Table;
use crate::text;
use crate::tools;
use crate::tools::{Gate, GateModel};
use vstd::prelude::*;

verus! {

// --- scripts ---

/// a tool that a hook script registers.
#[derive(Debug)]
pub struct HookToolDef {
    /// fully namespaced tool name (`<prefix>_<short>`).
    pub full_name: String,
    pub short_name: String,
    pub description: String,
    pub parameters_schema: Json,
    pub permission_args: Vec<String>,
}

/// what a registered tool stands for.
pub struct ToolModel {
    pub full_name: Seq<char>,
    pub short_name: Seq<char>,
    pub description: Seq<char>,
    pub schema: Model,
    pub permission_args: Seq<Seq<char>>,
}

impl View for HookToolDef {
    type V = ToolModel;

    open spec fn view(&self) -> ToolModel {
        ToolModel {
            full_name: self.full_name@,
            short_name: self.short_name@,
            description: self.description@,
            schema: self.parameters_schema@,
            permission_args: text::texts(self.permission_args@),
        }
    }
}

impl Clone for HookToolDef {
    fn clone(&self) -> (r: Self)
        ensures
            r@ == self@,
    {
        HookToolDef {
            full_name: self.full_name.clone(),
            short_name: self.short_name.clone(),
            description: self.description.clone(),
            parameters_schema: self.parameters_schema.copy(),
            permission_args: text::copy_list(&self.permission_args),
        }
    }
}

/// what a list of registered tools stands for.
pub open spec fn tool_models(s: Seq<HookToolDef>) -> Seq<ToolModel> {
    Seq::new(s.len(), |i: int| s[i]@)
}

/// a single hook script discovered on disk. `P` is how its path is kept.
#[derive(Debug)]
pub struct HookScript<P> {
    /// registration name (defaults to filename stem); also tool prefix.
    pub name: String,
    /// the last component of the path.
    pub file_name: String,
    pub path: P,
    pub test: Option<String>,
    pub tools: Vec<HookToolDef>,
}

/// one script is a clone of another.
pub open spec fn is_clone_of<P: Clone>(a: HookScript<P>, b: HookScript<P>) -> bool {
    &&& a.name@ == b.name@
    &&& a.file_name@ == b.file_name@
    &&& cloned(b.path, a.path)
    &&& text::text_opt(a.test) == text::text_opt(b.test)
    &&& tool_models(a.tools@) == tool_models(b.tools@)
}

impl<P: Clone> Clone for HookScript<P> {
    fn clone(&self) -> (r: Self)
        ensures
            is_clone_of(r, *self),
    {
        let mut tools: Vec<HookToolDef> = Vec::new();
        let mut i: usize = 0;
        while i < self.tools.len()
            invariant
                i <= self.tools@.len(),
                tools@.len() == i,
                forall|j: int| 0 <= j < i ==> (#[trigger] tools@[j])@ == self.tools@[j]@,
            decreases self.tools@.len() - i,
        {
            tools.push(self.tools[i].clone());
            i += 1;
        }
        assert(tool_models(tools@) =~= tool_models(self.tools@));
        HookScript {
            name: self.name.clone(),
            file_name: self.file_name.clone(),
            path: self.path.clone(),
            test: text::copy_opt(&self.test),
            tools,
        }
    }
}

/// a file that may be a hook script.
#[derive(Debug)]
pub struct ScriptEntry<P> {
    pub path: P,
    pub is_file: bool,
    /// the last component of the path, where that is text.
    pub file_name: Option<String>,
    pub executable: bool,
    /// a number that two entries share iff they lead to the same file.
    pub identity: usize,
}

/// the directories that hold hooks, below a visited level.
pub open spec fn local_hook_dirs(shared: Seq<char>) -> Seq<Seq<char>> {
    seq![".opencode/hooks"@, shared + "/hooks"@, ".agents/hooks"@]
}

/// the directories that hold hooks, below the home directory.
pub open spec fn global_hook_dirs(shared: Seq<char>) -> Seq<Seq<char>> {
    seq![".config/opencode/hooks"@, shared + "/hooks"@, ".agents/hooks"@]
}

/// returns the search roots for `hooks/` in priority order: project bases walking
/// up to git root, then global bases.
pub fn hook_dirs(shared: &str, git: &[bool], home: bool) -> (r: Vec<Place>)
    ensures
        resolve::place_models(r@) == resolve::places(
            git@,
            home,
            local_hook_dirs(shared@),
            global_hook_dirs(shared@),
        ),
{
    let mut local: Vec<String> = Vec::new();
    local.push(".opencode/hooks".to_owned());
    local.push(text::concat2(shared, "/hooks"));
    local.push(".agents/hooks".to_owned());
    let mut global: Vec<String> = Vec::new();
    global.push(".config/opencode/hooks".to_owned());
    global.push(text::concat2(shared, "/hooks"));
    global.push(".agents/hooks".to_owned());
    proof {
        assert(text::texts(local@) =~= local_hook_dirs(shared@));
        assert(text::texts(global@) =~= global_hook_dirs(shared@));
    }
    resolve::collect_places(git, home, &local, &global)
}

/// some execute bit of a file mode is set.
pub fn is_executable(mode: u32) -> (r: bool)
    ensures
        r == (mode & 0o111 != 0),
{
    mode & 0o111 != 0
}

/// the file names that are ignored.
pub open spec fn is_ignored(name: Seq<char>) -> bool {
    seq!['.'].is_prefix_of(name) || seq!['_', '_'].is_prefix_of(name)
}

/// a file that is a hook script: it has a name that is not ignored, and it can be
/// executed.
pub open spec fn is_script<P>(e: ScriptEntry<P>) -> bool {
    &&& e.is_file
    &&& e.file_name is Some
    &&& !is_ignored(e.file_name->0@)
    &&& e.executable
}

/// entry `i` is a script, and no earlier one leads to the same file.
pub open spec fn is_new_script<P>(entries: Seq<ScriptEntry<P>>, i: int) -> bool {
    &&& 0 <= i < entries.len()
    &&& is_script(entries[i])
    &&& forall|j: int|
        0 <= j < i && is_script(entries[j]) ==> (#[trigger] entries[j]).identity
            != entries[i].identity
}

/// the indices of the scripts among the first `n` entries.
pub open spec fn script_indices<P>(entries: Seq<ScriptEntry<P>>, n: int) -> Seq<int>
    decreases n,
{
    if n <= 0 {
        Seq::empty()
    } else if is_new_script(entries, n - 1) {
        script_indices(entries, n - 1).push(n - 1)
    } else {
        script_indices(entries, n - 1)
    }
}

/// the number of characters before the last dot; the length where there is none.
pub open spec fn last_dot(s: Seq<char>) -> int
    decreases s.len(),
{
    if s.len() == 0 {
        0
    } else if s.last() == '.' {
        s.len() - 1
    } else {
        let i = last_dot(s.drop_last());
        if i < s.len() - 1 {
            i
        } else {
            s.len() as int
        }
    }
}

/// a file name without its extension.
pub open spec fn stem(s: Seq<char>) -> Seq<char> {
    let i = last_dot(s);
    if 0 < i < s.len() {
        s.take(i)
    } else {
        s
    }
}

/// a script as it stands before it has been asked anything.
pub open spec fn is_fresh<P>(script: HookScript<P>, e: ScriptEntry<P>) -> bool {
    &&& e.file_name is Some
    &&& script.name@ == stem(e.file_name->0@)
    &&& script.file_name@ == e.file_name->0@
    &&& script.path == e.path
    &&& script.test is None
    &&& script.tools@.len() == 0
}

/// the last dot is where a search from the end finds it.
proof fn lemma_last_dot(s: Seq<char>, i: int)
    requires
        0 <= i <= s.len(),
        i < s.len() ==> s[i] == '.',
        forall|j: int| i < j < s.len() ==> s[j] != '.',
        i == s.len() ==> forall|j: int| 0 <= j < s.len() ==> s[j] != '.',
    ensures
        last_dot(s) == i,
    decreases s.len(),
{
    if s.len() > 0 && s.last() != '.' {
        let t = s.drop_last();
        if i == s.len() {
            assert forall|j: int| 0 <= j < t.len() implies t[j] != '.' by {
                assert(s[j] != '.');
            }
            lemma_last_dot(t, t.len() as int);
        } else {
            assert forall|j: int| i < j < t.len() implies t[j] != '.' by {
                assert(s[j] != '.');
            }
            lemma_last_dot(t, i);
        }
    }
}

/// a file name without its extension.
pub fn file_stem(name: &str) -> (r: String)
    ensures
        r@ == stem(name@),
{
    let chars = text::chars_of(name);
    let n = chars.len();
    let mut i: usize = n;
    while i > 0
        invariant
            i <= n,
            n == chars@.len(),
            chars@ == name@,
            forall|j: int| i <= j < n ==> chars@[j] != '.',
        decreases i,
    {
        if chars[i - 1] == '.' {
            proof {
                lemma_last_dot(name@, i - 1);
            }
            if i == 1 {
                return name.to_owned();
            }
            return name.substring_char(0, i - 1).to_owned();
        }
        i -= 1;
    }
    proof {
        lemma_last_dot(name@, n as int);
    }
    name.to_owned()
}

/// whether a number is in the list.
fn has_number(list: &Vec<usize>, n: usize) -> (r: bool)
    ensures
        r == list@.contains(n),
{
    let mut i: usize = 0;
    while i < list.len()
        invariant
            i <= list@.len(),
            forall|j: int| 0 <= j < i ==> list@[j] != n,
        decreases list@.len() - i,
    {
        if list[i] == n {
            assert(list@[i as int] == n);
            return true;
        }
        i += 1;
    }
    false
}

/// whether an entry is a hook script.
fn check_script<P>(e: &ScriptEntry<P>) -> (r: bool)
    ensures
        r == is_script(*e),
{
    proof {
        reveal_strlit(".");
        reveal_strlit("__");
        assert("."@ =~= seq!['.']);
        assert("__"@ =~= seq!['_', '_']);
    }
    match &e.file_name {
        Some(name) => e.is_file && !text::starts_with(name.as_str(), ".") && !text::starts_with(
            name.as_str(),
            "__",
        ) && e.executable,
        None => false,
    }
}

/// collects the executable hook scripts among the entries of the `hooks/`
/// directories, in the order of the directories; of several entries that lead to
/// the same file the first counts.
pub fn collect_scripts<P>(entries: Vec<ScriptEntry<P>>) -> (r: Vec<HookScript<P>>)
    ensures
        r@.len() == script_indices(entries@, entries@.len() as int).len(),
        forall|k: int|
            0 <= k < r@.len() ==> is_fresh(
                #[trigger] r@[k],
                entries@[script_indices(entries@, entries@.len() as int)[k]],
            ),
{
    let ghost all = entries@;
    let mut rest = entries;
    let mut seen: Vec<usize> = Vec::new();
    let mut out: Vec<HookScript<P>> = Vec::new();
    let ghost mut i: int = 0;
    assert(all.skip(0) =~= all);
    while rest.len() > 0
        invariant
            0 <= i <= all.len(),
            rest@ == all.skip(i),
            forall|n: usize| #[trigger]
                seen@.contains(n) == exists|j: int|
                    0 <= j < i && is_script(all[j]) && (#[trigger] all[j]).identity == n,
            out@.len() == script_indices(all, i).len(),
            forall|k: int|
                0 <= k < out@.len() ==> is_fresh(#[trigger] out@[k], all[script_indices(all, i)[k]]),
        decreases rest@.len(),
    {
        let e = rest.remove(0);
        proof {
            assert(e == all[i]);
            assert(rest@ =~= all.skip(i + 1));
        }
        let ghost before_seen = seen@;
        let ghost before_out = out@;
        let fresh = check_script(&e) && !has_number(&seen, e.identity);
        proof {
            assert(fresh == is_new_script(all, i)) by {
                if is_script(e) {
                    assert(seen@.contains(e.identity) == exists|j: int|
                        0 <= j < i && is_script(all[j]) && (#[trigger] all[j]).identity
                            == e.identity);
                }
            }
        }
        let ghost added = e.identity;
        if fresh {
            if let Some(file_name) = e.file_name {
                seen.push(e.identity);
                let name = file_stem(file_name.as_str());
                out.push(HookScript { name, file_name, path: e.path, test: None, tools: Vec::new() });
            }
        }
        proof {
            if fresh {
                assert(seen@ == before_seen.push(added));
                assert(out@.drop_last() =~= before_out);
            }
            assert forall|n: usize| #[trigger] seen@.contains(n) == exists|j: int|
                0 <= j < i + 1 && is_script(all[j]) && (#[trigger] all[j]).identity == n by {
                assert(before_seen.contains(n) == exists|j: int|
                    0 <= j < i && is_script(all[j]) && (#[trigger] all[j]).identity == n);
                if seen@.contains(n) && !before_seen.contains(n) {
                    assert(all[i].identity == n);
                }
                if before_seen.contains(n) {
                    let q = choose|q: int| 0 <= q < before_seen.len() && before_seen[q] == n;
                    assert(seen@[q] == n);
                }
                if is_script(all[i]) && all[i].identity == n {
                    if fresh {
                        assert(seen@[before_seen.len() as int] == n);
                    }
                }
            }
            assert forall|k: int| 0 <= k < out@.len() implies is_fresh(
                #[trigger] out@[k],
                all[script_indices(all, i + 1)[k]],
            ) by {
                if k < before_out.len() {
                    assert(out@[k] == before_out[k]);
                    assert(is_fresh(before_out[k], all[script_indices(all, i)[k]]));
                    assert(script_indices(all, i + 1)[k] == script_indices(all, i)[k]);
                }
            }
            i = i + 1;
        }
    }
    out
}

// --- the order of the scripts ---

/// the scripts come in the order of their file names.
pub open spec fn in_file_order<P>(s: Seq<HookScript<P>>) -> bool {
    forall|i: int, j: int|
        0 <= i < j < s.len() ==> !text::before(
            (#[trigger] s[j]).file_name@,
            (#[trigger] s[i]).file_name@,
        )
}

/// the scripts with the given file name, in their order.
pub open spec fn with_file_name<P>(s: Seq<HookScript<P>>, name: Seq<char>) -> Seq<HookScript<P>>
    decreases s.len(),
{
    if s.len() == 0 {
        Seq::empty()
    } else if s.last().file_name@ == name {
        with_file_name(s.drop_last(), name).push(s.last())
    } else {
        with_file_name(s.drop_last(), name)
    }
}

/// `r` is `s` sorted by file name, where scripts with the same file name keep
/// their order.
pub open spec fn is_sorted_from<P>(r: Seq<HookScript<P>>, s: Seq<HookScript<P>>) -> bool {
    &&& in_file_order(r)
    &&& forall|name: Seq<char>| #[trigger] with_file_name(r, name) == with_file_name(s, name)
}

/// the scripts of a name in two lists, one behind the other.
proof fn lemma_with_file_name<P>(a: Seq<HookScript<P>>, b: Seq<HookScript<P>>, name: Seq<char>)
    ensures
        with_file_name(a + b, name) == with_file_name(a, name) + with_file_name(b, name),
    decreases b.len(),
{
    if b.len() == 0 {
        assert(a + b =~= a);
        assert(with_file_name(a, name) + with_file_name(b, name) =~= with_file_name(a, name));
    } else {
        assert((a + b).drop_last() =~= a + b.drop_last());
        lemma_with_file_name(a, b.drop_last(), name);
        assert(with_file_name(a + b, name) =~= with_file_name(a, name) + with_file_name(b, name));
    }
}

/// a list without scripts of that name.
proof fn lemma_no_such_file<P>(s: Seq<HookScript<P>>, name: Seq<char>)
    requires
        forall|i: int| 0 <= i < s.len() ==> (#[trigger] s[i]).file_name@ != name,
    ensures
        with_file_name(s, name) == Seq::<HookScript<P>>::empty(),
    decreases s.len(),
{
    if s.len() > 0 {
        let t = s.drop_last();
        assert forall|i: int| 0 <= i < t.len() implies (#[trigger] t[i]).file_name@ != name by {
            assert(t[i] == s[i]);
        }
        lemma_no_such_file(t, name);
        assert(s[s.len() - 1].file_name@ != name);
    }
}

/// puts a script behind all those whose file names do not come after its own.
fn insert_script<P>(out: &mut Vec<HookScript<P>>, script: HookScript<P>)
    requires
        in_file_order(old(out)@),
    ensures
        is_sorted_from(final(out)@, old(out)@.push(script)),
        final(out)@.len() == old(out)@.len() + 1,
{
    let ghost before = out@;
    let mut p: usize = out.len();
    while p > 0 && text::is_before(script.file_name.as_str(), out[p - 1].file_name.as_str())
        invariant
            p <= out@.len(),
            out@ == before,
            forall|j: int|
                p <= j < before.len() ==> text::before(
                    script.file_name@,
                    (#[trigger] before[j]).file_name@,
                ),
        decreases p,
    {
        p -= 1;
    }
    let ghost a = before.take(p as int);
    let ghost b = before.skip(p as int);
    out.insert(p, script);
    proof {
        let key = script.file_name@;
        let r = out@;
        assert(r =~= a + seq![script] + b);
        assert(before =~= a + b);
        assert forall|i: int, j: int| 0 <= i < j < r.len() implies !text::before(
            (#[trigger] r[j]).file_name@,
            (#[trigger] r[i]).file_name@,
        ) by {
            if j < p {
                assert(r[i] == before[i] && r[j] == before[j]);
            } else if j == p {
                assert(r[i] == before[i]);
                assert(!text::before(key, before[p - 1].file_name@));
                lemma_not_before(before, i, p as int, key);
            } else {
                assert(r[j] == before[j - 1]);
                if i < p {
                    assert(r[i] == before[i]);
                } else if i == p {
                    text::lemma_before_asymmetric(key, before[j - 1].file_name@);
                } else {
                    assert(r[i] == before[i - 1]);
                }
            }
        }
        assert forall|name: Seq<char>| #[trigger] with_file_name(r, name) == with_file_name(
            before.push(script),
            name,
        ) by {
            lemma_with_file_name(a + seq![script], b, name);
            lemma_with_file_name(a, seq![script], name);
            lemma_with_file_name(a, b, name);
            assert(before.push(script) =~= before + seq![script]);
            lemma_with_file_name(before, seq![script], name);
            if name == key {
                assert forall|i: int| 0 <= i < b.len() implies (#[trigger] b[i]).file_name@
                    != name by {
                    assert(b[i] == before[p + i]);
                    text::lemma_before_irreflexive(key);
                }
                lemma_no_such_file(b, name);
                assert(with_file_name(r, name) =~= with_file_name(before.push(script), name));
            } else {
                lemma_no_such_file(seq![script], name);
                assert(with_file_name(r, name) =~= with_file_name(before.push(script), name));
            }
        }
    }
}

/// what does not come before the last of some scripts in order comes before none
/// of them.
proof fn lemma_not_before<P>(s: Seq<HookScript<P>>, i: int, p: int, key: Seq<char>)
    requires
        in_file_order(s),
        0 <= i < p <= s.len(),
        !text::before(key, s[p - 1].file_name@),
    ensures
        !text::before(key, s[i].file_name@),
{
    if text::before(key, s[i].file_name@) && i < p - 1 {
        assert(!text::before(s[p - 1].file_name@, s[i].file_name@));
        text::lemma_before_total(s[i].file_name@, s[p - 1].file_name@);
        if s[i].file_name@ != s[p - 1].file_name@ {
            text::lemma_before_transitive(key, s[i].file_name@, s[p - 1].file_name@);
        }
    }
}

/// sorts the scripts by file name; those with the same file name keep their
/// order.
pub fn sort_scripts<P>(scripts: Vec<HookScript<P>>) -> (r: Vec<HookScript<P>>)
    ensures
        is_sorted_from(r@, scripts@),
        r@.len() == scripts@.len(),
{
    let ghost all = scripts@;
    let mut rest = scripts;
    let mut out: Vec<HookScript<P>> = Vec::new();
    let ghost mut i: int = 0;
    proof {
        assert(all.skip(0) =~= all);
        assert(all.take(0) =~= Seq::empty());
    }
    while rest.len() > 0
        invariant
            0 <= i <= all.len(),
            rest@ == all.skip(i),
            out@.len() == i,
            is_sorted_from(out@, all.take(i)),
        decreases rest@.len(),
    {
        let x = rest.remove(0);
        let ghost before = out@;
        proof {
            assert(x == all[i]);
            assert(rest@ =~= all.skip(i + 1));
            assert(all.take(i + 1) =~= all.take(i).push(x));
        }
        insert_script(&mut out, x);
        proof {
            assert forall|name: Seq<char>| #[trigger] with_file_name(out@, name)
                == with_file_name(all.take(i + 1), name) by {
                assert(with_file_name(out@, name) == with_file_name(before.push(x), name));
                assert(before.push(x).drop_last() =~= before);
                assert(all.take(i + 1).drop_last() =~= all.take(i));
                assert(with_file_name(before, name) == with_file_name(all.take(i), name));
            }
            i = i + 1;
        }
    }
    assert(all.take(all.len() as int) =~= all);
    out
}

// --- what scripts are told ---

/// the stages that this host fires.
pub open spec fn stage_names() -> Seq<Seq<char>> {
    seq![
        "discover"@,
        "mutate_request"@,
        "before_tool"@,
        "after_tool"@,
        "execute_tool"@,
        "before_stop"@,
    ]
}

/// what the host says of itself.
pub open spec fn host_model() -> Model {
    Model::Object(
        Map::empty().insert("name"@, Model::Text("hrns"@)).insert(
            "version"@,
            Model::Number(json::number_of(3)),
        ).insert("stages"@, Model::Array(json::text_models(stage_names()))),
    )
}

/// what every script is told at every stage.
pub open spec fn base_fields(stage: Seq<char>, cwd: Seq<char>) -> Map<Seq<char>, Model> {
    Map::empty().insert("hook"@, Model::Text(stage)).insert("host"@, host_model()).insert(
        "cwd"@,
        Model::Text(cwd),
    )
}

/// what scripts are told at the stages of a session.
pub open spec fn session_fields(stage: Seq<char>, cwd: Seq<char>) -> Map<Seq<char>, Model> {
    base_fields(stage, cwd).insert(
        "session"@,
        Model::Object(Map::empty().insert("id"@, Model::Text("hrns"@))),
    )
}

/// the payload of `discover`.
pub open spec fn discover_payload(cwd: Seq<char>) -> Model {
    Model::Object(base_fields("discover"@, cwd))
}

/// the payload of `mutate_request`: the system prompt, the user prompt, the model
/// id, the tools, and a history of the one message of the user.
pub open spec fn request_payload(
    cwd: Seq<char>,
    system: Seq<char>,
    user: Seq<char>,
    model: Seq<char>,
    tools: Seq<Model>,
) -> Model {
    Model::Object(
        session_fields("mutate_request"@, cwd).insert("system"@, Model::Text(system)).insert(
            "user"@,
            Model::Text(user),
        ).insert(
            "history"@,
            Model::Array(
                seq![
                    Model::Object(
                        Map::empty().insert("role"@, Model::Text("user"@)).insert(
                            "content"@,
                            Model::Text(user),
                        ),
                    ),
                ],
            ),
        ).insert("model"@, Model::Text(model)).insert("tools"@, Model::Array(tools)),
    )
}

/// the payload of `before_tool`.
pub open spec fn before_payload(
    cwd: Seq<char>,
    tool: Seq<char>,
    call_id: Seq<char>,
    args: Model,
) -> Model {
    Model::Object(
        session_fields("before_tool"@, cwd).insert("tool"@, Model::Text(tool)).insert(
            "callID"@,
            Model::Text(call_id),
        ).insert("args"@, args),
    )
}

/// the payload of `after_tool`.
pub open spec fn after_payload(
    cwd: Seq<char>,
    tool: Seq<char>,
    call_id: Seq<char>,
    output: Seq<char>,
) -> Model {
    Model::Object(
        session_fields("after_tool"@, cwd).insert("tool"@, Model::Text(tool)).insert(
            "callID"@,
            Model::Text(call_id),
        ).insert("title"@, Model::Text(tool)).insert("output"@, Model::Text(output)),
    )
}

/// the payload of `before_stop`.
pub open spec fn stop_payload(
    cwd: Seq<char>,
    exit_reason: Seq<char>,
    error: Option<Seq<char>>,
) -> Model {
    let f = session_fields("before_stop"@, cwd).insert(
        "exit_reason"@,
        Model::Text(exit_reason),
    ).insert("final"@, Model::Bool(true));
    Model::Object(
        match error {
            Some(e) => f.insert("error"@, Model::Text(e)),
            None => f,
        },
    )
}

/// the payload of `execute_tool`.
pub open spec fn execute_payload(cwd: Seq<char>, tool: Seq<char>, args: Model) -> Model {
    Model::Object(
        base_fields("execute_tool"@, cwd).insert("tool"@, Model::Text(tool)).insert("args"@, args),
    )
}

/// host capability payload sent on every hook invocation. version is the
/// protocol version the host implements; stages enumerates the canonical stage
/// names this host actually fires.
pub fn host_capability() -> (r: Json)
    ensures
        r@ == host_model(),
{
    let mut stages: Vec<String> = Vec::new();
    stages.push("discover".to_owned());
    stages.push("mutate_request".to_owned());
    stages.push("before_tool".to_owned());
    stages.push("after_tool".to_owned());
    stages.push("execute_tool".to_owned());
    stages.push("before_stop".to_owned());
    assert(text::texts(stages@) =~= stage_names());
    let f = json::with(json::no_fields(), "name", Json::text("hrns"));
    let f = json::with(f, "version", Json::number(3));
    let f = json::with(f, "stages", json::text_array(stages.as_slice()));
    Json::object(f)
}

/// what every script is told at every stage.
fn base(stage: &str, cwd: &str) -> (r: Table<Json>)
    ensures
        json::field_models(r@) == base_fields(stage@, cwd@),
{
    let f = json::with(json::no_fields(), "hook", Json::text(stage));
    let f = json::with(f, "host", host_capability());
    json::with(f, "cwd", Json::text(cwd))
}

/// what scripts are told at the stages of a session.
fn session(stage: &str, cwd: &str) -> (r: Table<Json>)
    ensures
        json::field_models(r@) == session_fields(stage@, cwd@),
{
    let id = json::with(json::no_fields(), "id", Json::text("hrns"));
    json::with(base(stage, cwd), "session", Json::object(id))
}

/// the payload of `discover`.
pub fn discover_input(cwd: &str) -> (r: Json)
    ensures
        r@ == discover_payload(cwd@),
{
    Json::object(base("discover", cwd))
}

/// the payload of `mutate_request`.
pub fn mutate_request_input(
    cwd: &str,
    system: &str,
    user: &str,
    model: &str,
    tools: &Vec<Json>,
) -> (r: Json)
    ensures
        r@ == request_payload(cwd@, system@, user@, model@, json::item_models(tools@)),
{
    let message = json::with(json::no_fields(), "role", Json::text("user"));
    let message = Json::object(json::with(message, "content", Json::text(user)));
    let ghost shown = message@;
    let mut history: Vec<Json> = Vec::new();
    history.push(message);
    proof {
        json::lemma_item_models(history@);
        assert(json::item_models(history@) =~= seq![shown]);
    }
    let f = json::with(session("mutate_request", cwd), "system", Json::text(system));
    let f = json::with(f, "user", Json::text(user));
    let f = json::with(f, "history", Json::array(history));
    let f = json::with(f, "model", Json::text(model));
    let f = json::with(f, "tools", Json::array(json::copy_items(tools)));
    Json::object(f)
}

/// the payload of `before_tool`.
pub fn before_tool_input(cwd: &str, tool: &str, call_id: &str, args: &Json) -> (r: Json)
    ensures
        r@ == before_payload(cwd@, tool@, call_id@, args@),
{
    let f = json::with(session("before_tool", cwd), "tool", Json::text(tool));
    let f = json::with(f, "callID", Json::text(call_id));
    let f = json::with(f, "args", args.copy());
    Json::object(f)
}

/// the payload of `after_tool`.
pub fn after_tool_input(cwd: &str, tool: &str, call_id: &str, output: &str) -> (r: Json)
    ensures
        r@ == after_payload(cwd@, tool@, call_id@, output@),
{
    let f = json::with(session("after_tool", cwd), "tool", Json::text(tool));
    let f = json::with(f, "callID", Json::text(call_id));
    let f = json::with(f, "title", Json::text(tool));
    let f = json::with(f, "output", Json::text(output));
    Json::object(f)
}

/// the payload of `before_stop`.
pub fn before_stop_input(cwd: &str, exit_reason: &str, error: Option<&str>) -> (r: Json)
    ensures
        r@ == stop_payload(
            cwd@,
            exit_reason@,
            text::str_opt(error),
        ),
{
    let f = json::with(session("before_stop", cwd), "exit_reason", Json::text(exit_reason));
    let f = json::with(f, "final", Json::Bool(true));
    match error {
        Some(e) => Json::object(json::with(f, "error", Json::text(e))),
        None => Json::object(f),
    }
}

/// the payload of `execute_tool`.
pub fn execute_tool_input(cwd: &str, tool: &str, args: &Json) -> (r: Json)
    ensures
        r@ == execute_payload(cwd@, tool@, args@),
{
    let f = json::with(base("execute_tool", cwd), "tool", Json::text(tool));
    let f = json::with(f, "args", args.copy());
    Json::object(f)
}

// --- an invocation ---

/// the code of the error that the file to execute is open for writing.
pub const TEXT_FILE_BUSY: i32 = 26;

/// how often starting a script is tried again.
pub const SPAWN_RETRIES: u32 = 20;

/// starting a script is to be tried again after an error.
pub open spec fn is_retried(code: Option<i32>, attempt: int) -> bool {
    code == Some(26i32) && attempt < 20
}

/// whether starting a script is to be tried again after an error. another thread
/// may hold the file open for writing for a moment; that clears by itself, so it
/// is retried a few times before the error is surfaced.
pub fn retries_spawn(code: Option<i32>, attempt: u32) -> (r: bool)
    ensures
        r == (code == Some(TEXT_FILE_BUSY) && attempt < SPAWN_RETRIES),
        r == is_retried(code, attempt as int),
{
    match code {
        Some(c) => c == TEXT_FILE_BUSY && attempt < SPAWN_RETRIES,
        None => false,
    }
}

/// the error of a script that cannot be started.
pub fn spawn_error(path: &str, error: &str) -> (r: String)
    ensures
        r@ == "spawn "@ + path@ + ": "@ + error@,
{
    let head = text::concat3("spawn ", path, ": ");
    text::concat2(head.as_str(), error)
}

/// whether a script could be told its payload. one that ends without reading it
/// breaks the pipe, which is no error.
pub fn write_outcome(broken_pipe: bool, error: Option<&str>) -> (r: Result<(), String>)
    ensures
        match error {
            Some(e) if !broken_pipe => r is Err && r->Err_0@ == "write stdin: "@ + e@,
            _ => r is Ok,
        },
{
    match error {
        Some(e) => if broken_pipe {
            Ok(())
        } else {
            Err(text::concat2("write stdin: ", e))
        },
        None => Ok(()),
    }
}

/// what a script that has ended gave: what its output comes to where it succeeded,
/// and else its exit status.
pub open spec fn ended(success: bool, status: Seq<char>, stdout: Seq<char>) -> Result<
    merge::Progress,
    Seq<char>,
> {
    if success {
        Ok(merge::after_lines(text::lines(stdout)))
    } else {
        Err("exit "@ + status)
    }
}

/// what a script that has ended gave: its output merged into one object, with
/// what is to be reported, or that it failed. `status` is its exit status as it
/// is shown.
pub fn read_response(success: bool, status: &str, stdout: &str) -> (r: Result<
    (Table<Json>, Vec<merge::Note>),
    String,
>)
    ensures
        match r {
            Ok((fields, notes)) => {
                let p = merge::after_lines(text::lines(stdout@));
                &&& success
                &&& json::field_models(fields@) == p.fields
                &&& merge::note_models(notes@) == p.notes
            },
            Err(m) => !success && m@ == "exit "@ + status@,
        },
        match r {
            Ok((fields, notes)) => {
                &&& ended(success, status@, stdout@) is Ok
                &&& json::field_models(fields@) == ended(success, status@, stdout@)->Ok_0.fields
                &&& merge::note_models(notes@) == ended(success, status@, stdout@)->Ok_0.notes
            },
            Err(m) => ended(success, status@, stdout@) == Err::<merge::Progress, Seq<char>>(m@),
        },
{
    if success {
        Ok(merge::merge_output(stdout))
    } else {
        Err(text::concat2("exit ", status))
    }
}

// --- what is made of the answers ---

/// what invoking a script gives: its merged response, or why there is none.
pub type Response = Result<Table<Json>, String>;

/// mutations a `before_tool` hook can request. `args` replaces the arguments of
/// the call. when both `deny` and `result` are set, `deny` wins (the call is
/// refused, no synthetic result is substituted).
#[derive(Debug)]
pub struct BeforeToolResult {
    pub deny: Option<String>,
    pub result: Option<String>,
    pub args: Option<Json>,
}

impl Default for BeforeToolResult {
    fn default() -> (r: Self)
        ensures
            r.deny is None,
            r.result is None,
            r.args is None,
    {
        BeforeToolResult { deny: None, result: None, args: None }
    }
}

/// mutations an `after_tool` hook can request. `result` replaces the text fed
/// back to the model.
#[derive(Debug)]
pub struct AfterToolResult {
    pub result: Option<String>,
}

impl Default for AfterToolResult {
    fn default() -> (r: Self)
        ensures
            r.result is None,
    {
        AfterToolResult { result: None }
    }
}

/// the responses of several scripts, merged in their order; a script that failed
/// adds nothing.
pub open spec fn accumulated(responses: Seq<Response>) -> Map<Seq<char>, Model>
    decreases responses.len(),
{
    if responses.len() == 0 {
        Map::empty()
    } else {
        let acc = accumulated(responses.drop_last());
        match responses.last() {
            Ok(t) => merge::merged_object(acc, json::field_models(t@)),
            Err(_) => acc,
        }
    }
}

/// the text under a key of the merged responses.
pub open spec fn answer(responses: Seq<Response>, key: Seq<char>) -> Option<Seq<char>> {
    json::text_in(merge::at(accumulated(responses), key))
}

/// the texts among the values, in their order.
pub open spec fn texts_in(items: Seq<Model>) -> Seq<Seq<char>>
    decreases items.len(),
{
    if items.len() == 0 {
        Seq::empty()
    } else {
        let rest = texts_in(items.drop_last());
        match items.last() {
            Model::Text(s) => rest.push(s),
            _ => rest,
        }
    }
}

/// the `system` texts of the responses, in the order of the scripts.
pub open spec fn system_texts(responses: Seq<Response>) -> Seq<Seq<char>>
    decreases responses.len(),
{
    if responses.len() == 0 {
        Seq::empty()
    } else {
        let rest = system_texts(responses.drop_last());
        match responses.last() {
            Ok(t) => rest + texts_in(
                schema::items_under(Model::Object(json::field_models(t@)), "system"@),
            ),
            Err(_) => rest,
        }
    }
}

/// what is said of the scripts that failed at a stage.
pub open spec fn failures<P>(
    stage: Seq<char>,
    scripts: Seq<HookScript<P>>,
    responses: Seq<Response>,
) -> Seq<Seq<char>>
    decreases responses.len(),
{
    if responses.len() == 0 {
        Seq::empty()
    } else {
        let rest = failures(stage, scripts, responses.drop_last());
        match responses.last() {
            Ok(_) => rest,
            Err(e) => rest.push(
                "hook "@ + stage + " failed for "@ + scripts[responses.len() - 1].name@ + ": "@
                    + e@,
            ),
        }
    }
}

/// merges the responses of several scripts.
fn accumulate(responses: &Vec<Response>) -> (r: Table<Json>)
    ensures
        json::field_models(r@) == accumulated(responses@),
{
    let mut acc = json::no_fields();
    let mut i: usize = 0;
    assert(responses@.take(0) =~= Seq::empty());
    while i < responses.len()
        invariant
            i <= responses@.len(),
            json::field_models(acc@) == accumulated(responses@.take(i as int)),
        decreases responses@.len() - i,
    {
        assert(responses@.take(i + 1).drop_last() =~= responses@.take(i as int));
        if let Ok(t) = &responses[i] {
            merge::merge_object(&mut acc, t);
        }
        i += 1;
    }
    assert(responses@.take(responses@.len() as int) =~= responses@);
    acc
}

/// the text under a key.
fn text_at(fields: &Table<Json>, key: &str) -> (r: Option<String>)
    ensures
        text::text_opt(r) == json::text_in(merge::at(json::field_models(fields@), key@)),
{
    match fields.get(key) {
        Some(Json::Text(s)) => Some(s.clone()),
        _ => None,
    }
}

/// what the scripts' answers to `before_tool` request.
pub fn before_tool_result(responses: &Vec<Response>) -> (r: BeforeToolResult)
    ensures
        text::text_opt(r.deny) == answer(responses@, "deny"@),
        text::text_opt(r.result) == answer(responses@, "result"@),
        json::model_opt(r.args) == merge::at(accumulated(responses@), "args"@),
{
    let acc = accumulate(responses);
    let args = match acc.get("args") {
        Some(j) => Some(j.copy()),
        None => None,
    };
    BeforeToolResult { deny: text_at(&acc, "deny"), result: text_at(&acc, "result"), args }
}

/// what the scripts' answers to `after_tool` request.
pub fn after_tool_result(responses: &Vec<Response>) -> (r: AfterToolResult)
    ensures
        text::text_opt(r.result) == answer(responses@, "result"@),
{
    let acc = accumulate(responses);
    AfterToolResult { result: text_at(&acc, "result") }
}

/// adds the texts among the values.
fn add_texts(out: &mut Vec<String>, items: &Vec<Json>)
    ensures
        text::texts(final(out)@) == text::texts(old(out)@) + texts_in(json::item_models(items@)),
{
    let ghost before = text::texts(out@);
    let ghost all = json::item_models(items@);
    proof {
        json::lemma_item_models(items@);
        assert(all.take(0) =~= Seq::empty());
        assert(before + texts_in(all.take(0)) =~= before);
    }
    let mut i: usize = 0;
    while i < items.len()
        invariant
            i <= items@.len(),
            all == json::item_models(items@),
            all.len() == items@.len(),
            forall|j: int| 0 <= j < all.len() ==> #[trigger] all[j] == json::model(items@[j]),
            text::texts(out@) == before + texts_in(all.take(i as int)),
        decreases items@.len() - i,
    {
        let ghost t = all.take(i + 1);
        assert(t.drop_last() =~= all.take(i as int));
        assert(t.last() == all[i as int]);
        if let Json::Text(s) = &items[i] {
            let ghost list = out@;
            out.push(s.clone());
            assert(text::texts(out@) =~= text::texts(list).push(s@));
            assert(text::texts(out@) =~= before + texts_in(t));
        }
        i += 1;
    }
    assert(all.take(all.len() as int) =~= all);
}

/// the `system` texts of the scripts' answers to `mutate_request`, in the order of
/// the scripts.
pub fn system_fragments(responses: &Vec<Response>) -> (r: Vec<String>)
    ensures
        text::texts(r@) == system_texts(responses@),
{
    let mut out: Vec<String> = Vec::new();
    let mut i: usize = 0;
    assert(responses@.take(0) =~= Seq::empty());
    assert(text::texts(out@) =~= Seq::empty());
    while i < responses.len()
        invariant
            i <= responses@.len(),
            text::texts(out@) == system_texts(responses@.take(i as int)),
        decreases responses@.len() - i,
    {
        assert(responses@.take(i + 1).drop_last() =~= responses@.take(i as int));
        let ghost rest = system_texts(responses@.take(i as int));
        if let Ok(t) = &responses[i] {
            match t.get("system") {
                Some(Json::Array(items)) => {
                    add_texts(&mut out, items);
                },
                _ => {
                    assert(texts_in(Seq::empty()) =~= Seq::empty());
                    assert(rest + Seq::<Seq<char>>::empty() =~= rest);
                },
            }
        }
        i += 1;
    }
    assert(responses@.take(responses@.len() as int) =~= responses@);
    out
}

// --- the manager ---

/// orchestrates the lifecycle of all discovered hook scripts.
#[derive(Debug)]
pub struct HookManager<P> {
    pub scripts: Vec<HookScript<P>>,
}

impl<P> Default for HookManager<P> {
    fn default() -> (r: Self)
        ensures
            r.scripts@.len() == 0,
    {
        HookManager { scripts: Vec::new() }
    }
}

impl<P: Clone> Clone for HookManager<P> {
    fn clone(&self) -> (r: Self)
        ensures
            r.scripts@.len() == self.scripts@.len(),
            forall|i: int|
                0 <= i < r.scripts@.len() ==> is_clone_of(
                    #[trigger] r.scripts@[i],
                    self.scripts@[i],
                ),
    {
        let mut scripts: Vec<HookScript<P>> = Vec::new();
        let mut i: usize = 0;
        while i < self.scripts.len()
            invariant
                i <= self.scripts@.len(),
                scripts@.len() == i,
                forall|j: int|
                    0 <= j < i ==> is_clone_of(#[trigger] scripts@[j], self.scripts@[j]),
            decreases self.scripts@.len() - i,
        {
            scripts.push(self.scripts[i].clone());
            i += 1;
        }
        HookManager { scripts }
    }
}

/// `invoke` can be called on every script.
pub open spec fn can_invoke<P, F: Fn(&HookScript<P>, &str, &Json) -> Response>(invoke: F) -> bool {
    forall|s: &HookScript<P>, stage: &str, payload: &Json| #[trigger]
        call_requires(invoke, (s, stage, payload))
}

/// `responses` are what `invoke` gives for the scripts, one by one.
pub open spec fn invoked<P, F: Fn(&HookScript<P>, &str, &Json) -> Response>(
    invoke: F,
    scripts: Seq<HookScript<P>>,
    stage: &str,
    payload: Json,
    responses: Seq<Response>,
) -> bool {
    &&& responses.len() == scripts.len()
    &&& forall|i: int|
        0 <= i < scripts.len() ==> call_ensures(
            invoke,
            (&#[trigger] scripts[i], stage, &payload),
            responses[i],
        )
}

/// `responses` are what `invoke` gives for the scripts, one by one, at the stage
/// with the payload.
pub open spec fn answered<P, F: Fn(&HookScript<P>, &str, &Json) -> Response>(
    invoke: F,
    scripts: Seq<HookScript<P>>,
    stage: Seq<char>,
    payload: Model,
    responses: Seq<Response>,
) -> bool {
    exists|s: &str, j: Json| #[trigger]
        invoked(invoke, scripts, s, j, responses) && s@ == stage && j@ == payload
}

/// `verdicts` are what `filter` says to the names of the scripts, one by one.
pub open spec fn judged<P, F: Fn(&str) -> bool>(
    filter: F,
    scripts: Seq<HookScript<P>>,
    verdicts: Seq<bool>,
) -> bool {
    &&& verdicts.len() == scripts.len()
    &&& forall|i: int|
        0 <= i < scripts.len() ==> says(filter, (#[trigger] scripts[i]).name@, verdicts[i])
}

/// `filter` may say so to a name.
pub open spec fn says<F: Fn(&str) -> bool>(filter: F, name: Seq<char>, verdict: bool) -> bool {
    exists|s: &str| s@ == name && #[trigger] call_ensures(filter, (s,), verdict)
}

/// the scripts whose verdict is good, in their order.
pub open spec fn kept<P>(scripts: Seq<HookScript<P>>, verdicts: Seq<bool>) -> Seq<HookScript<P>>
    decreases scripts.len(),
{
    if scripts.len() == 0 {
        Seq::empty()
    } else {
        let rest = kept(scripts.drop_last(), verdicts);
        if verdicts[scripts.len() - 1] {
            rest.push(scripts.last())
        } else {
            rest
        }
    }
}

/// what is kept of the first scripts does not depend on later verdicts.
proof fn lemma_kept<P>(scripts: Seq<HookScript<P>>, a: Seq<bool>, b: Seq<bool>)
    requires
        scripts.len() <= a.len(),
        scripts.len() <= b.len(),
        forall|i: int| 0 <= i < scripts.len() ==> a[i] == b[i],
    ensures
        kept(scripts, a) == kept(scripts, b),
    decreases scripts.len(),
{
    if scripts.len() > 0 {
        lemma_kept(scripts.drop_last(), a, b);
    }
}

impl<P> HookManager<P> {
    pub fn scripts(&self) -> (r: &Vec<HookScript<P>>)
        ensures
            *r == self.scripts,
    {
        &self.scripts
    }

    /// retains only hooks whose name passes the given filter. used to apply the
    /// `[hooks]` config section after discovery.
    pub fn retain<F: Fn(&str) -> bool>(self, filter: F) -> (r: Self)
        requires
            forall|s: &str| #[trigger] call_requires(filter, (s,)),
        ensures
            exists|verdicts: Seq<bool>| #[trigger]
                judged(filter, self.scripts@, verdicts) && r.scripts@ == kept(
                    self.scripts@,
                    verdicts,
                ),
    {
        let ghost all = self.scripts@;
        let mut rest = self.scripts;
        let mut out: Vec<HookScript<P>> = Vec::new();
        let ghost mut i: int = 0;
        let ghost mut verdicts: Seq<bool> = Seq::empty();
        proof {
            assert(all.skip(0) =~= all);
            assert(all.take(0) =~= Seq::empty());
        }
        while rest.len() > 0
            invariant
                0 <= i <= all.len(),
                rest@ == all.skip(i),
                forall|s: &str| #[trigger] call_requires(filter, (s,)),
                judged(filter, all.take(i), verdicts),
                out@ == kept(all.take(i), verdicts),
            decreases rest@.len(),
        {
            let script = rest.remove(0);
            let good = filter(script.name.as_str());
            let ghost before = verdicts;
            proof {
                assert(script == all[i]);
                assert(rest@ =~= all.skip(i + 1));
                verdicts = verdicts.push(good);
                let t = all.take(i + 1);
                assert(t.drop_last() =~= all.take(i));
                lemma_kept(all.take(i), before, verdicts);
                assert(says(filter, script.name@, good));
                assert forall|j: int| 0 <= j < t.len() implies says(
                    filter,
                    (#[trigger] t[j]).name@,
                    verdicts[j],
                ) by {
                    if j < i {
                        assert(t[j] == all.take(i)[j]);
                    }
                }
                i = i + 1;
            }
            if good {
                out.push(script);
            }
        }
        assert(all.take(all.len() as int) =~= all);
        HookManager { scripts: out }
    }

    /// invokes every script with the stage and the payload.
    fn ask_all<F: Fn(&HookScript<P>, &str, &Json) -> Response>(
        &self,
        stage: &str,
        payload: &Json,
        invoke: &F,
    ) -> (r: Vec<Response>)
        requires
            can_invoke(*invoke),
        ensures
            answered(*invoke, self.scripts@, stage@, payload@, r@),
    {
        let mut out: Vec<Response> = Vec::new();
        let mut i: usize = 0;
        while i < self.scripts.len()
            invariant
                i <= self.scripts@.len(),
                can_invoke(*invoke),
                out@.len() == i,
                forall|j: int|
                    0 <= j < i ==> call_ensures(
                        *invoke,
                        (&#[trigger] self.scripts@[j], stage, payload),
                        out@[j],
                    ),
            decreases self.scripts@.len() - i,
        {
            let response = invoke(&self.scripts[i], stage, payload);
            out.push(response);
            i += 1;
        }
        assert(invoked(*invoke, self.scripts@, stage, *payload, out@));
        out
    }

    /// what is said of the scripts that failed at a stage.
    fn describe_failures(&self, stage: &str, responses: &Vec<Response>) -> (r: Vec<String>)
        requires
            responses@.len() == self.scripts@.len(),
        ensures
            text::texts(r@) == failures(stage@, self.scripts@, responses@),
    {
        let mut out: Vec<String> = Vec::new();
        let mut i: usize = 0;
        assert(responses@.take(0) =~= Seq::empty());
        assert(text::texts(out@) =~= Seq::empty());
        while i < responses.len()
            invariant
                i <= responses@.len(),
                responses@.len() == self.scripts@.len(),
                text::texts(out@) == failures(stage@, self.scripts@, responses@.take(i as int)),
            decreases responses@.len() - i,
        {
            assert(responses@.take(i + 1).drop_last() =~= responses@.take(i as int));
            if let Err(e) = &responses[i] {
                let head = text::concat3("hook ", stage, " failed for ");
                let tail = text::concat3(self.scripts[i].name.as_str(), ": ", e.as_str());
                let m = text::concat2(head.as_str(), tail.as_str());
                let ghost list = out@;
                out.push(m);
                assert(m@ =~= "hook "@ + stage@ + " failed for "@ + self.scripts@[i as int].name@
                    + ": "@ + e@);
                assert(text::texts(out@) =~= text::texts(list).push(m@));
            }
            i += 1;
        }
        assert(responses@.take(responses@.len() as int) =~= responses@);
        out
    }

    /// runs `mutate_request` on every script and returns the system prompt
    /// fragments in script order, and what is to be said of the scripts that
    /// failed. the payload includes the finalized system prompt, user prompt,
    /// model id and tools, and a one-message history so observational hooks can
    /// inspect the full request that's about to go to the LLM.
    pub fn mutate_request<F: Fn(&HookScript<P>, &str, &Json) -> Response>(
        &self,
        cwd: &str,
        system_prompt: &str,
        user_prompt: &str,
        model: &str,
        tools: &Vec<Json>,
        invoke: &F,
    ) -> (r: (Vec<String>, Vec<String>))
        requires
            can_invoke(*invoke),
        ensures
            exists|responses: Seq<Response>|
                {
                    &&& #[trigger] answered(
                        *invoke,
                        self.scripts@,
                        "mutate_request"@,
                        request_payload(
                            cwd@,
                            system_prompt@,
                            user_prompt@,
                            model@,
                            json::item_models(tools@),
                        ),
                        responses,
                    )
                    &&& text::texts(r.0@) == system_texts(responses)
                    &&& text::texts(r.1@) == failures(
                        "mutate_request"@,
                        self.scripts@,
                        responses,
                    )
                },
    {
        let input = mutate_request_input(cwd, system_prompt, user_prompt, model, tools);
        let responses = self.ask_all("mutate_request", &input, invoke);
        let fragments = system_fragments(&responses);
        let complaints = self.describe_failures("mutate_request", &responses);
        (fragments, complaints)
    }

    /// fired before any tool call (built-in or hook-registered). hooks can return
    /// `{"deny": "<reason>"}` to refuse the call, `{"args": {...}}` to rewrite its
    /// arguments, or `{"result": "..."}` to substitute a synthetic result without
    /// running the tool.
    pub fn before_tool<F: Fn(&HookScript<P>, &str, &Json) -> Response>(
        &self,
        cwd: &str,
        tool: &str,
        call_id: &str,
        args: &Json,
        invoke: &F,
    ) -> (r: BeforeToolResult)
        requires
            can_invoke(*invoke),
        ensures
            exists|responses: Seq<Response>|
                {
                    &&& #[trigger] answered(
                        *invoke,
                        self.scripts@,
                        "before_tool"@,
                        before_payload(cwd@, tool@, call_id@, args@),
                        responses,
                    )
                    &&& text::text_opt(r.deny) == answer(responses, "deny"@)
                    &&& text::text_opt(r.result) == answer(responses, "result"@)
                    &&& json::model_opt(r.args) == merge::at(accumulated(responses), "args"@)
                },
    {
        let input = before_tool_input(cwd, tool, call_id, args);
        let responses = self.ask_all("before_tool", &input, invoke);
        before_tool_result(&responses)
    }

    /// fired after any tool call completes. hooks can return `{"result": "..."}`
    /// to replace the result text fed back to the model.
    pub fn after_tool<F: Fn(&HookScript<P>, &str, &Json) -> Response>(
        &self,
        cwd: &str,
        tool: &str,
        call_id: &str,
        output: &str,
        invoke: &F,
    ) -> (r: AfterToolResult)
        requires
            can_invoke(*invoke),
        ensures
            exists|responses: Seq<Response>|
                {
                    &&& #[trigger] answered(
                        *invoke,
                        self.scripts@,
                        "after_tool"@,
                        after_payload(cwd@, tool@, call_id@, output@),
                        responses,
                    )
                    &&& text::text_opt(r.result) == answer(responses, "result"@)
                },
    {
        let input = after_tool_input(cwd, tool, call_id, output);
        let responses = self.ask_all("after_tool", &input, invoke);
        after_tool_result(&responses)
    }

    /// fired once after the streaming loop terminates (whether by natural stop,
    /// max_turns, error, or cancel). observational only: `continue` responses are
    /// not honored (no re-entry). hands out what is to be said of the scripts
    /// that failed.
    pub fn before_stop<F: Fn(&HookScript<P>, &str, &Json) -> Response>(
        &self,
        cwd: &str,
        exit_reason: &str,
        error: Option<&str>,
        invoke: &F,
    ) -> (r: Vec<String>)
        requires
            can_invoke(*invoke),
        ensures
            exists|responses: Seq<Response>|
                {
                    &&& #[trigger] answered(
                        *invoke,
                        self.scripts@,
                        "before_stop"@,
                        stop_payload(
                            cwd@,
                            exit_reason@,
                            text::str_opt(error),
                        ),
                        responses,
                    )
                    &&& text::texts(r@) == failures("before_stop"@, self.scripts@, responses)
                },
    {
        let input = before_stop_input(cwd, exit_reason, error);
        let responses = self.ask_all("before_stop", &input, invoke);
        self.describe_failures("before_stop", &responses)
    }
}

// --- discovery ---

/// the fields recognized in a `discover` response.
#[derive(Debug)]
pub struct DiscoverResponse {
    pub name: Option<String>,
    pub test: Option<String>,
    pub tools: Vec<DiscoveredTool>,
}

/// a tool in a `discover` response.
#[derive(Debug)]
pub struct DiscoveredTool {
    pub name: String,
    pub description: String,
    pub parameters: Table<Json>,
    pub permission: Option<DiscoveredPermission>,
}

/// how a tool is held against the permissions.
#[derive(Debug)]
pub struct DiscoveredPermission {
    /// name (or list of names) of the parameter(s) used as the permission key
    /// when checking against the host's pattern map.
    pub arg: Json,
}

/// the parameters that make up the permission key.
pub open spec fn permission_names(permission: Option<DiscoveredPermission>) -> Seq<Seq<char>> {
    match permission {
        Some(p) => match p.arg@ {
            Model::Text(s) => seq![s],
            Model::Array(items) => texts_in(items),
            _ => Seq::empty(),
        },
        None => Seq::empty(),
    }
}

/// a discovered tool of the script with the given name.
pub open spec fn registered(script: Seq<char>, t: DiscoveredTool) -> ToolModel {
    ToolModel {
        full_name: script + "_"@ + t.name@,
        short_name: t.name@,
        description: t.description@,
        schema: schema::schema_of(json::field_models(t.parameters@)),
        permission_args: permission_names(t.permission),
    }
}

/// the discovered tools of the script with the given name.
pub open spec fn all_registered(script: Seq<char>, list: Seq<DiscoveredTool>) -> Seq<ToolModel> {
    Seq::new(list.len(), |i: int| registered(script, list[i]))
}

/// the name that a script goes by after a `discover` response.
pub open spec fn discovered_name(old: Seq<char>, d: DiscoverResponse) -> Seq<char> {
    match d.name {
        Some(n) => n@,
        None => old,
    }
}

/// `new` is the script `old` after a `discover` response.
pub open spec fn is_discovered<P>(
    new: HookScript<P>,
    old: HookScript<P>,
    d: DiscoverResponse,
) -> bool {
    &&& new.name@ == discovered_name(old.name@, d)
    &&& new.file_name == old.file_name
    &&& new.path == old.path
    &&& new.test == d.test
    &&& tool_models(new.tools@) == all_registered(new.name@, d.tools@)
}

/// the parameters that make up the permission key.
fn read_permission(permission: &Option<DiscoveredPermission>) -> (r: Vec<String>)
    ensures
        text::texts(r@) == permission_names(*permission),
{
    let mut out: Vec<String> = Vec::new();
    assert(text::texts(out@) =~= Seq::empty());
    if let Some(p) = permission {
        match &p.arg {
            Json::Text(s) => {
                out.push(s.clone());
                assert(text::texts(out@) =~= seq![s@]);
            },
            Json::Array(items) => {
                add_texts(&mut out, items);
                assert(text::texts(out@) =~= texts_in(json::item_models(items@)));
            },
            _ => {},
        }
    }
    out
}

/// a discovered tool of the script with the given name.
fn register(script: &str, t: DiscoveredTool) -> (r: HookToolDef)
    ensures
        r@ == registered(script@, t),
{
    let full_name = text::concat3(script, "_", t.name.as_str());
    let parameters_schema = schema::build_parameters_schema(&t.parameters);
    let permission_args = read_permission(&t.permission);
    HookToolDef {
        full_name,
        short_name: t.name,
        description: t.description,
        parameters_schema,
        permission_args,
    }
}

/// takes a `discover` response to a script's name, test and tools.
pub fn apply_discovery<P>(script: &mut HookScript<P>, response: DiscoverResponse)
    ensures
        is_discovered(*final(script), *old(script), response),
{
    if let Some(name) = response.name {
        script.name = name;
    }
    script.test = response.test;
    let ghost all = response.tools@;
    let ghost prefix = script.name@;
    let mut rest = response.tools;
    let mut out: Vec<HookToolDef> = Vec::new();
    let ghost mut i: int = 0;
    assert(all.skip(0) =~= all);
    while rest.len() > 0
        invariant
            0 <= i <= all.len(),
            rest@ == all.skip(i),
            script.name@ == prefix,
            out@.len() == i,
            forall|j: int| 0 <= j < i ==> (#[trigger] out@[j])@ == registered(prefix, all[j]),
        decreases rest@.len(),
    {
        let t = rest.remove(0);
        proof {
            assert(t == all[i]);
            assert(rest@ =~= all.skip(i + 1));
            i = i + 1;
        }
        out.push(register(script.name.as_str(), t));
    }
    assert(tool_models(out@) =~= all_registered(prefix, all));
    script.tools = out;
}

/// what `invoke` gives for a script at the stage with the payload.
pub open spec fn replied<P, F: Fn(&HookScript<P>, &str, &Json) -> Response>(
    invoke: F,
    script: HookScript<P>,
    stage: Seq<char>,
    payload: Model,
    response: Response,
) -> bool {
    exists|s: &str, j: Json| #[trigger]
        call_ensures(invoke, (&script, s, &j), response) && s@ == stage && j@ == payload
}

/// what asking a script to introduce itself leads to, where `invoke` gave
/// `response` and `read` gave `d` for it.
pub open spec fn discovery_outcome<P>(
    new: HookScript<P>,
    old: HookScript<P>,
    response: Response,
    d: Option<Result<DiscoverResponse, String>>,
    r: Result<(), String>,
) -> bool {
    match response {
        Err(e) => new == old && r is Err && r->Err_0@ == e@,
        Ok(_) => match d {
            Some(Ok(d)) => is_discovered(new, old, d) && r is Ok,
            Some(Err(e)) => new == old && r is Err && r->Err_0@ == "invalid discover response: "@
                + e@,
            None => false,
        },
    }
}

/// `d` is what `read` gives for the response, if there is one.
pub open spec fn understood<D: Fn(&Table<Json>) -> Result<DiscoverResponse, String>>(
    read: D,
    response: Response,
    d: Option<Result<DiscoverResponse, String>>,
) -> bool {
    match response {
        Ok(t) => d is Some && call_ensures(read, (&t,), d->0),
        Err(_) => d is None,
    }
}

/// the script `old` was asked to introduce itself, which made it `new` and gave `r`.
pub open spec fn introduced<
    P,
    F: Fn(&HookScript<P>, &str, &Json) -> Response,
    D: Fn(&Table<Json>) -> Result<DiscoverResponse, String>,
>(
    invoke: F,
    read: D,
    cwd: Seq<char>,
    new: HookScript<P>,
    old: HookScript<P>,
    r: Result<(), String>,
) -> bool {
    exists|response: Response, d: Option<Result<DiscoverResponse, String>>|
        {
            &&& replied(invoke, old, "discover"@, discover_payload(cwd), response)
            &&& #[trigger] understood(read, response, d)
            &&& discovery_outcome(new, old, response, d, r)
        }
}

/// runs `discover` on a script, populating its name/test/tools fields in place.
/// `read` reads the merged response.
pub fn run_discover<
    P,
    F: Fn(&HookScript<P>, &str, &Json) -> Response,
    D: Fn(&Table<Json>) -> Result<DiscoverResponse, String>,
>(script: &mut HookScript<P>, cwd: &str, invoke: &F, read: &D) -> (r: Result<(), String>)
    requires
        can_invoke(*invoke),
        forall|t: &Table<Json>| #[trigger] call_requires(*read, (t,)),
    ensures
        introduced(*invoke, *read, cwd@, *final(script), *old(script), r),
{
    let input = discover_input(cwd);
    let ghost before = *script;
    let response = invoke(&*script, "discover", &input);
    let ghost given = response;
    assert(replied(*invoke, before, "discover"@, discover_payload(cwd@), given));
    match response {
        Err(e) => {
            assert(understood(*read, given, None));
            Err(e)
        },
        Ok(merged) => {
            let parsed = read(&merged);
            assert(understood(*read, given, Some(parsed)));
            match parsed {
                Ok(d) => {
                    apply_discovery(script, d);
                    Ok(())
                },
                Err(e) => Err(text::concat2("invalid discover response: ", e.as_str())),
            }
        },
    }
}

/// the errors among the results, each with its index.
pub open spec fn errors_in(results: Seq<Result<(), String>>) -> Seq<(int, Seq<char>)>
    decreases results.len(),
{
    if results.len() == 0 {
        Seq::empty()
    } else {
        let rest = errors_in(results.drop_last());
        match results.last() {
            Ok(_) => rest,
            Err(e) => rest.push((results.len() - 1, e@)),
        }
    }
}

/// what a list of numbered errors stands for.
pub open spec fn error_models(s: Seq<(usize, String)>) -> Seq<(int, Seq<char>)> {
    Seq::new(s.len(), |i: int| (s[i].0 as int, s[i].1@))
}

/// the scripts `old` were asked to introduce themselves, one by one.
pub open spec fn all_introduced<
    P,
    F: Fn(&HookScript<P>, &str, &Json) -> Response,
    D: Fn(&Table<Json>) -> Result<DiscoverResponse, String>,
>(
    invoke: F,
    read: D,
    cwd: Seq<char>,
    new: Seq<HookScript<P>>,
    old: Seq<HookScript<P>>,
    results: Seq<Result<(), String>>,
) -> bool {
    &&& new.len() == old.len()
    &&& results.len() == old.len()
    &&& forall|i: int|
        0 <= i < old.len() ==> introduced(
            invoke,
            read,
            cwd,
            #[trigger] new[i],
            old[i],
            results[i],
        )
}

impl<P> HookManager<P> {
    /// sets up the manager for the scripts that were found: they are put in the
    /// order of their file names, and each is invoked once with the `discover`
    /// stage to enumerate its tools. the errors are handed out, each with the
    /// index of its script.
    pub fn discover<
        F: Fn(&HookScript<P>, &str, &Json) -> Response,
        D: Fn(&Table<Json>) -> Result<DiscoverResponse, String>,
    >(found: Vec<HookScript<P>>, cwd: &str, invoke: &F, read: &D) -> (r: (
        Self,
        Vec<(usize, String)>,
    ))
        requires
            can_invoke(*invoke),
            forall|t: &Table<Json>| #[trigger] call_requires(*read, (t,)),
        ensures
            exists|sorted: Seq<HookScript<P>>, results: Seq<Result<(), String>>|
                {
                    &&& is_sorted_from(sorted, found@)
                    &&& #[trigger] all_introduced(
                        *invoke,
                        *read,
                        cwd@,
                        r.0.scripts@,
                        sorted,
                        results,
                    )
                    &&& error_models(r.1@) == errors_in(results)
                },
    {
        let scripts = sort_scripts(found);
        let ghost sorted = scripts@;
        let mut rest = scripts;
        let mut out: Vec<HookScript<P>> = Vec::new();
        let mut errors: Vec<(usize, String)> = Vec::new();
        let ghost mut results: Seq<Result<(), String>> = Seq::empty();
        proof {
            assert(sorted.skip(0) =~= sorted);
            assert(sorted.take(0) =~= Seq::empty());
            assert(error_models(errors@) =~= Seq::empty());
        }
        while rest.len() > 0
            invariant
                out@.len() + rest@.len() == sorted.len(),
                rest@ == sorted.skip(out@.len() as int),
                can_invoke(*invoke),
                forall|t: &Table<Json>| #[trigger] call_requires(*read, (t,)),
                all_introduced(
                    *invoke,
                    *read,
                    cwd@,
                    out@,
                    sorted.take(out@.len() as int),
                    results,
                ),
                error_models(errors@) == errors_in(results),
            decreases rest@.len(),
        {
            let mut script = rest.remove(0);
            let ghost i = out@.len() as int;
            let ghost before = out@;
            let ghost earlier = results;
            proof {
                assert(script == sorted[i]);
                assert(rest@ =~= sorted.skip(i + 1));
            }
            let result = run_discover(&mut script, cwd, invoke, read);
            proof {
                results = results.push(result);
                assert(results.drop_last() =~= earlier);
            }
            let index = out.len();
            out.push(script);
            proof {
                let t = sorted.take(i + 1);
                assert forall|j: int| 0 <= j < t.len() implies introduced(
                    *invoke,
                    *read,
                    cwd@,
                    #[trigger] out@[j],
                    t[j],
                    results[j],
                ) by {
                    if j < i {
                        assert(out@[j] == before[j]);
                        assert(t[j] == sorted.take(i)[j]);
                        assert(introduced(
                            *invoke,
                            *read,
                            cwd@,
                            before[j],
                            sorted.take(i)[j],
                            earlier[j],
                        ));
                    }
                }
            }
            if let Err(e) = result {
                let ghost list = errors@;
                errors.push((index, e));
                assert(error_models(errors@) =~= error_models(list).push((index as int, e@)));
            }
        }
        assert(sorted.take(out@.len() as int) =~= sorted);
        let r = (HookManager { scripts: out }, errors);
        assert(all_introduced(*invoke, *read, cwd@, r.0.scripts@, sorted, results));
        r
    }

    /// the tools that the scripts register and that are active, each by the index
    /// of its script and its own there. hook tools are gated by `[tools]` on
    /// their full name in addition to the `[hooks]` gate that decided which
    /// scripts to load.
    pub fn extra_tools(&self, tools: &ToolsConfig, tools_override: &Option<Vec<String>>) -> (r: Vec<
        (usize, usize),
    >)
        ensures
            index_models(r@) == active_indices(self.scripts@, tools@, *tools_override),
    {
        let mut out: Vec<(usize, usize)> = Vec::new();
        let mut i: usize = 0;
        assert(self.scripts@.take(0) =~= Seq::empty());
        assert(index_models(out@) =~= Seq::empty());
        while i < self.scripts.len()
            invariant
                i <= self.scripts@.len(),
                index_models(out@) == active_indices(
                    self.scripts@.take(i as int),
                    tools@,
                    *tools_override,
                ),
            decreases self.scripts@.len() - i,
        {
            let ghost before = index_models(out@);
            let ghost t = self.scripts@.take(i + 1);
            assert(t.drop_last() =~= self.scripts@.take(i as int));
            let script = &self.scripts[i];
            let mut j: usize = 0;
            assert(script.tools@.take(0) =~= Seq::empty());
            assert(before + active_in(i as int, script.tools@.take(0), tools@, *tools_override)
                =~= before);
            while j < script.tools.len()
                invariant
                    j <= script.tools@.len(),
                    index_models(out@) == before + active_in(
                        i as int,
                        script.tools@.take(j as int),
                        tools@,
                        *tools_override,
                    ),
                decreases script.tools@.len() - j,
            {
                let ghost u = script.tools@.take(j + 1);
                assert(u.drop_last() =~= script.tools@.take(j as int));
                if tools.is_active(script.tools[j].full_name.as_str(), tools_override) {
                    let ghost list = index_models(out@);
                    out.push((i, j));
                    assert(index_models(out@) =~= list.push((i as int, j as int)));
                    assert(index_models(out@) =~= before + active_in(
                        i as int,
                        u,
                        tools@,
                        *tools_override,
                    ));
                }
                j += 1;
            }
            assert(script.tools@.take(script.tools@.len() as int) =~= script.tools@);
            i += 1;
        }
        assert(self.scripts@.take(self.scripts@.len() as int) =~= self.scripts@);
        out
    }
}

/// what a list of index pairs stands for.
pub open spec fn index_models(s: Seq<(usize, usize)>) -> Seq<(int, int)> {
    Seq::new(s.len(), |i: int| (s[i].0 as int, s[i].1 as int))
}

/// the active ones of a script's tools.
pub open spec fn active_in(
    script: int,
    list: Seq<HookToolDef>,
    gates: Map<Seq<char>, bool>,
    names: Option<Vec<String>>,
) -> Seq<(int, int)>
    decreases list.len(),
{
    if list.len() == 0 {
        Seq::empty()
    } else {
        let rest = active_in(script, list.drop_last(), gates, names);
        if config::active(gates, list.last().full_name@, names) {
            rest.push((script, list.len() - 1))
        } else {
            rest
        }
    }
}

/// the active ones of the scripts' tools, in the order of the scripts.
pub open spec fn active_indices<P>(
    scripts: Seq<HookScript<P>>,
    gates: Map<Seq<char>, bool>,
    names: Option<Vec<String>>,
) -> Seq<(int, int)>
    decreases scripts.len(),
{
    if scripts.len() == 0 {
        Seq::empty()
    } else {
        active_indices(scripts.drop_last(), gates, names) + active_in(
            scripts.len() - 1,
            scripts.last().tools@,
            gates,
            names,
        )
    }
}

// --- a call of a hook tool ---

/// a parameter's part of the permission key: a text as it is, anything else as
/// JSON, and nothing where it is missing.
pub open spec fn key_part(args: Model, name: Seq<char>) -> Seq<char> {
    match json::field(args, name) {
        Some(v) => merge::plain_text(v),
        None => Seq::empty(),
    }
}

/// the parts of the permission key.
pub open spec fn key_parts(args: Model, names: Seq<Seq<char>>) -> Seq<Seq<char>> {
    Seq::new(names.len(), |i: int| key_part(args, names[i]))
}

/// the permission key of a call: the values of the named parameters, joined with
/// spaces; without any it is a star.
pub open spec fn key_for(args: Model, names: Seq<Seq<char>>) -> Seq<char> {
    if names.len() == 0 {
        "*"@
    } else {
        text::join(key_parts(args, names), " "@)
    }
}

/// builds the permission key from `permission.arg`. when multiple arg names are
/// configured, their values are joined with spaces.
pub fn permission_key(tool: &HookToolDef, args: &Json) -> (r: String)
    ensures
        r@ == key_for(args@, text::texts(tool.permission_args@)),
{
    if tool.permission_args.len() == 0 {
        return "*".to_owned();
    }
    let ghost names = text::texts(tool.permission_args@);
    let mut parts: Vec<String> = Vec::new();
    let mut i: usize = 0;
    while i < tool.permission_args.len()
        invariant
            i <= tool.permission_args@.len(),
            names == text::texts(tool.permission_args@),
            parts@.len() == i,
            forall|j: int| 0 <= j < i ==> (#[trigger] parts@[j])@ == key_part(args@, names[j]),
        decreases tool.permission_args@.len() - i,
    {
        let part = match args.get(tool.permission_args[i].as_str()) {
            Some(Json::Text(s)) => s.clone(),
            Some(v) => v.render(),
            None => String::new(),
        };
        parts.push(part);
        i += 1;
    }
    assert(text::texts(parts@) =~= key_parts(args@, names));
    text::join_of(parts.as_slice(), " ")
}

/// where a call of a hook tool stands.
#[derive(Debug)]
pub enum HookCallState {
    /// the user has been asked about the call.
    Confirming { args: Json, input: String },
    /// the hooks have been asked about the arguments.
    Intercepting { args: Json },
    /// the hooks have rewritten the arguments, and the user has been asked about
    /// the call again.
    Reconfirming { args: Json, input: String, result: Option<String> },
    /// the script that registered the tool is at work.
    Executing,
    /// the hooks have been told the output.
    Observing { output: String },
    Finished,
}

/// what happened to a call of a hook tool.
#[derive(Debug)]
pub enum HookCallEvent {
    Confirmed(bool),
    Intercepted(BeforeToolResult),
    Executed(Response),
    Observed(AfterToolResult),
}

/// what is to be done next for a call of a hook tool.
#[derive(Debug)]
pub enum HookCallAction {
    Confirm { input: String },
    Intercept(Json),
    /// invoke the script at `execute_tool` with the payload.
    Execute(Json),
    Observe(String),
    Finish(Result<String, ToolError>),
}

/// what the state of a call stands for.
pub enum HookStateModel {
    Confirming { args: Model, input: Seq<char> },
    Intercepting { args: Model },
    Reconfirming { args: Model, input: Seq<char>, result: Option<Seq<char>> },
    Executing,
    Observing { output: Seq<char> },
    Finished,
}

/// what an action stands for.
pub enum HookActionModel {
    Confirm { input: Seq<char> },
    Intercept(Model),
    Execute(Model),
    Observe(Seq<char>),
    Finish(Result<Seq<char>, ErrorModel>),
}

impl View for HookCallState {
    type V = HookStateModel;

    open spec fn view(&self) -> HookStateModel {
        match *self {
            HookCallState::Confirming { args, input } => HookStateModel::Confirming {
                args: args@,
                input: input@,
            },
            HookCallState::Intercepting { args } => HookStateModel::Intercepting { args: args@ },
            HookCallState::Reconfirming { args, input, result } => HookStateModel::Reconfirming {
                args: args@,
                input: input@,
                result: text::text_opt(result),
            },
            HookCallState::Executing => HookStateModel::Executing,
            HookCallState::Observing { output } => HookStateModel::Observing { output: output@ },
            HookCallState::Finished => HookStateModel::Finished,
        }
    }
}

impl View for HookCallAction {
    type V = HookActionModel;

    open spec fn view(&self) -> HookActionModel {
        match *self {
            HookCallAction::Confirm { input } => HookActionModel::Confirm { input: input@ },
            HookCallAction::Intercept(j) => HookActionModel::Intercept(j@),
            HookCallAction::Execute(j) => HookActionModel::Execute(j@),
            HookCallAction::Observe(output) => HookActionModel::Observe(output@),
            HookCallAction::Finish(r) => HookActionModel::Finish(permission::outcome(r)),
        }
    }
}

/// a call that is refused or fails.
pub open spec fn hook_failed(message: Seq<char>) -> (HookStateModel, HookActionModel) {
    (HookStateModel::Finished, HookActionModel::Finish(Err(ErrorModel::Call(message))))
}

/// a call that has its output.
pub open spec fn hook_gave(output: Seq<char>) -> (HookStateModel, HookActionModel) {
    (HookStateModel::Observing { output }, HookActionModel::Observe(output))
}

/// a call that has passed the permissions.
pub open spec fn hook_permitted(args: Model) -> (HookStateModel, HookActionModel) {
    (HookStateModel::Intercepting { args }, HookActionModel::Intercept(args))
}

/// a call that the hooks have let pass: a result that they have put in its place
/// is its output, and without one the script runs.
pub open spec fn hook_passed(
    tool: ToolModel,
    cwd: Seq<char>,
    args: Model,
    result: Option<Seq<char>>,
) -> (HookStateModel, HookActionModel) {
    match result {
        Some(output) => hook_gave(output),
        None => (
            HookStateModel::Executing,
            HookActionModel::Execute(execute_payload(cwd, tool.short_name, args)),
        ),
    }
}

/// what the permissions say to a call of a hook tool.
pub open spec fn hook_gate(
    permissions: Map<Seq<char>, Rule>,
    tool: ToolModel,
    args: Model,
) -> GateModel {
    let key = key_for(args, tool.permission_args);
    tools::gate_at(
        permission::verdict(permissions, tool.full_name, key, false),
        tool.full_name,
        key,
    )
}

/// a call with the given arguments: they are held against the schema of the
/// tool's parameters, and then the call comes before the permissions.
pub open spec fn hook_begun(
    permissions: Map<Seq<char>, Rule>,
    tool: ToolModel,
    args: Model,
) -> (HookStateModel, HookActionModel) {
    match schema::complaint(args, tool.schema) {
        Some(m) => hook_failed(m),
        None => match hook_gate(permissions, tool, args) {
            GateModel::Pass => hook_permitted(args),
            GateModel::Ask { input, .. } => (
                HookStateModel::Confirming { args, input },
                HookActionModel::Confirm { input },
            ),
            GateModel::Refuse(m) => hook_failed(m),
        },
    }
}

/// a call whose arguments the hooks have rewritten: the new ones are judged as the
/// first ones were.
pub open spec fn hook_rewritten(
    permissions: Map<Seq<char>, Rule>,
    tool: ToolModel,
    cwd: Seq<char>,
    args: Model,
    result: Option<Seq<char>>,
) -> (HookStateModel, HookActionModel) {
    match schema::complaint(args, tool.schema) {
        Some(m) => hook_failed("rewritten tool args invalid: "@ + m),
        None => match hook_gate(permissions, tool, args) {
            GateModel::Pass => hook_passed(tool, cwd, args, result),
            GateModel::Ask { input, .. } => (
                HookStateModel::Reconfirming { args, input, result },
                HookActionModel::Confirm { input },
            ),
            GateModel::Refuse(m) => hook_failed(m),
        },
    }
}

/// a call whose arguments are given as text.
pub open spec fn hook_called(
    permissions: Map<Seq<char>, Rule>,
    tool: ToolModel,
    args: Seq<char>,
) -> (HookStateModel, HookActionModel) {
    match json::parsed(args) {
        Ok(j) => hook_begun(permissions, tool, j),
        Err(e) => (HookStateModel::Finished, HookActionModel::Finish(Err(ErrorModel::Json(e)))),
    }
}

/// the events that a call in the given state waits for.
pub open spec fn hook_awaits(state: HookStateModel, event: HookCallEvent) -> bool {
    match (state, event) {
        (HookStateModel::Confirming { .. }, HookCallEvent::Confirmed(_)) => true,
        (HookStateModel::Intercepting { .. }, HookCallEvent::Intercepted(_)) => true,
        (HookStateModel::Reconfirming { .. }, HookCallEvent::Confirmed(_)) => true,
        (HookStateModel::Executing, HookCallEvent::Executed(_)) => true,
        (HookStateModel::Observing { .. }, HookCallEvent::Observed(_)) => true,
        _ => false,
    }
}

/// where a call goes from a state by an event that it waits for.
pub open spec fn hook_next(
    permissions: Map<Seq<char>, Rule>,
    tool: ToolModel,
    cwd: Seq<char>,
    state: HookStateModel,
    event: HookCallEvent,
) -> (HookStateModel, HookActionModel) {
    match (state, event) {
        (
            HookStateModel::Confirming { args, input },
            HookCallEvent::Confirmed(confirmed),
        ) => if confirmed {
            hook_permitted(args)
        } else {
            hook_failed("permission denied (user rejected): "@ + input)
        },
        (
            HookStateModel::Intercepting { args },
            HookCallEvent::Intercepted(before),
        ) => match before.deny {
            Some(reason) => hook_failed("denied by hook: "@ + reason@),
            None => match before.args {
                Some(j) => hook_rewritten(
                    permissions,
                    tool,
                    cwd,
                    j@,
                    text::text_opt(before.result),
                ),
                None => hook_passed(tool, cwd, args, text::text_opt(before.result)),
            },
        },
        (
            HookStateModel::Reconfirming { args, input, result },
            HookCallEvent::Confirmed(confirmed),
        ) => if confirmed {
            hook_passed(tool, cwd, args, result)
        } else {
            hook_failed("permission denied (user rejected): "@ + input)
        },
        (HookStateModel::Executing, HookCallEvent::Executed(response)) => match response {
            Ok(fields) => hook_gave(
                match json::text_in(merge::at(json::field_models(fields@), "result"@)) {
                    Some(s) => s,
                    None => Seq::empty(),
                },
            ),
            Err(e) => hook_failed(e@),
        },
        (HookStateModel::Observing { output }, HookCallEvent::Observed(after)) => (
            HookStateModel::Finished,
            HookActionModel::Finish(
                Ok(
                    match after.result {
                        Some(s) => s@,
                        None => output,
                    },
                ),
            ),
        ),
        _ => hook_failed(Seq::empty()),
    }
}

/// a call that is refused or fails.
fn hook_fail(message: String) -> (r: (HookCallState, HookCallAction))
    ensures
        (r.0@, r.1@) == hook_failed(message@),
{
    (HookCallState::Finished, HookCallAction::Finish(Err(ToolError::ToolCallError(message))))
}

/// a call that has its output.
fn hook_give(output: String) -> (r: (HookCallState, HookCallAction))
    ensures
        (r.0@, r.1@) == hook_gave(output@),
{
    let shown = output.clone();
    (HookCallState::Observing { output }, HookCallAction::Observe(shown))
}

/// a call that has passed the permissions.
fn hook_permit(args: Json) -> (r: (HookCallState, HookCallAction))
    ensures
        (r.0@, r.1@) == hook_permitted(args@),
{
    let shown = args.copy();
    (HookCallState::Intercepting { args }, HookCallAction::Intercept(shown))
}

/// a call that the hooks have let pass.
fn hook_pass(tool: &HookToolDef, cwd: &str, args: &Json, result: Option<String>) -> (r: (
    HookCallState,
    HookCallAction,
))
    ensures
        (r.0@, r.1@) == hook_passed(tool@, cwd@, args@, text::text_opt(result)),
{
    match result {
        Some(output) => hook_give(output),
        None => {
            let input = execute_tool_input(cwd, tool.short_name.as_str(), args);
            (HookCallState::Executing, HookCallAction::Execute(input))
        },
    }
}

/// a call whose arguments the hooks have rewritten.
fn hook_rewrite(
    permissions: &PermissionsConfig,
    tool: &HookToolDef,
    cwd: &str,
    args: Json,
    result: Option<String>,
) -> (r: (HookCallState, HookCallAction))
    ensures
        (r.0@, r.1@) == hook_rewritten(
            permissions@,
            tool@,
            cwd@,
            args@,
            text::text_opt(result),
        ),
{
    if let Err(m) = schema::validate_args(&args, &tool.parameters_schema) {
        return hook_fail(text::concat2("rewritten tool args invalid: ", m.as_str()));
    }
    let key = permission_key(tool, &args);
    match tools::gate(permissions, tool.full_name.as_str(), key.as_str(), false) {
        Gate::Pass => hook_pass(tool, cwd, &args, result),
        Gate::Ask { tool: _, input } => {
            let shown = input.clone();
            (
                HookCallState::Reconfirming { args, input, result },
                HookCallAction::Confirm { input: shown },
            )
        },
        Gate::Refuse(m) => hook_fail(m),
    }
}

/// begins a call with the given arguments.
pub fn begin_hook_call(permissions: &PermissionsConfig, tool: &HookToolDef, args: Json) -> (r: (
    HookCallState,
    HookCallAction,
))
    ensures
        (r.0@, r.1@) == hook_begun(permissions@, tool@, args@),
{
    if let Err(m) = schema::validate_args(&args, &tool.parameters_schema) {
        return hook_fail(m);
    }
    let key = permission_key(tool, &args);
    match tools::gate(permissions, tool.full_name.as_str(), key.as_str(), false) {
        Gate::Pass => hook_permit(args),
        Gate::Ask { tool: _, input } => {
            let shown = input.clone();
            (HookCallState::Confirming { args, input }, HookCallAction::Confirm { input: shown })
        },
        Gate::Refuse(m) => hook_fail(m),
    }
}

/// begins a call whose arguments are given as text.
pub fn start_hook_call(permissions: &PermissionsConfig, tool: &HookToolDef, args: &str) -> (r: (
    HookCallState,
    HookCallAction,
))
    ensures
        (r.0@, r.1@) == hook_called(permissions@, tool@, args@),
{
    match json::parse_json(args) {
        Ok(j) => begin_hook_call(permissions, tool, j),
        Err(e) => (HookCallState::Finished, HookCallAction::Finish(Err(ToolError::JsonError(e)))),
    }
}

/// moves a call on by what happened to it.
pub fn advance_hook_call(
    permissions: &PermissionsConfig,
    tool: &HookToolDef,
    cwd: &str,
    state: HookCallState,
    event: HookCallEvent,
) -> (r: (HookCallState, HookCallAction))
    requires
        hook_awaits(state@, event),
    ensures
        (r.0@, r.1@) == hook_next(permissions@, tool@, cwd@, state@, event),
{
    match (state, event) {
        (HookCallState::Confirming { args, input }, HookCallEvent::Confirmed(confirmed)) => {
            if confirmed {
                hook_permit(args)
            } else {
                hook_fail(text::concat2("permission denied (user rejected): ", input.as_str()))
            }
        },
        (HookCallState::Intercepting { args }, HookCallEvent::Intercepted(before)) => {
            match before.deny {
                Some(reason) => hook_fail(text::concat2("denied by hook: ", reason.as_str())),
                None => match before.args {
                    Some(j) => hook_rewrite(permissions, tool, cwd, j, before.result),
                    None => hook_pass(tool, cwd, &args, before.result),
                },
            }
        },
        (
            HookCallState::Reconfirming { args, input, result },
            HookCallEvent::Confirmed(confirmed),
        ) => {
            if confirmed {
                hook_pass(tool, cwd, &args, result)
            } else {
                hook_fail(text::concat2("permission denied (user rejected): ", input.as_str()))
            }
        },
        (HookCallState::Executing, HookCallEvent::Executed(response)) => match response {
            Ok(fields) => match text_at(&fields, "result") {
                Some(s) => hook_give(s),
                None => hook_give(String::new()),
            },
            Err(e) => hook_fail(e),
        },
        (HookCallState::Observing { output }, HookCallEvent::Observed(after)) => {
            match after.result {
                Some(s) => (HookCallState::Finished, HookCallAction::Finish(Ok(s))),
                None => (HookCallState::Finished, HookCallAction::Finish(Ok(output))),
            }
        },
        _ => hook_fail(String::new()),
    }
}

/// the correlation id of a call of a hook tool.
pub fn hook_call_id(full_name: &str, pid: u32) -> (r: String)
    ensures
        r@ == full_name@ + "-"@ + text::decimal(pid as nat),
{
    let n = text::decimal_of(pid as u64);
    text::concat3(full_name, "-", n.as_str())
}

/// a registered tool as it is described to the model.
pub fn hook_tool_definition(tool: &HookToolDef) -> (r: tools::ToolDefinition)
    ensures
        r@ == (tools::DefinitionModel {
            name: tool@.full_name,
            description: tool@.description,
            parameters: tool@.schema,
        }),
{
    tools::ToolDefinition {
        name: tool.full_name.clone(),
        description: tool.description.clone(),
        parameters: tool.parameters_schema.copy(),
    }
}

// --- laws ---

/// the fields of the base payload.
proof fn lemma_base_fields(stage: Seq<char>, cwd: Seq<char>)
    ensures
        base_fields(stage, cwd).contains_key("hook"@),
        base_fields(stage, cwd)["hook"@] == Model::Text(stage),
        base_fields(stage, cwd).contains_key("host"@),
        base_fields(stage, cwd)["host"@] == host_model(),
        base_fields(stage, cwd).contains_key("cwd"@),
        base_fields(stage, cwd)["cwd"@] == Model::Text(cwd),
{
    reveal_strlit("hook");
    reveal_strlit("host");
    reveal_strlit("cwd");
    assert("hook"@[3] != "host"@[3]);
    assert("cwd"@.len() != "hook"@.len());
}

/// a payload tells its stage, what the host says of itself, and the working
/// directory.
pub open spec fn tells_base(payload: Model, stage: Seq<char>, cwd: Seq<char>) -> bool {
    &&& json::field(payload, "hook"@) == Some(Model::Text(stage))
    &&& json::field(payload, "host"@) == Some(host_model())
    &&& json::field(payload, "cwd"@) == Some(Model::Text(cwd))
}

/// other fields leave the base payload as it is.
proof fn lemma_other_field(key: Seq<char>)
    requires
        key == "session"@ || key == "system"@ || key == "user"@ || key == "history"@ || key
            == "model"@ || key == "tools"@ || key == "tool"@ || key == "callID"@ || key == "args"@ || key
            == "title"@ || key == "output"@ || key == "exit_reason"@ || key == "final"@ || key
            == "error"@,
    ensures
        key != "hook"@,
        key != "host"@,
        key != "cwd"@,
{
    reveal_strlit("hook");
    reveal_strlit("host");
    reveal_strlit("cwd");
    reveal_strlit("session");
    reveal_strlit("system");
    reveal_strlit("user");
    reveal_strlit("history");
    reveal_strlit("model");
    reveal_strlit("tools");
    reveal_strlit("tool");
    reveal_strlit("callID");
    reveal_strlit("args");
    reveal_strlit("title");
    reveal_strlit("output");
    reveal_strlit("exit_reason");
    reveal_strlit("final");
    reveal_strlit("error");
    assert("hook"@[0] == 'h' && "host"@[0] == 'h' && "cwd"@.len() == 3);
    if key == "history"@ {
        assert(key.len() == 7);
    } else {
        assert(key[0] != 'h');
    }
    assert(key.len() != 3);
}

/// every payload includes the host capability block and the working directory,
/// and names its stage.
pub proof fn law_every_payload_tells_base(
    cwd: Seq<char>,
    a: Seq<char>,
    b: Seq<char>,
    c: Seq<char>,
    error: Option<Seq<char>>,
    args: Model,
    tools: Seq<Model>,
)
    ensures
        tells_base(discover_payload(cwd), "discover"@, cwd),
        tells_base(request_payload(cwd, a, b, c, tools), "mutate_request"@, cwd),
        tells_base(before_payload(cwd, a, b, args), "before_tool"@, cwd),
        tells_base(after_payload(cwd, a, b, c), "after_tool"@, cwd),
        tells_base(stop_payload(cwd, a, error), "before_stop"@, cwd),
        tells_base(execute_payload(cwd, a, args), "execute_tool"@, cwd),
{
    lemma_base_fields("discover"@, cwd);
    lemma_base_fields("mutate_request"@, cwd);
    lemma_base_fields("before_tool"@, cwd);
    lemma_base_fields("after_tool"@, cwd);
    lemma_base_fields("before_stop"@, cwd);
    lemma_base_fields("execute_tool"@, cwd);
    lemma_other_field("session"@);
    lemma_other_field("system"@);
    lemma_other_field("user"@);
    lemma_other_field("history"@);
    lemma_other_field("model"@);
    lemma_other_field("tools"@);
    lemma_other_field("tool"@);
    lemma_other_field("callID"@);
    lemma_other_field("args"@);
    lemma_other_field("title"@);
    lemma_other_field("output"@);
    lemma_other_field("exit_reason"@);
    lemma_other_field("final"@);
    lemma_other_field("error"@);
}

/// the host names every stage that it fires.
pub proof fn law_fired_stages_are_advertised()
    ensures
        stage_names().contains("discover"@),
        stage_names().contains("mutate_request"@),
        stage_names().contains("before_tool"@),
        stage_names().contains("after_tool"@),
        stage_names().contains("execute_tool"@),
        stage_names().contains("before_stop"@),
{
    let s = stage_names();
    assert(s[0] == "discover"@ && s[1] == "mutate_request"@ && s[2] == "before_tool"@ && s[3]
        == "after_tool"@ && s[4] == "execute_tool"@ && s[5] == "before_stop"@);
}

/// a script that fails makes no difference to what the others request.
pub proof fn law_failed_scripts_add_nothing(responses: Seq<Response>, e: String)
    ensures
        accumulated(responses.push(Err(e))) == accumulated(responses),
        system_texts(responses.push(Err(e))) == system_texts(responses),
{
    assert(responses.push(Err(e)).drop_last() =~= responses);
}

/// of several reasons to deny a call the last one counts, and a script that gives
/// none takes none back.
pub proof fn law_denials_stand(responses: Seq<Response>, t: Table<Json>)
    ensures
        json::field_models(t@).contains_key("deny"@) ==> answer(
            responses.push(Ok(t)),
            "deny"@,
        ) == json::text_in(merge::at(json::field_models(t@), "deny"@)),
        !json::field_models(t@).contains_key("deny"@) ==> answer(
            responses.push(Ok(t)),
            "deny"@,
        ) == answer(responses, "deny"@),
{
    assert(responses.push(Ok(t)).drop_last() =~= responses);
    reveal_strlit("deny");
    reveal_strlit("system");
    reveal_strlit("tools");
    reveal_strlit("notifications");
    reveal_strlit("actions");
    reveal_strlit("modified");
    reveal_strlit("notify");
    reveal_strlit("continue");
    reveal_strlit("prompt");
    reveal_strlit("user");
    reveal_strlit("message");
    reveal_strlit("result");
    assert("deny"@[0] == 'd');
    assert(!merge::is_list_field("deny"@) && !merge::is_text_field("deny"@));
}

/// of several rewritings of a call's arguments the last one counts, and a script
/// that gives none takes none back.
pub proof fn law_last_rewriting_counts(responses: Seq<Response>, t: Table<Json>)
    ensures
        merge::at(accumulated(responses.push(Ok(t))), "args"@) == match merge::at(
            json::field_models(t@),
            "args"@,
        ) {
            Some(a) => Some(a),
            None => merge::at(accumulated(responses), "args"@),
        },
{
    assert(responses.push(Ok(t)).drop_last() =~= responses);
    reveal_strlit("args");
    reveal_strlit("system");
    reveal_strlit("tools");
    reveal_strlit("notifications");
    reveal_strlit("actions");
    reveal_strlit("modified");
    reveal_strlit("notify");
    reveal_strlit("continue");
    reveal_strlit("prompt");
    reveal_strlit("user");
    reveal_strlit("message");
    reveal_strlit("result");
    assert("args"@.len() == 4 && "args"@[0] == 'a');
    assert(!merge::is_list_field("args"@) && !merge::is_text_field("args"@));
}

/// a hook's refusal wins over a result or a rewriting that it also gives.
pub proof fn law_hook_denial_wins(
    permissions: Map<Seq<char>, Rule>,
    tool: ToolModel,
    cwd: Seq<char>,
    args: Model,
    before: BeforeToolResult,
)
    requires
        before.deny is Some,
    ensures
        hook_next(
            permissions,
            tool,
            cwd,
            HookStateModel::Intercepting { args },
            HookCallEvent::Intercepted(before),
        ) == hook_failed("denied by hook: "@ + before.deny->0@),
{
}

/// a call that waits for an answer has valid arguments, and the permissions let
/// it through or leave it to the user.
pub open spec fn is_sound_hook_call(
    permissions: Map<Seq<char>, Rule>,
    tool: ToolModel,
    state: HookStateModel,
) -> bool {
    match state {
        HookStateModel::Confirming { args, .. } => schema::complaint(args, tool.schema) is None
            && hook_gate(permissions, tool, args) is Ask,
        HookStateModel::Intercepting { args } => schema::complaint(args, tool.schema) is None
            && !(hook_gate(permissions, tool, args) is Refuse),
        HookStateModel::Reconfirming { args, .. } => schema::complaint(args, tool.schema) is None
            && hook_gate(permissions, tool, args) is Ask,
        _ => true,
    }
}

/// a call of a hook tool begins soundly and stays so.
pub proof fn law_hook_calls_stay_sound(
    permissions: Map<Seq<char>, Rule>,
    tool: ToolModel,
    cwd: Seq<char>,
    args: Model,
    state: HookStateModel,
    event: HookCallEvent,
)
    requires
        is_sound_hook_call(permissions, tool, state),
        hook_awaits(state, event),
    ensures
        is_sound_hook_call(permissions, tool, hook_begun(permissions, tool, args).0),
        is_sound_hook_call(permissions, tool, hook_next(permissions, tool, cwd, state, event).0),
{
}

/// hooks hear of a call only where its arguments are valid and the permissions
/// let it through, or leave it to the user, who has agreed.
pub proof fn law_hook_calls_are_permitted(
    permissions: Map<Seq<char>, Rule>,
    tool: ToolModel,
    cwd: Seq<char>,
    args: Model,
    state: HookStateModel,
    event: HookCallEvent,
)
    requires
        is_sound_hook_call(permissions, tool, state),
        hook_awaits(state, event),
    ensures
        hook_begun(permissions, tool, args).1 is Intercept ==> schema::complaint(
            args,
            tool.schema,
        ) is None && hook_gate(permissions, tool, args) is Pass,
        !(hook_begun(permissions, tool, args).1 is Execute),
        !(hook_begun(permissions, tool, args).1 is Observe),
        hook_next(permissions, tool, cwd, state, event).1 is Intercept ==> event
            == HookCallEvent::Confirmed(true) && state is Confirming,
{
}

/// where a call of a hook tool with the given arguments stands after the given
/// events.
pub open spec fn hook_course(
    permissions: Map<Seq<char>, Rule>,
    tool: ToolModel,
    cwd: Seq<char>,
    args: Model,
    events: Seq<HookCallEvent>,
) -> HookStateModel
    decreases events.len(),
{
    if events.len() == 0 {
        hook_begun(permissions, tool, args).0
    } else {
        hook_next(
            permissions,
            tool,
            cwd,
            hook_course(permissions, tool, cwd, args, events.drop_last()),
            events.last(),
        ).0
    }
}

/// each of the events is one that the call waits for.
pub open spec fn is_hook_course(
    permissions: Map<Seq<char>, Rule>,
    tool: ToolModel,
    cwd: Seq<char>,
    args: Model,
    events: Seq<HookCallEvent>,
) -> bool
    decreases events.len(),
{
    events.len() == 0 || (is_hook_course(permissions, tool, cwd, args, events.drop_last())
        && hook_awaits(
        hook_course(permissions, tool, cwd, args, events.drop_last()),
        events.last(),
    ))
}

/// the arguments that the hooks have put in place of a call's, if any.
pub open spec fn replacement(events: Seq<HookCallEvent>) -> Option<Model>
    decreases events.len(),
{
    if events.len() == 0 {
        None
    } else {
        match events.last() {
            HookCallEvent::Intercepted(before) if before.args is Some => Some(before.args->0@),
            _ => replacement(events.drop_last()),
        }
    }
}

/// the arguments that a call goes on with.
pub open spec fn effective_args(args: Model, events: Seq<HookCallEvent>) -> Model {
    match replacement(events) {
        Some(a) => a,
        None => args,
    }
}

/// the arguments that a call goes on with are valid, and the permissions let it
/// through with them, or leave it to the user, who has agreed: to the first ones
/// at the start, to rewritten ones at the end.
pub open spec fn is_permitted_hook_call(
    permissions: Map<Seq<char>, Rule>,
    tool: ToolModel,
    args: Model,
    events: Seq<HookCallEvent>,
) -> bool {
    let a = effective_args(args, events);
    &&& schema::complaint(a, tool.schema) is None
    &&& match hook_gate(permissions, tool, a) {
        GateModel::Pass => true,
        GateModel::Ask { .. } => {
            &&& events.len() > 0
            &&& if replacement(events) is Some {
                events.last() == HookCallEvent::Confirmed(true)
            } else {
                events[0] == HookCallEvent::Confirmed(true)
            }
        },
        GateModel::Refuse(_) => false,
    }
}

/// where a call waits for the user to hear of it nothing has happened yet; where
/// it has gone on it is permitted; and where it waits for the user again the
/// permissions ask about the rewritten arguments.
proof fn lemma_hook_course(
    permissions: Map<Seq<char>, Rule>,
    tool: ToolModel,
    cwd: Seq<char>,
    args: Model,
    events: Seq<HookCallEvent>,
)
    requires
        is_hook_course(permissions, tool, cwd, args, events),
    ensures
        match hook_course(permissions, tool, cwd, args, events) {
            HookStateModel::Confirming { args: a, .. } => {
                &&& events.len() == 0
                &&& a == args
                &&& schema::complaint(args, tool.schema) is None
                &&& hook_gate(permissions, tool, args) is Ask
            },
            HookStateModel::Intercepting { args: a } => {
                &&& a == args
                &&& replacement(events) is None
                &&& is_permitted_hook_call(permissions, tool, args, events)
            },
            HookStateModel::Reconfirming { args: a, .. } => {
                &&& replacement(events) == Some(a)
                &&& schema::complaint(a, tool.schema) is None
                &&& hook_gate(permissions, tool, a) is Ask
            },
            _ => true,
        },
    decreases events.len(),
{
    if events.len() > 0 {
        let before = events.drop_last();
        lemma_hook_course(permissions, tool, cwd, args, before);
        assert(replacement(Seq::empty()) is None);
        if before.len() == 0 {
            assert(before =~= Seq::empty());
        }
    }
}

/// whatever happens in the course of a call of a hook tool, its script runs only
/// with the arguments of the call, as the hooks may have rewritten them, and only
/// where they are valid and the permissions let the call through, or leave it to
/// the user, who has agreed.
pub proof fn law_whole_hook_calls_are_permitted(
    permissions: Map<Seq<char>, Rule>,
    tool: ToolModel,
    cwd: Seq<char>,
    args: Model,
    events: Seq<HookCallEvent>,
    event: HookCallEvent,
)
    requires
        is_hook_course(permissions, tool, cwd, args, events),
        hook_awaits(hook_course(permissions, tool, cwd, args, events), event),
    ensures
        hook_next(
            permissions,
            tool,
            cwd,
            hook_course(permissions, tool, cwd, args, events),
            event,
        ).1 matches HookActionModel::Execute(input) ==> input == execute_payload(
            cwd,
            tool.short_name,
            effective_args(args, events.push(event)),
        ) && is_permitted_hook_call(permissions, tool, args, events.push(event)),
{
    lemma_hook_course(permissions, tool, cwd, args, events);
    assert(events.push(event).drop_last() =~= events);
    if events.len() > 0 {
        assert(events.push(event)[0] == events[0]);
    }
}

/// rewritten arguments are judged like the first ones: nothing of the judgement
/// on those is carried over.
pub proof fn law_rewritten_hook_args_are_judged(
    permissions: Map<Seq<char>, Rule>,
    tool: ToolModel,
    cwd: Seq<char>,
    args: Model,
    before: BeforeToolResult,
)
    requires
        before.deny is None,
        before.args is Some,
    ensures
        hook_next(
            permissions,
            tool,
            cwd,
            HookStateModel::Intercepting { args },
            HookCallEvent::Intercepted(before),
        ) == hook_rewritten(
            permissions,
            tool,
            cwd,
            before.args->0@,
            text::text_opt(before.result),
        ),
{
}

/// the script runs only for a call that the hooks have heard of and have neither
/// denied nor answered, and it runs for each of those whose arguments they leave
/// alone.
pub proof fn law_scripts_run_last(
    permissions: Map<Seq<char>, Rule>,
    tool: ToolModel,
    cwd: Seq<char>,
    state: HookStateModel,
    event: HookCallEvent,
)
    requires
        hook_awaits(state, event),
    ensures
        hook_next(permissions, tool, cwd, state, event).1 is Execute ==> match (state, event) {
            (
                HookStateModel::Intercepting { .. },
                HookCallEvent::Intercepted(before),
            ) => before.deny is None && before.result is None,
            (
                HookStateModel::Reconfirming { result, .. },
                HookCallEvent::Confirmed(confirmed),
            ) => confirmed && result is None,
            _ => false,
        },
        state is Intercepting && (event matches HookCallEvent::Intercepted(before) && before.deny
            is None && before.result is None && before.args is None) ==> hook_next(
            permissions,
            tool,
            cwd,
            state,
            event,
        ).1 is Execute,
{
}

/// how many steps a call can still take.
pub open spec fn hook_steps_left(state: HookStateModel) -> nat {
    match state {
        HookStateModel::Confirming { .. } => 5,
        HookStateModel::Intercepting { .. } => 4,
        HookStateModel::Reconfirming { .. } => 3,
        HookStateModel::Executing => 2,
        HookStateModel::Observing { .. } => 1,
        HookStateModel::Finished => 0,
    }
}

/// a call of a hook tool comes to its end, and exactly there it has an outcome.
pub proof fn law_hook_calls_end(
    permissions: Map<Seq<char>, Rule>,
    tool: ToolModel,
    cwd: Seq<char>,
    state: HookStateModel,
    event: HookCallEvent,
)
    requires
        hook_awaits(state, event),
    ensures
        hook_steps_left(hook_next(permissions, tool, cwd, state, event).0) < hook_steps_left(
            state,
        ),
        hook_next(permissions, tool, cwd, state, event).1 is Finish <==> hook_next(
            permissions,
            tool,
            cwd,
            state,
            event,
        ).0 is Finished,
{
}

/// a script of the list passes the filter.
pub open spec fn is_kept<P>(
    scripts: Seq<HookScript<P>>,
    verdicts: Seq<bool>,
    script: HookScript<P>,
) -> bool {
    exists|i: int| #[trigger] passes(scripts, verdicts, i, script)
}

/// a script is number `i` of the list, and its verdict is good.
pub open spec fn passes<P>(
    scripts: Seq<HookScript<P>>,
    verdicts: Seq<bool>,
    i: int,
    script: HookScript<P>,
) -> bool {
    0 <= i < scripts.len() && verdicts[i] && scripts[i] == script
}

/// only scripts that pass the filter are kept.
#[verifier::spinoff_prover]
pub proof fn law_kept_scripts_pass<P>(scripts: Seq<HookScript<P>>, verdicts: Seq<bool>, k: int)
    requires
        verdicts.len() == scripts.len(),
        0 <= k < kept(scripts, verdicts).len(),
    ensures
        is_kept(scripts, verdicts, kept(scripts, verdicts)[k]),
    decreases scripts.len(),
{
    let s = scripts.drop_last();
    let v = verdicts.drop_last();
    let a = kept(scripts, verdicts);
    lemma_kept(s, v, verdicts);
    if k < kept(s, v).len() {
        law_kept_scripts_pass(s, v, k);
        let i = choose|i: int| #[trigger] passes(s, v, i, kept(s, v)[k]);
        assert(a[k] == kept(s, v)[k]);
        assert(passes(scripts, verdicts, i, a[k]));
    } else {
        assert(passes(scripts, verdicts, scripts.len() - 1, a[k]));
    }
}

/// the hooks of a project come from three directories at each level, and the global
/// ones from three below the home directory.
pub proof fn law_hook_directories(shared: Seq<char>)
    ensures
        local_hook_dirs(shared).len() == 3,
        local_hook_dirs(shared)[0] == ".opencode/hooks"@,
        local_hook_dirs(shared)[1] == shared + "/hooks"@,
        local_hook_dirs(shared)[2] == ".agents/hooks"@,
        global_hook_dirs(shared).len() == 3,
        global_hook_dirs(shared)[0] == ".config/opencode/hooks"@,
        global_hook_dirs(shared)[1] == shared + "/hooks"@,
        global_hook_dirs(shared)[2] == ".agents/hooks"@,
{
}

/// hidden files and those with two underscores in front are no scripts, and neither
/// is what cannot be executed or is no file.
pub proof fn law_scripts<P>(e: ScriptEntry<P>)
    ensures
        is_script(e) ==> e.is_file && e.executable && e.file_name is Some,
        is_script(e) && e.file_name->0@.len() > 0 ==> e.file_name->0@[0] != '.',
        is_script(e) && e.file_name->0@.len() > 1 ==> !(e.file_name->0@[0] == '_'
            && e.file_name->0@[1] == '_'),
        e.is_file && e.executable && e.file_name is Some && e.file_name->0@.len() > 1
            && e.file_name->0@[0] != '.' && !(e.file_name->0@[0] == '_' && e.file_name->0@[1]
            == '_') ==> is_script(e),
{
    if e.file_name is Some {
        let n = e.file_name->0@;
        let dot = seq!['.'];
        let bars = seq!['_', '_'];
        if n.len() > 0 && n[0] == '.' {
            assert(n.subrange(0, 1) =~= dot);
        }
        if n.len() > 1 && n[0] == '_' && n[1] == '_' {
            assert(n.subrange(0, 2) =~= bars);
        }
        if dot.is_prefix_of(n) {
            assert(n.subrange(0, 1)[0] == dot[0]);
        }
        if bars.is_prefix_of(n) {
            assert(n.subrange(0, 2)[0] == bars[0]);
            assert(n.subrange(0, 2)[1] == bars[1]);
        }
    }
}

/// the scripts are found in the order of the entries, each file once: an entry is
/// taken iff it is a script and no earlier one leads to the same file.
pub proof fn law_scripts_are_found_once<P>(entries: Seq<ScriptEntry<P>>, n: int, i: int)
    requires
        0 <= n <= entries.len(),
    ensures
        script_indices(entries, n).contains(i) <==> 0 <= i < n && is_script(entries[i]) && (
        forall|j: int|
            0 <= j < i && is_script(#[trigger] entries[j]) ==> entries[j].identity
                != entries[i].identity),
        forall|a: int, b: int|
            0 <= a < b < script_indices(entries, n).len() ==> #[trigger] script_indices(
                entries,
                n,
            )[a] < #[trigger] script_indices(entries, n)[b],
        forall|a: int|
            0 <= a < script_indices(entries, n).len() ==> 0 <= #[trigger] script_indices(
                entries,
                n,
            )[a] < n,
    decreases n,
{
    if n > 0 {
        law_scripts_are_found_once(entries, n - 1, i);
        let s = script_indices(entries, n - 1);
        let t = script_indices(entries, n);
        if is_new_script(entries, n - 1) {
            assert(t =~= s.push(n - 1));
            assert(t[s.len() as int] == n - 1);
            if s.contains(i) {
                let k = choose|k: int| 0 <= k < s.len() && s[k] == i;
                assert(t[k] == i);
            }
            if t.contains(i) {
                let k = choose|k: int| 0 <= k < t.len() && t[k] == i;
                if k < s.len() {
                    assert(s[k] == i);
                }
            }
        }
    }
}

/// the stem of a file name is what stands before its last dot; a name without a dot,
/// or with one in front alone, is its own stem.
pub proof fn law_stems(name: Seq<char>, extension: Seq<char>)
    requires
        !extension.contains('.'),
    ensures
        name.len() > 0 ==> stem(name + seq!['.'] + extension) == name,
        !name.contains('.') ==> stem(name) == name,
        stem(seq!['.'] + extension) == seq!['.'] + extension,
{
    let s = name + seq!['.'] + extension;
    let n = name.len() as int;
    assert forall|j: int| n < j < s.len() implies s[j] != '.' by {
        assert(s[j] == extension[j - n - 1]);
        assert(extension.contains(extension[j - n - 1]));
    }
    lemma_last_dot(s, n);
    assert(s.take(n) =~= name);
    if !name.contains('.') {
        assert forall|j: int| 0 <= j < name.len() implies name[j] != '.' by {
            assert(name.contains(name[j]));
        }
        lemma_last_dot(name, n);
    }
    let t = seq!['.'] + extension;
    assert forall|j: int| 0 < j < t.len() implies t[j] != '.' by {
        assert(t[j] == extension[j - 1]);
        assert(extension.contains(extension[j - 1]));
    }
    lemma_last_dot(t, 0);
}

/// the names of the fields of payloads are told apart.
proof fn lemma_payload_names()
    ensures
        "system"@ != "user"@,
        "system"@ != "history"@,
        "system"@ != "model"@,
        "system"@ != "tools"@,
        "system"@ != "session"@,
        "user"@ != "history"@,
        "user"@ != "model"@,
        "user"@ != "tools"@,
        "user"@ != "session"@,
        "history"@ != "model"@,
        "history"@ != "tools"@,
        "history"@ != "session"@,
        "model"@ != "tools"@,
        "model"@ != "session"@,
        "tools"@ != "session"@,
        "tool"@ != "callID"@,
        "tool"@ != "args"@,
        "tool"@ != "title"@,
        "tool"@ != "output"@,
        "tool"@ != "session"@,
        "callID"@ != "args"@,
        "callID"@ != "title"@,
        "callID"@ != "output"@,
        "callID"@ != "session"@,
        "args"@ != "session"@,
        "title"@ != "output"@,
        "title"@ != "session"@,
        "output"@ != "session"@,
        "exit_reason"@ != "final"@,
        "exit_reason"@ != "error"@,
        "exit_reason"@ != "session"@,
        "final"@ != "error"@,
        "final"@ != "session"@,
        "error"@ != "session"@,
        "role"@ != "content"@,
        "name"@ != "version"@,
        "name"@ != "stages"@,
        "version"@ != "stages"@,
{
    reveal_strlit("system");
    reveal_strlit("user");
    reveal_strlit("history");
    reveal_strlit("model");
    reveal_strlit("tools");
    reveal_strlit("session");
    reveal_strlit("tool");
    reveal_strlit("callID");
    reveal_strlit("args");
    reveal_strlit("title");
    reveal_strlit("output");
    reveal_strlit("exit_reason");
    reveal_strlit("final");
    reveal_strlit("error");
    reveal_strlit("role");
    reveal_strlit("content");
    reveal_strlit("name");
    reveal_strlit("version");
    reveal_strlit("stages");
    assert("system"@.len() == 6 && "user"@.len() == 4 && "history"@.len() == 7 && "model"@.len()
        == 5 && "tools"@.len() == 5 && "session"@.len() == 7);
    assert("history"@[0] == 'h' && "session"@[0] == 's' && "model"@[0] == 'm' && "tools"@[0]
        == 't');
    assert("tool"@.len() == 4 && "callID"@.len() == 6 && "args"@.len() == 4 && "title"@.len() == 5
        && "output"@.len() == 6);
    assert("tool"@[0] == 't' && "args"@[0] == 'a' && "callID"@[0] == 'c' && "output"@[0] == 'o');
    assert("exit_reason"@.len() == 11 && "final"@.len() == 5 && "error"@.len() == 5);
    assert("final"@[0] == 'f' && "error"@[0] == 'e');
    assert("role"@.len() == 4 && "content"@.len() == 7);
    assert("name"@.len() == 4 && "version"@.len() == 7 && "stages"@.len() == 6);
}

/// what the host says of itself is its name, the version of the protocol, and the
/// stages that it fires.
pub proof fn law_host(i: int)
    ensures
        json::field(host_model(), "name"@) == Some(Model::Text("hrns"@)),
        json::field(host_model(), "version"@) == Some(Model::Number(json::number_of(3))),
        json::field(host_model(), "stages"@) is Some,
        json::field(host_model(), "stages"@)->0 is Array,
        json::field(host_model(), "stages"@)->0->Array_0.len() == 6,
        0 <= i < 6 ==> json::field(host_model(), "stages"@)->0->Array_0[i] == Model::Text(
            stage_names()[i],
        ),
{
    lemma_payload_names();
}

/// the payload of `mutate_request` tells the system prompt, the user's prompt, the
/// model and the tools, each under its name, and the history of one message, the
/// user's.
pub proof fn law_request_payload(
    cwd: Seq<char>,
    system: Seq<char>,
    user: Seq<char>,
    model: Seq<char>,
    tools: Seq<Model>,
)
    ensures
        ({
            let p = request_payload(cwd, system, user, model, tools);
            let history = json::field(p, "history"@);
            &&& json::field(p, "system"@) == Some(Model::Text(system))
            &&& json::field(p, "user"@) == Some(Model::Text(user))
            &&& json::field(p, "model"@) == Some(Model::Text(model))
            &&& json::field(p, "tools"@) == Some(Model::Array(tools))
            &&& json::field(json::field(p, "session"@)->0, "id"@) == Some(Model::Text("hrns"@))
            &&& history is Some
            &&& history->0 is Array
            &&& history->0->Array_0.len() == 1
            &&& json::field(history->0->Array_0[0], "role"@) == Some(Model::Text("user"@))
            &&& json::field(history->0->Array_0[0], "content"@) == Some(Model::Text(user))
        }),
{
    lemma_payload_names();
    lemma_other_field("session"@);
}

/// the payloads around a call tell the tool, the call and its arguments or its
/// output, each under its name.
pub proof fn law_call_payloads(
    cwd: Seq<char>,
    tool: Seq<char>,
    call_id: Seq<char>,
    args: Model,
    output: Seq<char>,
)
    ensures
        ({
            let before = before_payload(cwd, tool, call_id, args);
            let after = after_payload(cwd, tool, call_id, output);
            let execute = execute_payload(cwd, tool, args);
            &&& json::field(before, "tool"@) == Some(Model::Text(tool))
            &&& json::field(before, "callID"@) == Some(Model::Text(call_id))
            &&& json::field(before, "args"@) == Some(args)
            &&& json::field(after, "tool"@) == Some(Model::Text(tool))
            &&& json::field(after, "callID"@) == Some(Model::Text(call_id))
            &&& json::field(after, "title"@) == Some(Model::Text(tool))
            &&& json::field(after, "output"@) == Some(Model::Text(output))
            &&& json::field(execute, "tool"@) == Some(Model::Text(tool))
            &&& json::field(execute, "args"@) == Some(args)
            &&& json::field(json::field(before, "session"@)->0, "id"@) == Some(
                Model::Text("hrns"@),
            )
            &&& json::field(json::field(after, "session"@)->0, "id"@) == Some(Model::Text("hrns"@))
        }),
{
    lemma_payload_names();
}

/// the payload of `before_stop` tells why the run ends, and the error where there is
/// one.
pub proof fn law_stop_payload(cwd: Seq<char>, reason: Seq<char>, error: Option<Seq<char>>)
    ensures
        ({
            let p = stop_payload(cwd, reason, error);
            &&& json::field(p, "exit_reason"@) == Some(Model::Text(reason))
            &&& json::field(p, "final"@) == Some(Model::Bool(true))
            &&& error is Some ==> json::field(p, "error"@) == Some(Model::Text(error->0))
            &&& error is None ==> json::field(p, "error"@) is None
            &&& json::field(json::field(p, "session"@)->0, "id"@) == Some(Model::Text("hrns"@))
        }),
{
    lemma_payload_names();
    reveal_strlit("hook");
    reveal_strlit("host");
    reveal_strlit("cwd");
    lemma_other_field("error"@);
}

/// the texts of a list are kept in order, and everything else is left out.
pub proof fn law_texts_of_list(items: Seq<Model>, s: Seq<char>, other: Model)
    requires
        !(other is Text),
    ensures
        texts_in(Seq::empty()) == Seq::<Seq<char>>::empty(),
        texts_in(items.push(Model::Text(s))) == texts_in(items).push(s),
        texts_in(items.push(other)) == texts_in(items),
{
    assert(items.push(Model::Text(s)).drop_last() =~= items);
    assert(items.push(other).drop_last() =~= items);
}

/// the fragments of the system prompt are the texts under `system` of each script
/// that answers, script by script.
pub proof fn law_system_fragments(responses: Seq<Response>, t: Table<Json>, items: Seq<Model>)
    ensures
        system_texts(Seq::empty()) == Seq::<Seq<char>>::empty(),
        merge::at(json::field_models(t@), "system"@) == Some(Model::Array(items)) ==> system_texts(
            responses.push(Ok(t)),
        ) == system_texts(responses) + texts_in(items),
        merge::at(json::field_models(t@), "system"@) is None ==> system_texts(
            responses.push(Ok(t)),
        ) == system_texts(responses),
{
    assert(responses.push(Ok(t)).drop_last() =~= responses);
    if merge::at(json::field_models(t@), "system"@) is None {
        assert(texts_in(Seq::empty()) =~= Seq::empty());
        assert(system_texts(responses) + Seq::<Seq<char>>::empty() =~= system_texts(responses));
    }
}

/// the results that several scripts give are joined by line feeds, and a script that
/// gives none changes nothing.
pub proof fn law_results_are_joined(responses: Seq<Response>, t: Table<Json>, s: Seq<char>)
    ensures
        answer(Seq::empty(), "result"@) is None,
        merge::at(json::field_models(t@), "result"@) == Some(Model::Text(s)) && answer(
            responses,
            "result"@,
        ) is Some ==> answer(responses.push(Ok(t)), "result"@) == Some(
            answer(responses, "result"@)->0.push('\n') + s,
        ),
        merge::at(json::field_models(t@), "result"@) == Some(Model::Text(s)) && merge::at(
            accumulated(responses),
            "result"@,
        ) is None ==> answer(responses.push(Ok(t)), "result"@) == Some(s),
        merge::at(json::field_models(t@), "result"@) is None ==> answer(
            responses.push(Ok(t)),
            "result"@,
        ) == answer(responses, "result"@),
{
    assert(responses.push(Ok(t)).drop_last() =~= responses);
    let acc = accumulated(responses);
    let obj = json::field_models(t@);
    assert(merge::text_names()[4] == "result"@);
    if merge::at(obj, "result"@) == Some(Model::Text(s)) {
        reveal_strlit("result");
        reveal_strlit("system");
        reveal_strlit("tools");
        reveal_strlit("notifications");
        reveal_strlit("actions");
        reveal_strlit("modified");
        reveal_strlit("notify");
        assert("result"@[0] == 'r' && "system"@[0] == 's' && "tools"@[0] == 't'
            && "notifications"@[0] == 'n' && "actions"@[0] == 'a' && "modified"@[0] == 'm'
            && "notify"@[0] == 'n');
        assert(!merge::is_list_field("result"@));
        if answer(responses, "result"@) is Some {
            let e = answer(responses, "result"@)->0;
            assert(e.push('\n') =~= e + seq!['\n']);
        }
    }
}

/// each script that fails is complained about, with its name and the stage, in order.
pub proof fn law_failures_are_told<P>(
    stage: Seq<char>,
    scripts: Seq<HookScript<P>>,
    responses: Seq<Response>,
    e: String,
    t: Table<Json>,
)
    requires
        responses.len() < scripts.len(),
    ensures
        failures(stage, scripts, Seq::empty()) == Seq::<Seq<char>>::empty(),
        failures(stage, scripts, responses.push(Err(e))) == failures(
            stage,
            scripts,
            responses,
        ).push(
            "hook "@ + stage + " failed for "@ + scripts[responses.len() as int].name@ + ": "@ + e@,
        ),
        failures(stage, scripts, responses.push(Ok(t))) == failures(stage, scripts, responses),
{
    assert(responses.push(Err(e)).drop_last() =~= responses);
    assert(responses.push(Ok(t)).drop_last() =~= responses);
}

/// a script stays iff its verdict is good, and those that stay keep their order.
pub proof fn law_retained_scripts<P>(
    scripts: Seq<HookScript<P>>,
    verdicts: Seq<bool>,
    script: HookScript<P>,
    verdict: bool,
)
    requires
        scripts.len() == verdicts.len(),
    ensures
        kept(scripts.push(script), verdicts.push(verdict)) == if verdict {
            kept(scripts, verdicts).push(script)
        } else {
            kept(scripts, verdicts)
        },
        kept(Seq::<HookScript<P>>::empty(), verdicts) == Seq::<HookScript<P>>::empty(),
{
    assert(scripts.push(script).drop_last() =~= scripts);
    lemma_kept(scripts, verdicts.push(verdict), verdicts);
}

/// a tool is registered under its script's name and its own, with its description
/// and the schema of its parameters; its own name alone is what its script is called
/// with.
pub proof fn law_registration(script: Seq<char>, t: DiscoveredTool)
    ensures
        ({
            let r = registered(script, t);
            &&& r.full_name == script.push('_') + t.name@
            &&& r.short_name == t.name@
            &&& r.description == t.description@
            &&& r.schema == schema::schema_of(json::field_models(t.parameters@))
            &&& t.permission is None ==> r.permission_args.len() == 0
            &&& t.permission is Some && t.permission->0.arg@ is Text ==> r.permission_args == seq![
                t.permission->0.arg@->Text_0,
            ]
            &&& t.permission is Some && t.permission->0.arg@ is Array ==> r.permission_args
                == texts_in(t.permission->0.arg@->Array_0)
        }),
{
    reveal_strlit("_");
    assert("_"@ =~= seq!['_']);
    assert(script.push('_') =~= script + "_"@);
}

/// a script goes by the name that it gives itself, or else keeps its own; its tools
/// are registered one by one, under that name.
pub proof fn law_discovery<P>(
    new: HookScript<P>,
    old: HookScript<P>,
    d: DiscoverResponse,
    i: int,
)
    requires
        is_discovered(new, old, d),
    ensures
        d.name is Some ==> new.name@ == d.name->0@,
        d.name is None ==> new.name@ == old.name@,
        new.path == old.path,
        new.file_name == old.file_name,
        new.test == d.test,
        new.tools@.len() == d.tools@.len(),
        0 <= i < d.tools@.len() ==> new.tools@[i]@ == registered(new.name@, d.tools@[i]),
{
    let a = tool_models(new.tools@);
    let b = all_registered(new.name@, d.tools@);
    assert(a.len() == b.len());
    if 0 <= i < d.tools@.len() {
        assert(a[i] == b[i]);
    }
}

/// the tools of a script are offered in order: each one that is active, and no other.
pub proof fn law_offered_tools(
    script: int,
    list: Seq<HookToolDef>,
    tool: HookToolDef,
    gates: Map<Seq<char>, bool>,
    names: Option<Vec<String>>,
)
    ensures
        active_in(script, Seq::empty(), gates, names) == Seq::<(int, int)>::empty(),
        active_in(script, list.push(tool), gates, names) == if config::active(
            gates,
            tool.full_name@,
            names,
        ) {
            active_in(script, list, gates, names).push((script, list.len() as int))
        } else {
            active_in(script, list, gates, names)
        },
{
    assert(list.push(tool).drop_last() =~= list);
}

/// the tools of the scripts are offered script by script.
pub proof fn law_offered_scripts<P>(
    scripts: Seq<HookScript<P>>,
    script: HookScript<P>,
    gates: Map<Seq<char>, bool>,
    names: Option<Vec<String>>,
)
    ensures
        active_indices(Seq::<HookScript<P>>::empty(), gates, names) == Seq::<(int, int)>::empty(),
        active_indices(scripts.push(script), gates, names) == active_indices(scripts, gates, names)
            + active_in(scripts.len() as int, script.tools@, gates, names),
{
    assert(scripts.push(script).drop_last() =~= scripts);
}

/// the permission key of a call is the value of the named parameter; of several the
/// values with blanks between them, in the order of the names; and a star for none.
/// a text is taken as it is, anything else as it is written, and nothing for what is
/// missing.
pub proof fn law_permission_keys(
    args: Model,
    name: Seq<char>,
    names: Seq<Seq<char>>,
    s: Seq<char>,
)
    ensures
        key_for(args, Seq::empty()) == seq!['*'],
        json::field(args, name) == Some(Model::Text(s)) ==> key_for(args, seq![name]) == s,
        json::field(args, name) is None ==> key_for(args, seq![name]).len() == 0,
        json::field(args, name) is Some && !(json::field(args, name)->0 is Text) ==> key_for(
            args,
            seq![name],
        ) == json::rendered(json::field(args, name)->0),
        names.len() > 0 ==> key_for(args, names.push(name)) == key_for(args, names).push(' ')
            + key_for(args, seq![name]),
{
    reveal_strlit("*");
    reveal_strlit(" ");
    assert("*"@ =~= seq!['*']);
    assert(" "@ =~= seq![' ']);
    let one = key_parts(args, seq![name]);
    assert(one =~= seq![key_part(args, name)]);
    text::law_join_single(key_part(args, name), " "@);
    if names.len() > 0 {
        let a = key_parts(args, names);
        assert(key_parts(args, names.push(name)) =~= a + one);
        text::law_join_in_pieces(a, one, " "@);
        assert(key_for(args, names).push(' ') =~= key_for(args, names) + " "@);
    }
}

/// a call of a hook tool is judged by the level for the tool's full name and the
/// call's key, by command rules.
pub proof fn law_hook_gate(permissions: Map<Seq<char>, Rule>, tool: ToolModel, args: Model)
    ensures
        ({
            let key = key_for(args, tool.permission_args);
            let gate = hook_gate(permissions, tool, args);
            match permission::verdict(permissions, tool.full_name, key, false) {
                permission::PermissionLevel::Allow => gate == GateModel::Pass,
                permission::PermissionLevel::Ask => gate is Ask && gate->input == key,
                permission::PermissionLevel::Deny => gate == GateModel::Refuse(
                    "permission denied: "@ + key,
                ),
            }
        }),
{
}

/// a call of a hook tool ends at once where its arguments are no JSON, do not pass
/// the tool's schema, or are denied; it is asked about where the permissions ask, and
/// goes to the hooks where they allow it.
pub proof fn law_hook_call_begins(
    permissions: Map<Seq<char>, Rule>,
    tool: ToolModel,
    text: Seq<char>,
)
    ensures
        ({
            let (state, action) = hook_called(permissions, tool, text);
            match json::parsed(text) {
                Err(e) => action == HookActionModel::Finish(Err(ErrorModel::Json(e))),
                Ok(args) => match schema::complaint(args, tool.schema) {
                    Some(m) => action == HookActionModel::Finish(Err(ErrorModel::Call(m))),
                    None => match hook_gate(permissions, tool, args) {
                        GateModel::Pass => {
                            &&& state == HookStateModel::Intercepting { args }
                            &&& action == HookActionModel::Intercept(args)
                        },
                        GateModel::Ask { input, .. } => {
                            &&& state == HookStateModel::Confirming { args, input }
                            &&& action == HookActionModel::Confirm { input }
                        },
                        GateModel::Refuse(m) => action == HookActionModel::Finish(
                            Err(ErrorModel::Call(m)),
                        ),
                    },
                },
            }
        }),
{
}

/// a call that nothing intercepts runs its script, under the tool's own name and with
/// the call's arguments; what the script gives as its result is the output, nothing
/// where it gives none, and its failure ends the call.
pub proof fn law_hook_call_runs(
    permissions: Map<Seq<char>, Rule>,
    tool: ToolModel,
    cwd: Seq<char>,
    args: Model,
    before: BeforeToolResult,
    fields: Table<Json>,
    s: Seq<char>,
    e: String,
)
    requires
        before.deny is None,
        before.args is None,
        before.result is None,
    ensures
        ({
            let (state, action) = hook_next(
                permissions,
                tool,
                cwd,
                HookStateModel::Intercepting { args },
                HookCallEvent::Intercepted(before),
            );
            let done = hook_next(
                permissions,
                tool,
                cwd,
                HookStateModel::Executing,
                HookCallEvent::Executed(Ok(fields)),
            );
            let broken = hook_next(
                permissions,
                tool,
                cwd,
                HookStateModel::Executing,
                HookCallEvent::Executed(Err(e)),
            );
            &&& state == HookStateModel::Executing
            &&& action is Execute
            &&& json::field(action->Execute_0, "tool"@) == Some(Model::Text(tool.short_name))
            &&& json::field(action->Execute_0, "args"@) == Some(args)
            &&& merge::at(json::field_models(fields@), "result"@) == Some(Model::Text(s)) ==> done.1
                == HookActionModel::Observe(s)
            &&& merge::at(json::field_models(fields@), "result"@) is None ==> done.1
                == HookActionModel::Observe(Seq::empty())
            &&& broken.1 == HookActionModel::Finish(Err(ErrorModel::Call(e@)))
        }),
{
    lemma_payload_names();
}

/// a call that the user agrees to goes to the hooks, or on where they have rewritten
/// it, with the arguments that the user was asked about; one that the user rejects
/// ends with an error.
pub proof fn law_hook_confirmation(
    permissions: Map<Seq<char>, Rule>,
    tool: ToolModel,
    cwd: Seq<char>,
    args: Model,
    input: Seq<char>,
)
    ensures
        ({
            let first = HookStateModel::Confirming { args, input };
            let again = HookStateModel::Reconfirming { args, input, result: None };
            let yes = HookCallEvent::Confirmed(true);
            let no = HookCallEvent::Confirmed(false);
            let refused = HookActionModel::Finish(
                Err(ErrorModel::Call("permission denied (user rejected): "@ + input)),
            );
            &&& hook_next(permissions, tool, cwd, first, yes).1 == HookActionModel::Intercept(args)
            &&& hook_next(permissions, tool, cwd, first, no).1 == refused
            &&& hook_next(permissions, tool, cwd, again, yes).1 is Execute
            &&& json::field(
                hook_next(permissions, tool, cwd, again, yes).1->Execute_0,
                "args"@,
            ) == Some(args)
            &&& hook_next(permissions, tool, cwd, again, no).1 == refused
        }),
{
    lemma_payload_names();
}

/// a result that the hooks put in place of the script's is the output, and the script
/// does not run.
pub proof fn law_hook_synthetic_result(
    permissions: Map<Seq<char>, Rule>,
    tool: ToolModel,
    cwd: Seq<char>,
    args: Model,
    before: BeforeToolResult,
)
    requires
        before.deny is None,
        before.args is None,
        before.result is Some,
    ensures
        hook_next(
            permissions,
            tool,
            cwd,
            HookStateModel::Intercepting { args },
            HookCallEvent::Intercepted(before),
        ).1 == HookActionModel::Observe(before.result->0@),
{
}

/// what is observed is what the call ends with, unless the hooks replace it.
pub proof fn law_hook_observed_output(
    permissions: Map<Seq<char>, Rule>,
    tool: ToolModel,
    cwd: Seq<char>,
    state: HookStateModel,
    event: HookCallEvent,
    after: AfterToolResult,
)
    requires
        hook_awaits(state, event),
        hook_next(permissions, tool, cwd, state, event).1 is Observe,
    ensures
        ({
            let (next, action) = hook_next(permissions, tool, cwd, state, event);
            hook_next(permissions, tool, cwd, next, HookCallEvent::Observed(after)).1
                == HookActionModel::Finish(
                Ok(
                    if after.result is Some {
                        after.result->0@
                    } else {
                        action->Observe_0
                    },
                ),
            )
        }),
{
}

/// the errors of a discovery are those of the scripts that failed, each with the
/// number of its script, in order.
pub proof fn law_discovery_errors(results: Seq<Result<(), String>>, e: String)
    ensures
        errors_in(Seq::empty()) == Seq::<(int, Seq<char>)>::empty(),
        errors_in(results.push(Ok(()))) == errors_in(results),
        errors_in(results.push(Err(e))) == errors_in(results).push((results.len() as int, e@)),
{
    assert(results.push(Ok(())).drop_last() =~= results);
    assert(results.push(Err(e)).drop_last() =~= results);
}

/// what asking a script to introduce itself leads to: a failure leaves it as it was
/// and is handed out, and so is a response that cannot be understood.
pub proof fn law_discovery_outcomes<P>(
    new: HookScript<P>,
    old: HookScript<P>,
    response: Response,
    d: Option<Result<DiscoverResponse, String>>,
    r: Result<(), String>,
)
    requires
        discovery_outcome(new, old, response, d, r),
    ensures
        response is Err ==> new == old && r is Err && r->Err_0@ == response->Err_0@,
        response is Ok && d is Some && d->0 is Ok ==> r is Ok && is_discovered(new, old, d->0->Ok_0),
        response is Ok && d is Some && d->0 is Err ==> new == old && r is Err && r->Err_0@
            == "invalid discover response: "@ + d->0->Err_0@,
{
}

/// the models of registered tools tell what the values hold.
pub proof fn law_hook_tool_models(t: HookToolDef, i: int)
    ensures
        t@.full_name == t.full_name@,
        t@.short_name == t.short_name@,
        t@.description == t.description@,
        t@.schema == t.parameters_schema@,
        t@.permission_args.len() == t.permission_args@.len(),
        0 <= i < t.permission_args@.len() ==> t@.permission_args[i] == t.permission_args@[i]@,
{
}

/// the models of states and actions tell what the values hold.
pub proof fn law_hook_call_models(state: HookCallState, action: HookCallAction)
    ensures
        ({
            match state {
                HookCallState::Confirming { args, input } => state@ == HookStateModel::Confirming {
                    args: args@,
                    input: input@,
                },
                HookCallState::Intercepting { args } => state@ == HookStateModel::Intercepting {
                    args: args@,
                },
                HookCallState::Reconfirming { args, input, result } => state@
                    == HookStateModel::Reconfirming {
                    args: args@,
                    input: input@,
                    result: text::text_opt(result),
                },
                HookCallState::Executing => state@ == HookStateModel::Executing,
                HookCallState::Observing { output } => state@ == HookStateModel::Observing {
                    output: output@,
                },
                HookCallState::Finished => state@ == HookStateModel::Finished,
            }
        }),
        ({
            match action {
                HookCallAction::Confirm { input } => action@ == HookActionModel::Confirm {
                    input: input@,
                },
                HookCallAction::Intercept(j) => action@ == HookActionModel::Intercept(j@),
                HookCallAction::Execute(j) => action@ == HookActionModel::Execute(j@),
                HookCallAction::Observe(s) => action@ == HookActionModel::Observe(s@),
                HookCallAction::Finish(Ok(s)) => action@ == HookActionModel::Finish(Ok(s@)),
                HookCallAction::Finish(Err(e)) => action@ == HookActionModel::Finish(Err(e@)),
            }
        }),
{
}

/// each response is what its own script gives at the stage with the payload.
pub proof fn law_scripts_are_asked_one_by_one<
    P,
    F: Fn(&HookScript<P>, &str, &Json) -> Response,
>(
    invoke: F,
    scripts: Seq<HookScript<P>>,
    stage: Seq<char>,
    payload: Model,
    responses: Seq<Response>,
    i: int,
)
    requires
        answered(invoke, scripts, stage, payload, responses),
        0 <= i < scripts.len(),
    ensures
        responses.len() == scripts.len(),
        exists|s: &str, j: Json|
            s@ == stage && j@ == payload && #[trigger] call_ensures(
                invoke,
                (&scripts[i], s, &j),
                responses[i],
            ),
{
    let (s, j) = choose|s: &str, j: Json| #[trigger]
        invoked(invoke, scripts, s, j, responses) && s@ == stage && j@ == payload;
    assert(call_ensures(invoke, (&scripts[i], s, &j), responses[i]));
}

/// each verdict is what the filter says to the name that its script goes by.
pub proof fn law_scripts_are_judged_by_name<P, F: Fn(&str) -> bool>(
    filter: F,
    scripts: Seq<HookScript<P>>,
    verdicts: Seq<bool>,
    i: int,
)
    requires
        judged(filter, scripts, verdicts),
        0 <= i < scripts.len(),
    ensures
        verdicts.len() == scripts.len(),
        exists|s: &str|
            s@ == scripts[i].name@ && #[trigger] call_ensures(filter, (s,), verdicts[i]),
{
    assert(says(filter, scripts[i].name@, verdicts[i]));
}

/// a script that is asked to introduce itself is asked at `discover`, with the payload
/// of that stage, and what comes of it is read by the reader.
pub proof fn law_introduction<
    P,
    F: Fn(&HookScript<P>, &str, &Json) -> Response,
    D: Fn(&Table<Json>) -> Result<DiscoverResponse, String>,
>(
    invoke: F,
    read: D,
    cwd: Seq<char>,
    new: HookScript<P>,
    old: HookScript<P>,
    r: Result<(), String>,
)
    requires
        introduced(invoke, read, cwd, new, old, r),
    ensures
        exists|s: &str, j: Json, response: Response|
            s@ == "discover"@ && j@ == discover_payload(cwd) && #[trigger] call_ensures(
                invoke,
                (&old, s, &j),
                response,
            ) && match response {
                Err(e) => new == old && r is Err && r->Err_0@ == e@,
                Ok(t) => exists|d: Result<DiscoverResponse, String>|
                    {
                        &&& #[trigger] call_ensures(read, (&t,), d)
                        &&& match d {
                            Ok(d) => r is Ok && is_discovered(new, old, d),
                            Err(e) => new == old && r is Err && r->Err_0@
                                == "invalid discover response: "@ + e@,
                        }
                    },
            },
{
    let (response, d) = choose|
        response: Response,
        d: Option<Result<DiscoverResponse, String>>,
    |
        {
            &&& replied(invoke, old, "discover"@, discover_payload(cwd), response)
            &&& #[trigger] understood(read, response, d)
            &&& discovery_outcome(new, old, response, d, r)
        };
    let (s, j) = choose|s: &str, j: Json| #[trigger]
        call_ensures(invoke, (&old, s, &j), response) && s@ == "discover"@ && j@
            == discover_payload(cwd);
    assert(call_ensures(invoke, (&old, s, &j), response));
    match response {
        Ok(t) => {
            assert(call_ensures(read, (&t,), d->0));
        },
        Err(_) => {},
    }
}

/// a script that was found goes by the stem of its file name, and has no tools yet.
pub proof fn law_fresh_scripts<P>(script: HookScript<P>, e: ScriptEntry<P>)
    requires
        is_fresh(script, e),
    ensures
        e.file_name is Some,
        script.name@ == stem(e.file_name->0@),
        script.file_name@ == e.file_name->0@,
        script.path == e.path,
        script.test is None,
        script.tools@.len() == 0,
{
}

/// the scripts of a file name are those of the list, in their order.
pub proof fn law_scripts_of_a_name<P>(
    s: Seq<HookScript<P>>,
    x: HookScript<P>,
    name: Seq<char>,
)
    ensures
        with_file_name(Seq::<HookScript<P>>::empty(), name) == Seq::<HookScript<P>>::empty(),
        with_file_name(s.push(x), name) == if x.file_name@ == name {
            with_file_name(s, name).push(x)
        } else {
            with_file_name(s, name)
        },
{
    assert(s.push(x).drop_last() =~= s);
}

/// a script is among those of its file name iff it is in the list.
proof fn lemma_in_its_name<P>(s: Seq<HookScript<P>>, x: HookScript<P>)
    ensures
        with_file_name(s, x.file_name@).contains(x) <==> s.contains(x),
    decreases s.len(),
{
    if s.len() > 0 {
        let t = s.drop_last();
        let n = x.file_name@;
        lemma_in_its_name(t, x);
        assert(s =~= t.push(s.last()));
        let a = with_file_name(t, n);
        let b = with_file_name(s, n);
        if s.contains(x) {
            let k = choose|k: int| 0 <= k < s.len() && s[k] == x;
            if k < t.len() {
                assert(t[k] == x);
                let m = choose|m: int| 0 <= m < a.len() && a[m] == x;
                assert(b[m] == x);
            } else {
                assert(b[b.len() - 1] == x);
            }
        }
        if b.contains(x) {
            let m = choose|m: int| 0 <= m < b.len() && b[m] == x;
            if m < a.len() {
                assert(a[m] == x);
                let k = choose|k: int| 0 <= k < t.len() && t[k] == x;
                assert(s[k] == x);
            } else {
                assert(s[s.len() - 1] == x);
            }
        }
    }
}

/// sorting loses no script and adds none, and a script whose file name comes before
/// another's comes before it.
pub proof fn law_sorted_scripts<P>(
    r: Seq<HookScript<P>>,
    s: Seq<HookScript<P>>,
    x: HookScript<P>,
    i: int,
    j: int,
)
    requires
        is_sorted_from(r, s),
    ensures
        r.contains(x) <==> s.contains(x),
        0 <= i < r.len() && 0 <= j < r.len() && text::before(r[i].file_name@, r[j].file_name@)
            ==> i < j,
{
    lemma_in_its_name(r, x);
    lemma_in_its_name(s, x);
    assert(with_file_name(r, x.file_name@) == with_file_name(s, x.file_name@));
    if 0 <= i < r.len() && 0 <= j < r.len() && text::before(r[i].file_name@, r[j].file_name@) {
        if i == j {
            text::lemma_before_irreflexive(r[i].file_name@);
        }
        if j < i {
            assert(!text::before(r[i].file_name@, r[j].file_name@));
        }
    }
}

/// starting a script is tried again only where its file is busy, and not for ever.
pub proof fn law_retries(code: Option<i32>, attempt: int)
    ensures
        is_retried(code, attempt) ==> code == Some(26i32) && attempt < 20,
        code == Some(26i32) && attempt < 20 ==> is_retried(code, attempt),
        !is_retried(None, attempt),
{
}

/// a script that succeeds gives what its lines come to, and one that fails its exit
/// status.
pub proof fn law_ended_scripts(status: Seq<char>, stdout: Seq<char>)
    ensures
        ended(true, status, stdout) is Ok,
        ended(true, status, stdout)->Ok_0 == merge::after_lines(text::lines(stdout)),
        ended(false, status, stdout) == Err::<merge::Progress, Seq<char>>("exit "@ + status),
{
}

/// a clone of a script is the same but for how its path is cloned.
pub proof fn law_clones<P: Clone>(a: HookScript<P>, b: HookScript<P>, i: int)
    requires
        is_clone_of(a, b),
    ensures
        a.name@ == b.name@,
        a.file_name@ == b.file_name@,
        cloned(b.path, a.path),
        text::text_opt(a.test) == text::text_opt(b.test),
        a.tools@.len() == b.tools@.len(),
        0 <= i < b.tools@.len() ==> a.tools@[i]@ == b.tools@[i]@,
{
    let s = tool_models(a.tools@);
    let t = tool_models(b.tools@);
    assert(s.len() == t.len());
    if 0 <= i < b.tools@.len() {
        assert(s[i] == t[i]);
    }
}

/// arguments that the hooks rewrite are refused where they do not pass the tool's
/// schema or are denied, asked about where the permissions ask, and else what the call
/// goes on with, whatever the first ones were.
pub proof fn law_hook_rewriting(
    permissions: Map<Seq<char>, Rule>,
    tool: ToolModel,
    cwd: Seq<char>,
    args: Model,
    before: BeforeToolResult,
)
    requires
        before.deny is None,
        before.args is Some,
        before.result is None,
    ensures
        ({
            let new = before.args->0@;
            let (state, action) = hook_next(
                permissions,
                tool,
                cwd,
                HookStateModel::Intercepting { args },
                HookCallEvent::Intercepted(before),
            );
            match schema::complaint(new, tool.schema) {
                Some(m) => action == HookActionModel::Finish(
                    Err(ErrorModel::Call("rewritten tool args invalid: "@ + m)),
                ),
                None => match hook_gate(permissions, tool, new) {
                    GateModel::Pass => {
                        &&& action is Execute
                        &&& json::field(action->Execute_0, "args"@) == Some(new)
                    },
                    GateModel::Ask { input, .. } => {
                        &&& action == HookActionModel::Confirm { input }
                        &&& state == HookStateModel::Reconfirming {
                            args: new,
                            input,
                            result: None,
                        }
                    },
                    GateModel::Refuse(m) => action == HookActionModel::Finish(
                        Err(ErrorModel::Call(m)),
                    ),
                },
            }
        }),
{
    lemma_payload_names();
}

} // verus!
