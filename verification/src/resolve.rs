//! agent/skill discovery and markdown+frontmatter parsing. walks up from cwd to
//! the git root searching `.opencode/`, a directory shared with other runners,
//! `.agents/` (and `.pi/agent/` for skills), then falls back to the
//! `$HOME`-anchored globals. the name of the shared directory is the caller's.

use crate::config;
use crate::config::{SkillsConfig, ToolsConfig};
use crate::permission::PermissionsConfig;
use crate::table;
use crate::table::Table;
use crate::text;
use vstd::prelude::*;

verus! {

// --- documents ---

#[derive(Debug)]
pub struct AgentFrontmatter {
    pub description: Option<String>,
    pub model: Option<String>,
    pub skills: Option<Vec<String>>,
    pub tools: ToolsConfig,
    pub permissions: PermissionsConfig,
}

impl Default for AgentFrontmatter {
    fn default() -> (r: Self)
        ensures
            r.description is None,
            r.model is None,
            r.skills is None,
            r.tools@ == Map::<Seq<char>, bool>::empty(),
            r.permissions@.dom() == Set::<Seq<char>>::empty(),
    {
        AgentFrontmatter {
            description: None,
            model: None,
            skills: None,
            tools: ToolsConfig::default(),
            permissions: PermissionsConfig::default(),
        }
    }
}

#[derive(Debug)]
pub struct SkillFrontmatter {
    pub description: Option<String>,
}

impl Default for SkillFrontmatter {
    fn default() -> (r: Self)
        ensures
            r.description is None,
    {
        SkillFrontmatter { description: None }
    }
}

#[derive(Debug)]
pub struct ParsedDoc<T> {
    pub frontmatter: T,
    pub body: String,
}

/// the text behind a line ending at its front, where there is one.
pub open spec fn after_break(s: Seq<char>) -> Seq<char> {
    if s.len() > 0 && s[0] == '\n' {
        s.skip(1)
    } else if s.len() > 1 && s[0] == '\r' && s[1] == '\n' {
        s.skip(2)
    } else {
        s
    }
}

/// whether a document opens with a line of three hyphens.
pub open spec fn opens_with_fence(s: Seq<char>) -> bool {
    ||| seq!['-', '-', '-', '\n'].is_prefix_of(s)
    ||| seq!['-', '-', '-', '\r', '\n'].is_prefix_of(s)
}

/// the frontmatter and the body of a document: the frontmatter stands between an
/// opening line of three hyphens and the first later line that begins with
/// three hyphens; the body follows that fence and its line ending.
pub open spec fn sections(content: Seq<char>) -> Option<(Seq<char>, Seq<char>)> {
    if opens_with_fence(content) {
        match text::find(content.skip(4), seq!['\n', '-', '-', '-']) {
            Some(i) => Some(
                (content.subrange(4, 4 + i), after_break(content.skip(4 + i + 4))),
            ),
            None => None,
        }
    } else {
        None
    }
}

/// the text behind a line ending at its front, where there is one.
fn skip_break(s: &str) -> (r: String)
    ensures
        r@ == after_break(s@),
{
    let n = s.unicode_len();
    if n > 0 && s.get_char(0) == '\n' {
        let r = s.substring_char(1, n).to_owned();
        assert(r@ =~= s@.skip(1));
        r
    } else if n > 1 && s.get_char(0) == '\r' && s.get_char(1) == '\n' {
        let r = s.substring_char(2, n).to_owned();
        assert(r@ =~= s@.skip(2));
        r
    } else {
        s.to_owned()
    }
}

/// splits a document into its frontmatter and its body.
pub fn split_frontmatter(content: &str) -> (r: Option<(String, String)>)
    ensures
        match r {
            Some((head, body)) => sections(content@) == Some((head@, body@)),
            None => sections(content@) is None,
        },
{
    proof {
        reveal_strlit("---\n");
        reveal_strlit("---\r\n");
        reveal_strlit("\n---");
        assert("---\n"@ =~= seq!['-', '-', '-', '\n']);
        assert("---\r\n"@ =~= seq!['-', '-', '-', '\r', '\n']);
        assert("\n---"@ =~= seq!['\n', '-', '-', '-']);
    }
    if !text::starts_with(content, "---\n") && !text::starts_with(content, "---\r\n") {
        return None;
    }
    let n = content.unicode_len();
    let rest = content.substring_char(4, n);
    assert(rest@ =~= content@.skip(4));
    match text::find_str(rest, "\n---") {
        Some(i) => {
            let head = rest.substring_char(0, i).to_owned();
            assert(head@ =~= content@.subrange(4, 4 + i));
            let tail = rest.substring_char(i + 4, n - 4);
            assert(tail@ =~= content@.skip(4 + i + 4));
            Some((head, skip_break(tail)))
        },
        None => None,
    }
}

/// parses a markdown document. its frontmatter is read by `parse`; a document
/// without one has the default frontmatter and is all body.
pub fn parse_markdown_with_frontmatter<T: Default, E, F: Fn(&str) -> Result<T, E>>(
    content: &str,
    parse: F,
) -> (r: Result<ParsedDoc<T>, E>)
    requires
        forall|s: &str| #[trigger] call_requires(parse, (s,)),
        call_requires(T::default, ()),
    ensures
        match sections(content@) {
            Some((head, body)) => exists|s: &str, f: Result<T, E>|
                {
                    &&& s@ == head
                    &&& #[trigger] call_ensures(parse, (s,), f)
                    &&& match f {
                        Ok(t) => r is Ok && r->Ok_0.frontmatter == t && r->Ok_0.body@ == body,
                        Err(e) => r == Err::<ParsedDoc<T>, E>(e),
                    }
                },
            None => r is Ok && r->Ok_0.body@ == content@ && call_ensures(
                T::default,
                (),
                r->Ok_0.frontmatter,
            ),
        },
{
    match split_frontmatter(content) {
        Some((head, body)) => match parse(head.as_str()) {
            Ok(frontmatter) => Ok(ParsedDoc { frontmatter, body }),
            Err(e) => Err(e),
        },
        None => Ok(ParsedDoc { frontmatter: T::default(), body: content.to_owned() }),
    }
}

// --- places ---

/// distinguishes agent vs. skill lookup so the search can pick the right
/// per-base subdirectories (e.g. `.pi/agent/skills` for skills alone).
#[derive(Debug, Copy, Clone, PartialEq, Eq, Structural)]
pub enum Kind {
    Agent,
    Skill,
}

/// what the path of a place starts from.
#[derive(Debug, Copy, Clone, PartialEq, Eq, Structural)]
pub enum Anchor {
    /// the working directory's ancestor, so many levels up.
    Ancestor(usize),
    /// the home directory.
    Home,
}

/// a place in the file system: a path below an anchor.
#[derive(Debug)]
pub struct Place {
    pub anchor: Anchor,
    pub path: String,
}

/// what a place stands for.
pub struct PlaceModel {
    pub anchor: Anchor,
    pub path: Seq<char>,
}

impl View for Place {
    type V = PlaceModel;

    open spec fn view(&self) -> PlaceModel {
        PlaceModel { anchor: self.anchor, path: self.path@ }
    }
}

/// what a list of places stands for.
pub open spec fn place_models(s: Seq<Place>) -> Seq<PlaceModel> {
    Seq::new(s.len(), |i: int| s[i]@)
}

/// the number of levels that the walk up from the working directory visits: it
/// ends with the first one that holds `.git`, or at the root. `git[i]` says
/// whether the ancestor `i` levels up holds it.
pub open spec fn levels_visited(git: Seq<bool>) -> nat
    decreases git.len(),
{
    if git.len() == 0 {
        0
    } else if git[0] {
        1
    } else {
        1 + levels_visited(git.drop_first())
    }
}

/// the given paths below one anchor.
pub open spec fn below(anchor: Anchor, paths: Seq<Seq<char>>) -> Seq<PlaceModel> {
    Seq::new(paths.len(), |i: int| PlaceModel { anchor, path: paths[i] })
}

/// the given paths below each of the first `n` ancestors, nearest first.
pub open spec fn below_ancestors(n: nat, paths: Seq<Seq<char>>) -> Seq<PlaceModel>
    decreases n,
{
    if n == 0 {
        Seq::empty()
    } else {
        below_ancestors((n - 1) as nat, paths) + below(
            Anchor::Ancestor((n - 1) as usize),
            paths,
        )
    }
}

/// the given local paths below each level that is visited, and then, where there
/// is a home directory, the given global ones below it.
pub open spec fn places(
    git: Seq<bool>,
    home: bool,
    local: Seq<Seq<char>>,
    global: Seq<Seq<char>>,
) -> Seq<PlaceModel> {
    below_ancestors(levels_visited(git), local) + if home {
        below(Anchor::Home, global)
    } else {
        Seq::empty()
    }
}

/// the directories that hold definitions of a kind, below a visited level.
pub open spec fn local_dirs(kind: Kind, shared: Seq<char>) -> Seq<Seq<char>> {
    match kind {
        Kind::Agent => seq![".opencode/agents"@, shared + "/agents"@, ".agents/agents"@],
        Kind::Skill => seq![
            ".opencode/skills"@,
            shared + "/skills"@,
            ".agents/skills"@,
            ".pi/agent/skills"@,
        ],
    }
}

/// the directories that hold definitions of a kind, below the home directory.
pub open spec fn global_dirs(kind: Kind, shared: Seq<char>) -> Seq<Seq<char>> {
    match kind {
        Kind::Agent => seq![".config/opencode/agents"@, shared + "/agents"@, ".agents/agents"@],
        Kind::Skill => seq![
            ".config/opencode/skills"@,
            shared + "/skills"@,
            ".agents/skills"@,
            ".pi/agent/skills"@,
        ],
    }
}

/// the bases that may hold definitions of any kind, below a visited level. they
/// allow loose layouts like `.agents/foo.md`, for lookup alone.
pub open spec fn flat_local_dirs(shared: Seq<char>) -> Seq<Seq<char>> {
    seq![".opencode"@, shared, ".agents"@]
}

/// the bases that may hold definitions of any kind, below the home directory.
pub open spec fn flat_global_dirs(shared: Seq<char>) -> Seq<Seq<char>> {
    seq![".config/opencode"@, shared, ".agents"@]
}

/// a file in each of the directories.
pub open spec fn in_each(dirs: Seq<Seq<char>>, file: Seq<char>) -> Seq<Seq<char>> {
    Seq::new(dirs.len(), |i: int| text::path_join(dirs[i], file))
}

/// the files that may hold the definition of a name in some directories. a skill
/// in a directory of its own comes before one in a single file.
pub open spec fn definition_files(
    kind: Kind,
    name: Seq<char>,
    dirs: Seq<Seq<char>>,
) -> Seq<Seq<char>> {
    match kind {
        Kind::Agent => in_each(dirs, name + ".md"@),
        Kind::Skill => in_each(dirs, name + "/SKILL.md"@) + in_each(dirs, name + ".md"@),
    }
}

/// the directories whose definitions of a kind are listed.
pub open spec fn listing_places(
    kind: Kind,
    shared: Seq<char>,
    git: Seq<bool>,
    home: bool,
) -> Seq<PlaceModel> {
    places(git, home, local_dirs(kind, shared), global_dirs(kind, shared))
}

/// the places where a definition is looked for by its name, first to last: at each
/// level the directories of the kind and then the flat bases, and likewise below
/// the home directory.
pub open spec fn lookup_places(
    kind: Kind,
    shared: Seq<char>,
    name: Seq<char>,
    git: Seq<bool>,
    home: bool,
) -> Seq<PlaceModel> {
    places(
        git,
        home,
        definition_files(kind, name, local_dirs(kind, shared) + flat_local_dirs(shared)),
        definition_files(kind, name, global_dirs(kind, shared) + flat_global_dirs(shared)),
    )
}

/// the number of levels that the walk up from the working directory visits.
pub fn count_levels(git: &[bool]) -> (r: usize)
    ensures
        r == levels_visited(git@),
        r <= git@.len(),
{
    let mut i: usize = 0;
    assert(git@.skip(0) =~= git@);
    while i < git.len()
        invariant
            i <= git@.len(),
            levels_visited(git@) == i + levels_visited(git@.skip(i as int)),
        decreases git@.len() - i,
    {
        let ghost rest = git@.skip(i as int);
        assert(rest[0] == git@[i as int]);
        assert(rest.drop_first() =~= git@.skip(i + 1));
        if git[i] {
            return i + 1;
        }
        i += 1;
    }
    i
}

/// adds the given paths below one anchor.
fn add_below(out: &mut Vec<Place>, anchor: Anchor, paths: &Vec<String>)
    ensures
        place_models(final(out)@) == place_models(old(out)@) + below(
            anchor,
            text::texts(paths@),
        ),
{
    let ghost before = out@;
    let mut i: usize = 0;
    while i < paths.len()
        invariant
            i <= paths@.len(),
            out@.len() == before.len() + i,
            forall|j: int| 0 <= j < before.len() ==> out@[j] == before[j],
            forall|j: int|
                0 <= j < i ==> (#[trigger] out@[before.len() + j])@ == (PlaceModel {
                    anchor,
                    path: paths@[j]@,
                }),
        decreases paths@.len() - i,
    {
        out.push(Place { anchor, path: paths[i].clone() });
        i += 1;
    }
    proof {
        let l = place_models(out@);
        let r = place_models(before) + below(anchor, text::texts(paths@));
        assert forall|j: int| 0 <= j < l.len() implies #[trigger] l[j] == r[j] by {
            if j >= before.len() {
                assert(out@[before.len() + (j - before.len())]@ == l[j]);
            }
        }
        assert(l =~= r);
    }
}

/// the given local paths below each level that is visited, and then the given
/// global ones.
pub fn collect_places(
    git: &[bool],
    home: bool,
    local: &Vec<String>,
    global: &Vec<String>,
) -> (r: Vec<Place>)
    ensures
        place_models(r@) == places(
            git@,
            home,
            text::texts(local@),
            text::texts(global@),
        ),
{
    let n = count_levels(git);
    let mut out: Vec<Place> = Vec::new();
    let mut i: usize = 0;
    assert(place_models(out@) =~= Seq::empty());
    while i < n
        invariant
            i <= n,
            place_models(out@) == below_ancestors(i as nat, text::texts(local@)),
        decreases n - i,
    {
        add_below(&mut out, Anchor::Ancestor(i), local);
        i += 1;
    }
    if home {
        add_below(&mut out, Anchor::Home, global);
    } else {
        assert(place_models(out@) =~= places(
            git@,
            home,
            text::texts(local@),
            text::texts(global@),
        ));
    }
    out
}

/// the directories that hold definitions of a kind, below a visited level.
pub fn local_subdirs(kind: Kind, shared: &str) -> (r: Vec<String>)
    ensures
        text::texts(r@) == local_dirs(kind, shared@),
{
    let mut r: Vec<String> = Vec::new();
    match kind {
        Kind::Agent => {
            r.push(".opencode/agents".to_owned());
            r.push(text::concat2(shared, "/agents"));
            r.push(".agents/agents".to_owned());
        },
        Kind::Skill => {
            r.push(".opencode/skills".to_owned());
            r.push(text::concat2(shared, "/skills"));
            r.push(".agents/skills".to_owned());
            r.push(".pi/agent/skills".to_owned());
        },
    }
    assert(text::texts(r@) =~= local_dirs(kind, shared@));
    r
}

/// the directories that hold definitions of a kind, below the home directory.
pub fn global_subdirs(kind: Kind, shared: &str) -> (r: Vec<String>)
    ensures
        text::texts(r@) == global_dirs(kind, shared@),
{
    let mut r: Vec<String> = Vec::new();
    match kind {
        Kind::Agent => {
            r.push(".config/opencode/agents".to_owned());
            r.push(text::concat2(shared, "/agents"));
            r.push(".agents/agents".to_owned());
        },
        Kind::Skill => {
            r.push(".config/opencode/skills".to_owned());
            r.push(text::concat2(shared, "/skills"));
            r.push(".agents/skills".to_owned());
            r.push(".pi/agent/skills".to_owned());
        },
    }
    assert(text::texts(r@) =~= global_dirs(kind, shared@));
    r
}

/// the bases that may hold definitions of any kind, below a visited level.
fn flat_local_bases(shared: &str) -> (r: Vec<String>)
    ensures
        text::texts(r@) == flat_local_dirs(shared@),
{
    let mut r: Vec<String> = Vec::new();
    r.push(".opencode".to_owned());
    r.push(shared.to_owned());
    r.push(".agents".to_owned());
    assert(text::texts(r@) =~= flat_local_dirs(shared@));
    r
}

/// the bases that may hold definitions of any kind, below the home directory.
fn flat_global_bases(shared: &str) -> (r: Vec<String>)
    ensures
        text::texts(r@) == flat_global_dirs(shared@),
{
    let mut r: Vec<String> = Vec::new();
    r.push(".config/opencode".to_owned());
    r.push(shared.to_owned());
    r.push(".agents".to_owned());
    assert(text::texts(r@) =~= flat_global_dirs(shared@));
    r
}

/// a file in each of the directories of two lists.
fn files_in(first: &Vec<String>, second: &Vec<String>, file: &str) -> (r: Vec<String>)
    ensures
        text::texts(r@) == in_each(text::texts(first@) + text::texts(second@), file@),
{
    let ghost dirs = text::texts(first@) + text::texts(second@);
    let mut r: Vec<String> = Vec::new();
    let mut i: usize = 0;
    while i < first.len()
        invariant
            i <= first@.len(),
            r@.len() == i,
            dirs == text::texts(first@) + text::texts(second@),
            forall|j: int| 0 <= j < i ==> (#[trigger] r@[j])@ == text::path_join(dirs[j], file@),
        decreases first@.len() - i,
    {
        r.push(text::join_paths(first[i].as_str(), file));
        i += 1;
    }
    i = 0;
    while i < second.len()
        invariant
            i <= second@.len(),
            r@.len() == first@.len() + i,
            dirs == text::texts(first@) + text::texts(second@),
            forall|j: int|
                0 <= j < first@.len() + i ==> (#[trigger] r@[j])@ == text::path_join(
                    dirs[j],
                    file@,
                ),
        decreases second@.len() - i,
    {
        r.push(text::join_paths(second[i].as_str(), file));
        i += 1;
    }
    assert(text::texts(r@) =~= in_each(dirs, file@));
    r
}

/// the files that may hold the definition of a name in the directories of two
/// lists.
fn definitions_in(kind: Kind, name: &str, first: &Vec<String>, second: &Vec<String>) -> (r: Vec<
    String,
>)
    ensures
        text::texts(r@) == definition_files(
            kind,
            name@,
            text::texts(first@) + text::texts(second@),
        ),
{
    let file = text::concat2(name, ".md");
    let mut single = files_in(first, second, file.as_str());
    match kind {
        Kind::Agent => single,
        Kind::Skill => {
            let file = text::concat2(name, "/SKILL.md");
            let mut out = files_in(first, second, file.as_str());
            let ghost a = out@;
            let ghost b = single@;
            out.append(&mut single);
            assert(text::texts(out@) =~= text::texts(a) + text::texts(b));
            out
        },
    }
}

/// the directories whose definitions of a kind are listed.
pub fn find_listing_places(
    kind: Kind,
    shared: &str,
    git: &[bool],
    home: bool,
) -> (r: Vec<Place>)
    ensures
        place_models(r@) == listing_places(kind, shared@, git@, home),
{
    collect_places(git, home, &local_subdirs(kind, shared), &global_subdirs(kind, shared))
}

/// the places where a definition is looked for by its name, first to last.
pub fn find_lookup_places(
    kind: Kind,
    shared: &str,
    name: &str,
    git: &[bool],
    home: bool,
) -> (r: Vec<Place>)
    ensures
        place_models(r@) == lookup_places(kind, shared@, name@, git@, home),
{
    let local = definitions_in(kind, name, &local_subdirs(kind, shared), &flat_local_bases(shared));
    let global = definitions_in(
        kind,
        name,
        &global_subdirs(kind, shared),
        &flat_global_bases(shared),
    );
    collect_places(git, home, &local, &global)
}

// --- listing ---

/// an entry of a listed directory.
#[derive(Debug)]
pub struct DirEntry {
    pub is_dir: bool,
    /// whether it is a directory that holds a `SKILL.md`.
    pub holds_skill: bool,
    /// its file name, where that is text.
    pub file_name: Option<String>,
}

/// a definition that was found: its name, the entry that defines it, and whether
/// that is a directory with a `SKILL.md`.
#[derive(Debug)]
pub struct Listed {
    pub name: String,
    pub entry: usize,
    pub in_dir: bool,
}

/// whether an entry is a skill in a directory of its own.
pub open spec fn is_skill_dir(e: DirEntry) -> bool {
    e.is_dir && e.holds_skill
}

/// the name of the definition that an entry holds: a directory's own name, or a
/// markdown file's name without `.md`.
pub open spec fn defined_name(e: DirEntry) -> Option<Seq<char>> {
    match e.file_name {
        Some(f) => if is_skill_dir(e) {
            Some(f@)
        } else if f@.len() > 3 && seq!['.', 'm', 'd'].is_suffix_of(f@) {
            Some(f@.take(f@.len() - 3))
        } else {
            None
        },
        None => None,
    }
}

/// the names that the first `n` entries define.
pub open spec fn names_defined(entries: Seq<DirEntry>, n: int) -> Set<Seq<char>> {
    Set::new(
        |k: Seq<char>|
            exists|i: int|
                0 <= i < n && i < entries.len() && defined_name(#[trigger] entries[i]) == Some(k),
    )
}

/// entry `i` is the first one that defines the name.
pub open spec fn first_defines(entries: Seq<DirEntry>, name: Seq<char>, i: int) -> bool {
    &&& 0 <= i < entries.len()
    &&& defined_name(entries[i]) == Some(name)
    &&& forall|j: int| 0 <= j < i ==> defined_name(#[trigger] entries[j]) != Some(name)
}

/// the names of a listing.
pub open spec fn listed_names(s: Seq<Listed>) -> Seq<Seq<char>> {
    Seq::new(s.len(), |i: int| s[i].name@)
}

/// the name of the definition that an entry holds.
fn name_of(e: &DirEntry) -> (r: Option<String>)
    ensures
        match r {
            Some(n) => defined_name(*e) == Some(n@),
            None => defined_name(*e) is None,
        },
{
    proof {
        reveal_strlit(".md");
        assert(".md"@ =~= seq!['.', 'm', 'd']);
    }
    match &e.file_name {
        Some(f) => {
            if e.is_dir && e.holds_skill {
                Some(f.clone())
            } else {
                let n = f.as_str().unicode_len();
                if n > 3 && text::ends_with(f.as_str(), ".md") {
                    Some(f.as_str().substring_char(0, n - 3).to_owned())
                } else {
                    None
                }
            }
        },
        None => None,
    }
}

/// finds all definitions in the entries of the listed directories, in the order
/// of the directories. of several with one name the first counts. the result is
/// sorted by name.
pub fn find_all_in_dirs(entries: &Vec<DirEntry>) -> (r: Vec<Listed>)
    ensures
        listed_names(r@) == table::key_order(names_defined(entries@, entries@.len() as int)),
        forall|k: int|
            0 <= k < r@.len() ==> {
                &&& first_defines(entries@, (#[trigger] r@[k]).name@, r@[k].entry as int)
                &&& r@[k].in_dir == is_skill_dir(entries@[r@[k].entry as int])
            },
{
    let mut found: Table<usize> = Table::new();
    let mut i: usize = 0;
    while i < entries.len()
        invariant
            i <= entries@.len(),
            forall|k: Seq<char>| #[trigger]
                found@.contains_key(k) ==> first_defines(entries@, k, found@[k] as int),
            forall|k: Seq<char>| #[trigger]
                found@.contains_key(k) == names_defined(entries@, i as int).contains(k),
        decreases entries@.len() - i,
    {
        let ghost before = found@;
        if let Some(name) = name_of(&entries[i]) {
            if !found.contains_key(name.as_str()) {
                proof {
                    assert forall|j: int| 0 <= j < i implies defined_name(
                        #[trigger] entries@[j],
                    ) != Some(name@) by {
                        if defined_name(entries@[j]) == Some(name@) {
                            assert(names_defined(entries@, i as int).contains(name@));
                        }
                    }
                }
                found.insert(name.clone(), i);
            }
        }
        proof {
            assert forall|k: Seq<char>| #[trigger] found@.contains_key(k) == names_defined(
                entries@,
                i + 1,
            ).contains(k) by {
                assert(before.contains_key(k) == names_defined(entries@, i as int).contains(k));
                if names_defined(entries@, i as int).contains(k) {
                    let j = choose|j: int|
                        0 <= j < i && j < entries@.len() && defined_name(#[trigger] entries@[j])
                            == Some(k);
                    assert(defined_name(entries@[j]) == Some(k));
                }
                if defined_name(entries@[i as int]) == Some(k) {
                    assert(names_defined(entries@, i + 1).contains(k));
                }
            }
        }
        i += 1;
    }
    let n = found.len();
    let mut out: Vec<Listed> = Vec::new();
    proof {
        table::lemma_names_of(found.list());
        assert(found@.dom() =~= names_defined(entries@, entries@.len() as int));
    }
    let mut k: usize = 0;
    while k < n
        invariant
            k <= n,
            n == found.list().len(),
            out@.len() == k,
            forall|key: Seq<char>| #[trigger]
                found@.contains_key(key) ==> first_defines(entries@, key, found@[key] as int),
            forall|j: int|
                0 <= j < k ==> {
                    &&& (#[trigger] out@[j]).name@ == found.list()[j].0@
                    &&& first_defines(entries@, out@[j].name@, out@[j].entry as int)
                    &&& out@[j].in_dir == is_skill_dir(entries@[out@[j].entry as int])
                },
        decreases n - k,
    {
        let name = found.key_at(k);
        let entry = *found.value_at(k);
        assert(first_defines(entries@, name@, entry as int));
        let in_dir = entries[entry].is_dir && entries[entry].holds_skill;
        out.push(Listed { name: name.clone(), entry, in_dir });
        k += 1;
    }
    assert(listed_names(out@) =~= table::names_of(found.list()));
    out
}

// --- loading ---

/// the complaint about a definition that is nowhere.
pub open spec fn missing_text(kind: Kind, shared: Seq<char>, name: Seq<char>) -> Seq<char> {
    match kind {
        Kind::Agent => "agent '"@ + name + "' not found in .opencode/, "@ + shared
            + "/, or .agents/ directories"@,
        Kind::Skill => "skill '"@ + name + "' not found in .opencode/, "@ + shared
            + "/, .agents/, or .pi/agent/ directories"@,
    }
}

/// the complaint about a definition that cannot be parsed.
pub open spec fn invalid_text(
    kind: Kind,
    name: Seq<char>,
    path: Seq<char>,
    error: Seq<char>,
) -> Seq<char> {
    match kind {
        Kind::Agent => "agent '"@ + name + "' ("@ + path + "): "@ + error,
        Kind::Skill => "skill '"@ + name + "' ("@ + path + "): "@ + error,
    }
}

/// a file that was found: its path as it is shown, and what reading it gave.
#[derive(Debug)]
pub struct FoundFile {
    pub path: String,
    pub content: Result<String, String>,
}

/// what loading a definition gives, where `f` is what parsing its frontmatter
/// gives.
pub open spec fn loaded_as<T>(
    kind: Kind,
    name: Seq<char>,
    path: Seq<char>,
    body: Seq<char>,
    f: Result<T, String>,
    r: Result<ParsedDoc<T>, String>,
) -> bool {
    match f {
        Ok(t) => r is Ok && r->Ok_0.frontmatter == t && r->Ok_0.body@ == body,
        Err(e) => r is Err && r->Err_0@ == invalid_text(kind, name, path, e@),
    }
}

/// the definition of a name in the file that the search found, if any.
fn load_definition<T: Default, F: Fn(&str) -> Result<T, String>>(
    kind: Kind,
    shared: &str,
    name: &str,
    found: Option<FoundFile>,
    parse: F,
) -> (r: Result<ParsedDoc<T>, String>)
    requires
        forall|s: &str| #[trigger] call_requires(parse, (s,)),
        call_requires(T::default, ()),
    ensures
        match found {
            None => r is Err && r->Err_0@ == missing_text(kind, shared@, name@),
            Some(file) => match file.content {
                Err(e) => r is Err && r->Err_0@ == e@,
                Ok(content) => match sections(content@) {
                    Some((head, body)) => exists|s: &str, f: Result<T, String>|
                        {
                            &&& s@ == head
                            &&& #[trigger] call_ensures(parse, (s,), f)
                            &&& loaded_as(kind, name@, file.path@, body, f, r)
                        },
                    None => r is Ok && r->Ok_0.body@ == content@ && call_ensures(
                        T::default,
                        (),
                        r->Ok_0.frontmatter,
                    ),
                },
            },
        },
{
    let (label, tail) = match kind {
        Kind::Agent => ("agent '", "/, or .agents/ directories"),
        Kind::Skill => ("skill '", "/, .agents/, or .pi/agent/ directories"),
    };
    match found {
        None => {
            let head = text::concat3(label, name, "' not found in .opencode/, ");
            let m = text::concat3(head.as_str(), shared, tail);
            assert(m@ =~= missing_text(kind, shared@, name@));
            Err(m)
        },
        Some(file) => match file.content {
            Err(e) => Err(e),
            Ok(content) => match parse_markdown_with_frontmatter(content.as_str(), parse) {
                Ok(doc) => Ok(doc),
                Err(e) => {
                    let head = text::concat3(label, name, "' (");
                    let rest = text::concat3(file.path.as_str(), "): ", e.as_str());
                    let m = text::concat2(head.as_str(), rest.as_str());
                    assert(m@ =~= invalid_text(kind, name@, file.path@, e@));
                    Err(m)
                },
            },
        },
    }
}

/// loads an agent from the file that the search for its name found, if any. its
/// frontmatter is read by `parse`.
pub fn load_agent<F: Fn(&str) -> Result<AgentFrontmatter, String>>(
    shared: &str,
    agent_name: &str,
    found: Option<FoundFile>,
    parse: F,
) -> (r: Result<ParsedDoc<AgentFrontmatter>, String>)
    requires
        forall|s: &str| #[trigger] call_requires(parse, (s,)),
    ensures
        match found {
            None => r is Err && r->Err_0@ == missing_text(Kind::Agent, shared@, agent_name@),
            Some(file) => match file.content {
                Err(e) => r is Err && r->Err_0@ == e@,
                Ok(content) => match sections(content@) {
                    Some((head, body)) => exists|s: &str, f: Result<AgentFrontmatter, String>|
                        {
                            &&& s@ == head
                            &&& #[trigger] call_ensures(parse, (s,), f)
                            &&& loaded_as(Kind::Agent, agent_name@, file.path@, body, f, r)
                        },
                    None => r is Ok && r->Ok_0.body@ == content@ && call_ensures(
                        AgentFrontmatter::default,
                        (),
                        r->Ok_0.frontmatter,
                    ),
                },
            },
        },
{
    load_definition(Kind::Agent, shared, agent_name, found, parse)
}

/// loads a skill from the file that the search for its name found, if any. its
/// frontmatter is read by `parse`.
pub fn load_skill<F: Fn(&str) -> Result<SkillFrontmatter, String>>(
    shared: &str,
    skill_name: &str,
    found: Option<FoundFile>,
    parse: F,
) -> (r: Result<ParsedDoc<SkillFrontmatter>, String>)
    requires
        forall|s: &str| #[trigger] call_requires(parse, (s,)),
    ensures
        match found {
            None => r is Err && r->Err_0@ == missing_text(Kind::Skill, shared@, skill_name@),
            Some(file) => match file.content {
                Err(e) => r is Err && r->Err_0@ == e@,
                Ok(content) => match sections(content@) {
                    Some((head, body)) => exists|s: &str, f: Result<SkillFrontmatter, String>|
                        {
                            &&& s@ == head
                            &&& #[trigger] call_ensures(parse, (s,), f)
                            &&& loaded_as(Kind::Skill, skill_name@, file.path@, body, f, r)
                        },
                    None => r is Ok && r->Ok_0.body@ == content@ && call_ensures(
                        SkillFrontmatter::default,
                        (),
                        r->Ok_0.frontmatter,
                    ),
                },
            },
        },
{
    load_definition(Kind::Skill, shared, skill_name, found, parse)
}

// --- system prompts ---

/// the skills among the named ones that are enabled, in their order.
pub open spec fn allowed_skills(names: Seq<String>, gates: Map<Seq<char>, bool>) -> Seq<Seq<char>>
    decreases names.len(),
{
    if names.len() == 0 {
        Seq::empty()
    } else {
        let rest = allowed_skills(names.drop_last(), gates);
        if config::enabled(gates, names.last()@) {
            rest.push(names.last()@)
        } else {
            rest
        }
    }
}

/// the warnings about the named skills that are not enabled.
pub open spec fn disabled_warnings(names: Seq<String>, gates: Map<Seq<char>, bool>) -> Seq<
    Seq<char>,
>
    decreases names.len(),
{
    if names.len() == 0 {
        Seq::empty()
    } else {
        let rest = disabled_warnings(names.drop_last(), gates);
        if config::enabled(gates, names.last()@) {
            rest
        } else {
            rest.push("warning: skill '"@ + names.last()@ + "' disabled by config"@)
        }
    }
}

/// what loading a skill gives.
pub type SkillResult = Result<ParsedDoc<SkillFrontmatter>, String>;

/// `result` is what `load` gives for the name.
pub open spec fn gives<F: Fn(&str) -> SkillResult>(
    load: F,
    name: Seq<char>,
    result: SkillResult,
) -> bool {
    exists|s: &str| s@ == name && #[trigger] call_ensures(load, (s,), result)
}

/// `results` are what `load` gives for the names, one by one.
pub open spec fn loaded_by<F: Fn(&str) -> SkillResult>(
    load: F,
    names: Seq<Seq<char>>,
    results: Seq<SkillResult>,
) -> bool {
    &&& results.len() == names.len()
    &&& forall|i: int| 0 <= i < names.len() ==> gives(load, #[trigger] names[i], results[i])
}

/// the section of a skill in the system prompt.
pub open spec fn skill_section(name: Seq<char>, doc: ParsedDoc<SkillFrontmatter>) -> Seq<char> {
    "\n## "@ + name + "\n"@ + match doc.frontmatter.description {
        Some(d) => "description: "@ + d@ + "\n"@,
        None => Seq::empty(),
    } + doc.body@ + "\n"@
}

/// the sections of the skills that could be loaded.
pub open spec fn skill_sections(names: Seq<Seq<char>>, results: Seq<SkillResult>) -> Seq<char>
    decreases names.len(),
{
    if names.len() == 0 {
        Seq::empty()
    } else {
        skill_sections(names.drop_last(), results) + match results[names.len() - 1] {
            Ok(doc) => skill_section(names.last(), doc),
            Err(_) => Seq::empty(),
        }
    }
}

/// the warnings about the skills that could not be loaded.
pub open spec fn failure_warnings(names: Seq<Seq<char>>, results: Seq<SkillResult>) -> Seq<
    Seq<char>,
>
    decreases names.len(),
{
    if names.len() == 0 {
        Seq::empty()
    } else {
        let rest = failure_warnings(names.drop_last(), results);
        match results[names.len() - 1] {
            Ok(_) => rest,
            Err(e) => rest.push(
                "warning: failed to load skill '"@ + names.last() + "': "@ + e@,
            ),
        }
    }
}

/// a system prompt with the skills behind it, if there are any.
pub open spec fn with_skills(
    prompt: Seq<char>,
    names: Seq<Seq<char>>,
    results: Seq<SkillResult>,
) -> Seq<char> {
    if names.len() == 0 {
        prompt
    } else {
        prompt + "\n\n# skills\n"@ + skill_sections(names, results)
    }
}

/// `after` is the prompt `before` with the enabled ones of the skills behind it,
/// as `load` gives them, and `warnings` are about those that are not.
pub open spec fn skills_appended<F: Fn(&str) -> SkillResult>(
    load: F,
    skills: Seq<String>,
    gates: Map<Seq<char>, bool>,
    before: Seq<char>,
    after: Seq<char>,
    warnings: Seq<Seq<char>>,
) -> bool {
    exists|results: Seq<SkillResult>|
        {
            &&& #[trigger] loaded_by(load, allowed_skills(skills, gates), results)
            &&& after == with_skills(before, allowed_skills(skills, gates), results)
            &&& warnings == disabled_warnings(skills, gates) + failure_warnings(
                allowed_skills(skills, gates),
                results,
            )
        }
}

/// the skills among the named ones that are enabled, and the warnings about the
/// others.
fn select_skills(names: &Vec<String>, config: &SkillsConfig) -> (r: (Vec<String>, Vec<String>))
    ensures
        text::texts(r.0@) == allowed_skills(names@, config@),
        text::texts(r.1@) == disabled_warnings(names@, config@),
{
    let mut allowed: Vec<String> = Vec::new();
    let mut warnings: Vec<String> = Vec::new();
    let mut i: usize = 0;
    assert(names@.take(0) =~= Seq::empty());
    assert(text::texts(allowed@) =~= Seq::empty());
    assert(text::texts(warnings@) =~= Seq::empty());
    while i < names.len()
        invariant
            i <= names@.len(),
            text::texts(allowed@) == allowed_skills(names@.take(i as int), config@),
            text::texts(warnings@) == disabled_warnings(names@.take(i as int), config@),
        decreases names@.len() - i,
    {
        assert(names@.take(i + 1).drop_last() =~= names@.take(i as int));
        let name = &names[i];
        if config.is_active(name.as_str()) {
            let ghost before = allowed@;
            allowed.push(name.clone());
            assert(text::texts(allowed@) =~= text::texts(before).push(name@));
        } else {
            let ghost before = warnings@;
            let w = text::concat3("warning: skill '", name.as_str(), "' disabled by config");
            warnings.push(w);
            assert(text::texts(warnings@) =~= text::texts(before).push(w@));
        }
        i += 1;
    }
    assert(names@.take(names@.len() as int) =~= names@);
    (allowed, warnings)
}

/// the section of a skill in the system prompt.
fn section_of(name: &str, doc: &ParsedDoc<SkillFrontmatter>) -> (r: String)
    ensures
        r@ == skill_section(name@, *doc),
{
    let mut s = text::concat3("\n## ", name, "\n");
    if let Some(d) = &doc.frontmatter.description {
        let line = text::concat3("description: ", d.as_str(), "\n");
        s.append(line.as_str());
    }
    s.append(doc.body.as_str());
    s.append("\n");
    assert(s@ =~= skill_section(name@, *doc));
    s
}

/// appends skill contents to a system prompt. skills not enabled by `config` are
/// skipped, and so are those that `load` cannot load; the warnings about them
/// are handed out.
pub fn append_skills<F: Fn(&str) -> SkillResult>(
    system_prompt: &mut String,
    skill_names: &Vec<String>,
    config: &SkillsConfig,
    load: F,
) -> (r: Vec<String>)
    requires
        forall|s: &str| #[trigger] call_requires(load, (s,)),
    ensures
        skills_appended(
            load,
            skill_names@,
            config@,
            old(system_prompt)@,
            final(system_prompt)@,
            text::texts(r@),
        ),
{
    let (allowed, warnings) = select_skills(skill_names, config);
    let ghost names = text::texts(allowed@);
    let ghost disabled = text::texts(warnings@);
    let ghost start = system_prompt@;
    let mut warnings = warnings;
    let ghost mut results: Seq<SkillResult> = Seq::empty();
    if allowed.len() == 0 {
        proof {
            assert(loaded_by(load, names, results));
            assert(disabled =~= disabled + failure_warnings(names, results));
        }
        return warnings;
    }
    system_prompt.append("\n\n# skills\n");
    let mut i: usize = 0;
    assert(names.take(0) =~= Seq::empty());
    assert(start + "\n\n# skills\n"@ + skill_sections(names.take(0), results) =~= start
        + "\n\n# skills\n"@);
    assert(disabled + failure_warnings(names.take(0), results) =~= disabled);
    while i < allowed.len()
        invariant
            i <= allowed@.len(),
            names == text::texts(allowed@),
            forall|s: &str| #[trigger] call_requires(load, (s,)),
            loaded_by(load, names.take(i as int), results),
            system_prompt@ == start + "\n\n# skills\n"@ + skill_sections(
                names.take(i as int),
                results,
            ),
            text::texts(warnings@) == disabled + failure_warnings(names.take(i as int), results),
        decreases allowed@.len() - i,
    {
        let name = &allowed[i];
        let ghost before = results;
        let ghost shorter = names.take(i as int);
        let shown = name.as_str();
        let result = load(shown);
        proof {
            results = results.push(result);
            let longer = names.take(i + 1);
            assert(longer.drop_last() =~= shorter);
            lemma_prefix_of_results(shorter, before, results);
            assert(gives(load, name@, result));
            assert forall|j: int| 0 <= j < longer.len() implies gives(
                load,
                #[trigger] longer[j],
                results[j],
            ) by {
                if j < i {
                    assert(gives(load, shorter[j], before[j]));
                }
            }
        }
        match &result {
            Ok(doc) => {
                let section = section_of(name.as_str(), doc);
                system_prompt.append(section.as_str());
            },
            Err(e) => {
                let head = text::concat3("warning: failed to load skill '", name.as_str(), "': ");
                let w = text::concat2(head.as_str(), e.as_str());
                let ghost list = warnings@;
                warnings.push(w);
                assert(text::texts(warnings@) =~= text::texts(list).push(w@));
            },
        }
        proof {
            let longer = names.take(i + 1);
            assert(system_prompt@ =~= start + "\n\n# skills\n"@ + skill_sections(longer, results));
            assert(text::texts(warnings@) =~= disabled + failure_warnings(longer, results));
        }
        i += 1;
    }
    assert(names.take(allowed@.len() as int) =~= names);
    warnings
}

/// what the first results say does not depend on later ones.
proof fn lemma_prefix_of_results(
    names: Seq<Seq<char>>,
    a: Seq<SkillResult>,
    b: Seq<SkillResult>,
)
    requires
        names.len() <= a.len(),
        names.len() <= b.len(),
        forall|i: int| 0 <= i < names.len() ==> a[i] == b[i],
    ensures
        skill_sections(names, a) == skill_sections(names, b),
        failure_warnings(names, a) == failure_warnings(names, b),
    decreases names.len(),
{
    if names.len() > 0 {
        lemma_prefix_of_results(names.drop_last(), a, b);
    }
}

/// the system prompt of an agent: its body, and the skills that it names. the
/// warnings about skills that are missing from it are handed out.
pub fn build_system_prompt<F: Fn(&str) -> SkillResult>(
    agent: &ParsedDoc<AgentFrontmatter>,
    skills_config: &SkillsConfig,
    load: F,
) -> (r: (String, Vec<String>))
    requires
        forall|s: &str| #[trigger] call_requires(load, (s,)),
    ensures
        match agent.frontmatter.skills {
            None => r.0@ == agent.body@ && r.1@.len() == 0,
            Some(skills) => skills_appended(
                load,
                skills@,
                skills_config@,
                agent.body@,
                r.0@,
                text::texts(r.1@),
            ),
        },
{
    let mut system_prompt = agent.body.clone();
    match &agent.frontmatter.skills {
        Some(skills) => {
            let warnings = append_skills(&mut system_prompt, skills, skills_config, load);
            (system_prompt, warnings)
        },
        None => (system_prompt, Vec::new()),
    }
}

// --- laws ---

/// a document that was put together from a frontmatter and a body falls apart
/// into the same two, where no line of the frontmatter begins with three
/// hyphens.
pub proof fn law_document_parts(head: Seq<char>, body: Seq<char>)
    requires
        forall|j: int|
            0 <= j < head.len() ==> !text::occurs(
                head + seq!['\n', '-', '-', '-'],
                seq!['\n', '-', '-', '-'],
                j,
            ),
    ensures
        sections(
            seq!['-', '-', '-', '\n'] + head + seq!['\n', '-', '-', '-', '\n'] + body,
        ) == Some((head, body)),
{
    let fence = seq!['-', '-', '-', '\n'];
    let pat = seq!['\n', '-', '-', '-'];
    let close = seq!['\n', '-', '-', '-', '\n'];
    let n = head.len() as int;
    let content = fence + head + close + body;
    assert(content.subrange(0, 4) =~= fence);
    assert(fence.is_prefix_of(content));
    let rest = content.skip(4);
    assert(rest =~= head + close + body);
    assert(rest.subrange(n, n + 4) =~= pat);
    assert forall|j: int| 0 <= j < head.len() implies !text::occurs(rest, pat, j) by {
        assert(rest.subrange(j, j + 4) =~= (head + pat).subrange(j, j + 4));
        assert(!text::occurs(head + pat, pat, j));
    }
    assert(text::first_occurrence(rest, pat, n));
    text::lemma_find(rest, pat, n);
    assert(content.subrange(4, 4 + n) =~= head);
    let tail = content.skip(4 + n + 4);
    assert(tail =~= seq!['\n'] + body);
    assert(tail.skip(1) =~= body);
}

/// a document that does not open with a fence is all body.
pub proof fn law_plain_document(content: Seq<char>)
    requires
        !opens_with_fence(content),
    ensures
        sections(content) is None,
{
}

/// the walk up visits the levels below the first one that holds `.git`, that one,
/// and none above it.
pub proof fn law_walk_stops_at_git(git: Seq<bool>)
    ensures
        levels_visited(git) <= git.len(),
        forall|i: int| 0 <= i < levels_visited(git) - 1 ==> !git[i],
        levels_visited(git) < git.len() ==> git[levels_visited(git) - 1],
    decreases git.len(),
{
    if git.len() > 0 && !git[0] {
        let rest = git.drop_first();
        law_walk_stops_at_git(rest);
        assert forall|i: int| 0 <= i < levels_visited(git) - 1 implies !git[i] by {
            if i > 0 {
                assert(rest[i - 1] == git[i]);
            }
        }
    }
}

/// the places below the ancestors come nearest first, and each has its ancestor
/// among the first `n`.
proof fn lemma_below_ancestors(n: nat, paths: Seq<Seq<char>>)
    requires
        n <= usize::MAX,
    ensures
        forall|i: int|
            0 <= i < below_ancestors(n, paths).len() ==> {
                &&& (#[trigger] below_ancestors(n, paths)[i]).anchor is Ancestor
                &&& below_ancestors(n, paths)[i].anchor->Ancestor_0 < n
            },
        forall|i: int, j: int|
            0 <= i < j < below_ancestors(n, paths).len() ==> (#[trigger] below_ancestors(
                n,
                paths,
            )[i]).anchor->Ancestor_0 <= (#[trigger] below_ancestors(
                n,
                paths,
            )[j]).anchor->Ancestor_0,
    decreases n,
{
    if n > 0 {
        let m = (n - 1) as nat;
        lemma_below_ancestors(m, paths);
        let a = below_ancestors(m, paths);
        let s = below_ancestors(n, paths);
        assert forall|i: int| 0 <= i < s.len() implies {
            &&& (#[trigger] s[i]).anchor is Ancestor
            &&& s[i].anchor->Ancestor_0 < n
        } by {
            if i < a.len() {
                assert(s[i] == a[i]);
            }
        }
        assert forall|i: int, j: int| 0 <= i < j < s.len() implies (#[trigger] s[i]).anchor->Ancestor_0
            <= (#[trigger] s[j]).anchor->Ancestor_0 by {
            if i < a.len() {
                assert(s[i] == a[i]);
            }
            if j < a.len() {
                assert(s[j] == a[j]);
            }
        }
    }
}

/// what is found nearer is taken first: places come nearest level first, no
/// level above the git root is among them, and the global places come last.
pub proof fn law_nearest_first(
    git: Seq<bool>,
    home: bool,
    local: Seq<Seq<char>>,
    global: Seq<Seq<char>>,
    i: int,
    j: int,
)
    requires
        git.len() <= usize::MAX,
        0 <= i <= j < places(git, home, local, global).len(),
    ensures
        match (
            places(git, home, local, global)[i].anchor,
            places(git, home, local, global)[j].anchor,
        ) {
            (Anchor::Ancestor(a), Anchor::Ancestor(b)) => a <= b < levels_visited(git),
            (Anchor::Ancestor(a), Anchor::Home) => home && a < levels_visited(git),
            (Anchor::Home, Anchor::Home) => home,
            (Anchor::Home, Anchor::Ancestor(_)) => false,
        },
{
    law_walk_stops_at_git(git);
    let n = levels_visited(git);
    lemma_below_ancestors(n, local);
    let a = below_ancestors(n, local);
    let s = places(git, home, local, global);
    if i < a.len() {
        assert(s[i] == a[i]);
    }
    if j < a.len() {
        assert(s[j] == a[j]);
    }
}

/// a definition is looked for nearest level first, and a global one is used only
/// where no local one is found, whatever form the definitions have.
pub proof fn law_lookup_is_nearest_first(
    kind: Kind,
    shared: Seq<char>,
    name: Seq<char>,
    git: Seq<bool>,
    home: bool,
    i: int,
    j: int,
)
    requires
        git.len() <= usize::MAX,
        0 <= i <= j < lookup_places(kind, shared, name, git, home).len(),
    ensures
        match (
            lookup_places(kind, shared, name, git, home)[i].anchor,
            lookup_places(kind, shared, name, git, home)[j].anchor,
        ) {
            (Anchor::Ancestor(a), Anchor::Ancestor(b)) => a <= b < levels_visited(git),
            (Anchor::Ancestor(a), Anchor::Home) => home && a < levels_visited(git),
            (Anchor::Home, Anchor::Home) => home,
            (Anchor::Home, Anchor::Ancestor(_)) => false,
        },
{
    law_nearest_first(
        git,
        home,
        definition_files(kind, name, local_dirs(kind, shared) + flat_local_dirs(shared)),
        definition_files(kind, name, global_dirs(kind, shared) + flat_global_dirs(shared)),
        i,
        j,
    );
}

/// the prompt that skills are appended to stays as it is in front of them.
pub proof fn law_prompt_is_kept(
    prompt: Seq<char>,
    names: Seq<Seq<char>>,
    results: Seq<SkillResult>,
)
    ensures
        prompt.is_prefix_of(with_skills(prompt, names, results)),
{
    if names.len() > 0 {
        assert(with_skills(prompt, names, results).subrange(0, prompt.len() as int) =~= prompt);
    }
}

/// where none of the skills is enabled, the prompt stays as it is.
pub proof fn law_disabled_skills_are_left_out(
    names: Seq<String>,
    gates: Map<Seq<char>, bool>,
    prompt: Seq<char>,
    results: Seq<SkillResult>,
)
    requires
        forall|i: int| 0 <= i < names.len() ==> !config::enabled(gates, (#[trigger] names[i])@),
    ensures
        with_skills(prompt, allowed_skills(names, gates), results) == prompt,
    decreases names.len(),
{
    if names.len() > 0 {
        let rest = names.drop_last();
        assert forall|i: int| 0 <= i < rest.len() implies !config::enabled(
            gates,
            (#[trigger] rest[i])@,
        ) by {
            assert(rest[i] == names[i]);
        }
        law_disabled_skills_are_left_out(rest, gates, prompt, results);
        assert(!config::enabled(gates, names[names.len() - 1]@));
        if allowed_skills(rest, gates).len() > 0 {
            let k = with_skills(prompt, allowed_skills(rest, gates), results);
            reveal_strlit("\n\n# skills\n");
            assert(k.len() > prompt.len());
        }
    }
}

/// a document with carriage returns at its fences falls apart likewise; the line
/// feed of its opening fence stays in front of its frontmatter.
pub proof fn law_document_with_returns(head: Seq<char>, body: Seq<char>)
    requires
        forall|j: int|
            0 <= j < head.len() ==> !text::occurs(
                head + seq!['\n', '-', '-', '-'],
                seq!['\n', '-', '-', '-'],
                j,
            ),
        !seq!['-', '-', '-'].is_prefix_of(head),
    ensures
        sections(
            seq!['-', '-', '-', '\r', '\n'] + head + seq!['\n', '-', '-', '-', '\r', '\n'] + body,
        ) == Some((seq!['\n'] + head, body)),
{
    let fence = seq!['-', '-', '-', '\r', '\n'];
    let pat = seq!['\n', '-', '-', '-'];
    let close = seq!['\n', '-', '-', '-', '\r', '\n'];
    let first = seq!['\n'] + head;
    let n = first.len() as int;
    let content = fence + head + close + body;
    assert(content.subrange(0, 5) =~= fence);
    assert(fence.is_prefix_of(content));
    let rest = content.skip(4);
    assert(rest =~= first + close + body);
    assert(rest.subrange(n, n + 4) =~= pat);
    assert forall|j: int| 0 <= j < n implies !text::occurs(rest, pat, j) by {
        if j > 0 {
            assert(rest.subrange(j, j + 4) =~= (head + pat).subrange(j - 1, j + 3));
            assert(!text::occurs(head + pat, pat, j - 1));
        } else if text::occurs(rest, pat, 0) {
            let a = rest.subrange(0, 4);
            assert(a[1] == '-' && a[2] == '-' && a[3] == '-');
            if head.len() >= 3 {
                assert(head[0] == rest[1] && head[1] == rest[2] && head[2] == rest[3]);
                assert(head.subrange(0, 3) =~= seq!['-', '-', '-']);
            } else {
                assert(rest[1 + head.len() as int] == '\n');
            }
        }
    }
    assert(text::first_occurrence(rest, pat, n));
    text::lemma_find(rest, pat, n);
    assert(content.subrange(4, 4 + n) =~= first);
    let tail = content.skip(4 + n + 4);
    assert(tail =~= seq!['\r', '\n'] + body);
    assert(tail.skip(2) =~= body);
}

/// a document whose fence is not closed is all body.
pub proof fn law_unclosed_document(content: Seq<char>)
    requires
        forall|j: int|
            4 <= j <= content.len() - 4 ==> #[trigger] content.subrange(j, j + 4) != seq![
                '\n',
                '-',
                '-',
                '-',
            ],
    ensures
        sections(content) is None,
{
    let pat = seq!['\n', '-', '-', '-'];
    if opens_with_fence(content) {
        if seq!['-', '-', '-', '\n'].is_prefix_of(content) {
            assert(content.len() >= 4);
        }
        let rest = content.skip(4);
        text::law_find(rest, pat);
        match text::find(rest, pat) {
            Some(i) => {
                assert(rest.subrange(i, i + 4) =~= content.subrange(4 + i, 4 + i + 4));
            },
            None => {},
        }
    }
}

/// the parts of a document stand in it, in order: nothing of the body is lost but the
/// line ending of the fence.
pub proof fn law_sections_are_parts(content: Seq<char>)
    requires
        sections(content) is Some,
    ensures
        ({
            let (head, body) = sections(content)->0;
            &&& 8 + head.len() <= content.len()
            &&& content.subrange(4, 4 + head.len() as int) == head
            &&& body.len() <= content.len()
            &&& content.skip(content.len() - body.len()) == body
            &&& content.len() - body.len() <= 4 + head.len() + 6
        }),
{
    let rest = content.skip(4);
    let pat = seq!['\n', '-', '-', '-'];
    text::law_find(rest, pat);
    let (head, body) = sections(content)->0;
    let i = text::find(rest, pat)->0;
    assert(head.len() == i);
    let tail = content.skip(4 + i + 4);
    assert(content.skip(content.len() - body.len()) =~= body);
}

/// the places are the local paths at each visited level, nearest level first and in
/// their order at each, and then the global paths, where there is a home directory.
pub proof fn law_places(
    git: Seq<bool>,
    home: bool,
    local: Seq<Seq<char>>,
    global: Seq<Seq<char>>,
    level: nat,
    i: int,
)
    requires
        git.len() <= usize::MAX,
    ensures
        places(git, home, local, global).len() == levels_visited(git) * local.len() + if home {
            global.len()
        } else {
            0
        },
        level < levels_visited(git) && 0 <= i < local.len() ==> 0 <= level * local.len() + i
            < places(git, home, local, global).len() && places(git, home, local, global)[level
            * local.len() + i] == (PlaceModel {
            anchor: Anchor::Ancestor(level as usize),
            path: local[i],
        }),
        home && 0 <= i < global.len() ==> places(git, home, local, global)[levels_visited(git)
            * local.len() + i] == (PlaceModel { anchor: Anchor::Home, path: global[i] }),
{
    law_walk_stops_at_git(git);
    let n = levels_visited(git);
    lemma_levels(n, local, level, i);
    let a = below_ancestors(n, local);
    let s = places(git, home, local, global);
    assert(a.len() == n * local.len());
    if level < n && 0 <= i < local.len() {
        assert(s[level * local.len() + i] == a[level * local.len() + i]);
    }
    if home && 0 <= i < global.len() {
        assert(s[a.len() + i] == below(Anchor::Home, global)[i]);
    }
}

/// the local paths at each level.
proof fn lemma_levels(n: nat, paths: Seq<Seq<char>>, level: nat, i: int)
    requires
        n <= usize::MAX,
    ensures
        below_ancestors(n, paths).len() == n * paths.len(),
        level < n && 0 <= i < paths.len() ==> 0 <= level * paths.len() + i < n * paths.len()
            && below_ancestors(n, paths)[level * paths.len() + i] == (PlaceModel {
            anchor: Anchor::Ancestor(level as usize),
            path: paths[i],
        }),
    decreases n,
{
    let w = paths.len();
    if n == 0 {
        assert(0 * w == 0) by (nonlinear_arith);
    } else {
        let m = (n - 1) as nat;
        lemma_levels(m, paths, level, i);
        assert(n * w == m * w + w) by (nonlinear_arith)
            requires
                n == m + 1,
        ;
        let a = below_ancestors(m, paths);
        let s = below_ancestors(n, paths);
        if level < n && 0 <= i < w {
            assert(0 <= level * w) by (nonlinear_arith);
            if level < m {
                assert(s[level * w + i] == a[level * w + i]);
            } else {
                assert(level == m);
                assert(s[level * w + i] == below(Anchor::Ancestor(m as usize), paths)[i]);
            }
        }
    }
}

/// agents are kept in three directories and skills in four, at each level and below
/// the home directory, where the first one is that of the configuration.
pub proof fn law_definition_directories(shared: Seq<char>)
    ensures
        local_dirs(Kind::Agent, shared) =~= seq![
            ".opencode/agents"@,
            shared + "/agents"@,
            ".agents/agents"@,
        ],
        global_dirs(Kind::Agent, shared) =~= local_dirs(Kind::Agent, shared).update(
            0,
            ".config/opencode/agents"@,
        ),
        local_dirs(Kind::Skill, shared) =~= seq![
            ".opencode/skills"@,
            shared + "/skills"@,
            ".agents/skills"@,
            ".pi/agent/skills"@,
        ],
        global_dirs(Kind::Skill, shared) =~= local_dirs(Kind::Skill, shared).update(
            0,
            ".config/opencode/skills"@,
        ),
        flat_local_dirs(shared) =~= seq![".opencode"@, shared, ".agents"@],
        flat_global_dirs(shared) =~= flat_local_dirs(shared).update(0, ".config/opencode"@),
{
}

/// an agent is looked for as a markdown file of its name in each directory, in their
/// order; a skill first as a directory of its name with a `SKILL.md` in each of them,
/// and then as a markdown file.
pub proof fn law_definition_files(name: Seq<char>, dirs: Seq<Seq<char>>, i: int)
    requires
        0 <= i < dirs.len(),
    ensures
        definition_files(Kind::Agent, name, dirs).len() == dirs.len(),
        definition_files(Kind::Agent, name, dirs)[i] == text::path_join(dirs[i], name + ".md"@),
        definition_files(Kind::Skill, name, dirs).len() == 2 * dirs.len(),
        definition_files(Kind::Skill, name, dirs)[i] == text::path_join(
            dirs[i],
            name + "/SKILL.md"@,
        ),
        definition_files(Kind::Skill, name, dirs)[dirs.len() + i] == text::path_join(
            dirs[i],
            name + ".md"@,
        ),
{
}

/// an agent is looked for at every visited level in the three directories of agents
/// and then in the three bases, and then likewise below the home directory.
pub proof fn law_agent_lookup(
    shared: Seq<char>,
    name: Seq<char>,
    git: Seq<bool>,
    home: bool,
    level: nat,
    i: int,
)
    requires
        git.len() <= usize::MAX,
        0 <= i < 6,
    ensures
        ({
            let found = lookup_places(Kind::Agent, shared, name, git, home);
            let dirs = seq![
                ".opencode/agents"@,
                shared + "/agents"@,
                ".agents/agents"@,
                ".opencode"@,
                shared,
                ".agents"@,
            ];
            let global = dirs.update(0, ".config/opencode/agents"@).update(3, ".config/opencode"@);
            &&& found.len() == levels_visited(git) * 6 + if home {
                6int
            } else {
                0
            }
            &&& level < levels_visited(git) ==> found[level * 6 + i] == PlaceModel {
                anchor: Anchor::Ancestor(level as usize),
                path: text::path_join(dirs[i], name + ".md"@),
            }
            &&& home ==> found[levels_visited(git) * 6 + i] == PlaceModel {
                anchor: Anchor::Home,
                path: text::path_join(global[i], name + ".md"@),
            }
        }),
{
    let a = local_dirs(Kind::Agent, shared) + flat_local_dirs(shared);
    let b = global_dirs(Kind::Agent, shared) + flat_global_dirs(shared);
    law_definition_files(name, a, i);
    law_definition_files(name, b, i);
    law_places(
        git,
        home,
        definition_files(Kind::Agent, name, a),
        definition_files(Kind::Agent, name, b),
        level,
        i,
    );
}

/// a skill is looked for at every visited level in the four directories of skills and
/// in the three bases, first as a directory and then as a file, and then likewise
/// below the home directory.
pub proof fn law_skill_lookup(
    shared: Seq<char>,
    name: Seq<char>,
    git: Seq<bool>,
    home: bool,
    level: nat,
    i: int,
)
    requires
        git.len() <= usize::MAX,
        0 <= i < 7,
    ensures
        ({
            let found = lookup_places(Kind::Skill, shared, name, git, home);
            let dirs = seq![
                ".opencode/skills"@,
                shared + "/skills"@,
                ".agents/skills"@,
                ".pi/agent/skills"@,
                ".opencode"@,
                shared,
                ".agents"@,
            ];
            let global = dirs.update(0, ".config/opencode/skills"@).update(4, ".config/opencode"@);
            &&& level < levels_visited(git) ==> found[level * 14 + i] == PlaceModel {
                anchor: Anchor::Ancestor(level as usize),
                path: text::path_join(dirs[i], name + "/SKILL.md"@),
            }
            &&& level < levels_visited(git) ==> found[level * 14 + (7 + i)] == PlaceModel {
                anchor: Anchor::Ancestor(level as usize),
                path: text::path_join(dirs[i], name + ".md"@),
            }
            &&& home ==> found[levels_visited(git) * 14 + i] == PlaceModel {
                anchor: Anchor::Home,
                path: text::path_join(global[i], name + "/SKILL.md"@),
            }
            &&& home ==> found[levels_visited(git) * 14 + (7 + i)] == PlaceModel {
                anchor: Anchor::Home,
                path: text::path_join(global[i], name + ".md"@),
            }
        }),
{
    let a = local_dirs(Kind::Skill, shared) + flat_local_dirs(shared);
    let b = global_dirs(Kind::Skill, shared) + flat_global_dirs(shared);
    let x = definition_files(Kind::Skill, name, a);
    let y = definition_files(Kind::Skill, name, b);
    law_definition_files(name, a, i);
    law_definition_files(name, b, i);
    law_places(git, home, x, y, level, i);
    law_places(git, home, x, y, level, 7 + i);
}

/// definitions are listed from the directories of their kind alone, at every visited
/// level and then below the home directory.
pub proof fn law_listing(
    shared: Seq<char>,
    git: Seq<bool>,
    home: bool,
    level: nat,
    i: int,
)
    requires
        git.len() <= usize::MAX,
        0 <= i < 3,
    ensures
        ({
            let agents = listing_places(Kind::Agent, shared, git, home);
            let skills = listing_places(Kind::Skill, shared, git, home);
            let a = seq![".opencode/agents"@, shared + "/agents"@, ".agents/agents"@];
            let s = seq![".opencode/skills"@, shared + "/skills"@, ".agents/skills"@];
            &&& level < levels_visited(git) ==> agents[level * 3 + i] == PlaceModel {
                anchor: Anchor::Ancestor(level as usize),
                path: a[i],
            }
            &&& level < levels_visited(git) ==> skills[level * 4 + i] == PlaceModel {
                anchor: Anchor::Ancestor(level as usize),
                path: s[i],
            }
            &&& level < levels_visited(git) ==> skills[level * 4 + 3int] == PlaceModel {
                anchor: Anchor::Ancestor(level as usize),
                path: ".pi/agent/skills"@,
            }
            &&& home ==> agents[levels_visited(git) * 3 + i] == PlaceModel {
                anchor: Anchor::Home,
                path: a.update(0, ".config/opencode/agents"@)[i],
            }
            &&& home ==> skills[levels_visited(git) * 4 + i] == PlaceModel {
                anchor: Anchor::Home,
                path: s.update(0, ".config/opencode/skills"@)[i],
            }
        }),
{
    law_places(
        git,
        home,
        local_dirs(Kind::Agent, shared),
        global_dirs(Kind::Agent, shared),
        level,
        i,
    );
    law_places(
        git,
        home,
        local_dirs(Kind::Skill, shared),
        global_dirs(Kind::Skill, shared),
        level,
        i,
    );
    law_places(
        git,
        home,
        local_dirs(Kind::Skill, shared),
        global_dirs(Kind::Skill, shared),
        level,
        3,
    );
}

/// a markdown file defines what it is named but for `.md`, a directory with a
/// `SKILL.md` what it is named, and nothing else defines anything.
pub proof fn law_defined_names(e: DirEntry, name: Seq<char>)
    requires
        e.file_name is Some,
    ensures
        e.is_dir && e.holds_skill ==> defined_name(e) == Some(e.file_name->0@),
        !(e.is_dir && e.holds_skill) && name.len() > 0 && e.file_name->0@ == name + seq![
            '.',
            'm',
            'd',
        ] ==> defined_name(e) == Some(name),
        !(e.is_dir && e.holds_skill) && !seq!['.', 'm', 'd'].is_suffix_of(e.file_name->0@)
            ==> defined_name(e) is None,
{
    let md = seq!['.', 'm', 'd'];
    let f = e.file_name->0@;
    if f == name + md {
        assert(f.subrange(f.len() - 3, f.len() as int) =~= md);
        assert(f.take(f.len() - 3) =~= name);
    }
}

/// a name is listed iff some entry defines it.
pub proof fn law_listed_names(entries: Seq<DirEntry>, name: Seq<char>)
    ensures
        names_defined(entries, entries.len() as int).contains(name) <==> exists|i: int|
            0 <= i < entries.len() && defined_name(#[trigger] entries[i]) == Some(name),
{
}

/// what cannot be found or read is complained about by its name, and where it was
/// looked for.
pub proof fn law_definition_complaints(
    shared: Seq<char>,
    name: Seq<char>,
    path: Seq<char>,
    error: Seq<char>,
)
    ensures
        missing_text(Kind::Agent, shared, name) == "agent '"@ + name
            + "' not found in .opencode/, "@ + shared + "/, or .agents/ directories"@,
        missing_text(Kind::Skill, shared, name) == "skill '"@ + name
            + "' not found in .opencode/, "@ + shared
            + "/, .agents/, or .pi/agent/ directories"@,
        invalid_text(Kind::Agent, name, path, error) == "agent '"@ + name + "' ("@ + path + "): "@
            + error,
        invalid_text(Kind::Skill, name, path, error) == "skill '"@ + name + "' ("@ + path + "): "@
            + error,
{
}

/// a definition that parses has its frontmatter and its body, and one that does not
/// is an error.
pub proof fn law_loaded<T>(
    kind: Kind,
    name: Seq<char>,
    path: Seq<char>,
    body: Seq<char>,
    f: Result<T, String>,
    r: Result<ParsedDoc<T>, String>,
)
    requires
        loaded_as(kind, name, path, body, f, r),
    ensures
        f is Ok <==> r is Ok,
        f is Ok ==> r->Ok_0.frontmatter == f->Ok_0 && r->Ok_0.body@ == body,
{
}

/// the skills of a prompt go one by one, in order: one that is enabled is taken, and
/// one that is not is warned about.
pub proof fn law_skills_one_by_one(names: Seq<String>, name: String, gates: Map<Seq<char>, bool>)
    ensures
        allowed_skills(Seq::empty(), gates) == Seq::<Seq<char>>::empty(),
        disabled_warnings(Seq::empty(), gates) == Seq::<Seq<char>>::empty(),
        config::enabled(gates, name@) ==> allowed_skills(names.push(name), gates)
            == allowed_skills(names, gates).push(name@) && disabled_warnings(
            names.push(name),
            gates,
        ) == disabled_warnings(names, gates),
        !config::enabled(gates, name@) ==> allowed_skills(names.push(name), gates)
            == allowed_skills(names, gates) && disabled_warnings(names.push(name), gates)
            == disabled_warnings(names, gates).push(
            "warning: skill '"@ + name@ + "' disabled by config"@,
        ),
{
    assert(names.push(name).drop_last() =~= names);
}

/// the sections of skills come one behind the other; one that could not be loaded has
/// none, and is warned about.
pub proof fn law_skill_sections(
    names: Seq<Seq<char>>,
    results: Seq<SkillResult>,
    name: Seq<char>,
    doc: ParsedDoc<SkillFrontmatter>,
    e: String,
)
    requires
        names.len() == results.len(),
    ensures
        skill_sections(names.push(name), results.push(Ok(doc))) == skill_sections(names, results)
            + skill_section(name, doc),
        skill_sections(names.push(name), results.push(Err(e))) == skill_sections(names, results),
        failure_warnings(names.push(name), results.push(Ok(doc))) == failure_warnings(
            names,
            results,
        ),
        failure_warnings(names.push(name), results.push(Err(e))) == failure_warnings(
            names,
            results,
        ).push("warning: failed to load skill '"@ + name + "': "@ + e@),
{
    assert(names.push(name).drop_last() =~= names);
    lemma_prefix_of_results(names, results.push(Ok(doc)), results);
    lemma_prefix_of_results(names, results.push(Err(e)), results);
    assert(skill_sections(names, results) + Seq::<char>::empty() =~= skill_sections(
        names,
        results,
    ));
}

/// the section of a skill has its name as a heading, its description where it has
/// one, and its body.
pub proof fn law_skill_section(name: Seq<char>, doc: ParsedDoc<SkillFrontmatter>)
    ensures
        doc.frontmatter.description is None ==> skill_section(name, doc) == "\n## "@ + name + "\n"@
            + doc.body@ + "\n"@,
        doc.frontmatter.description is Some ==> skill_section(name, doc) == "\n## "@ + name
            + "\n"@ + "description: "@ + doc.frontmatter.description->0@ + "\n"@ + doc.body@
            + "\n"@,
{
    let s = skill_section(name, doc);
    match doc.frontmatter.description {
        None => {
            assert(s =~= "\n## "@ + name + "\n"@ + doc.body@ + "\n"@);
        },
        Some(d) => {
            assert(s =~= "\n## "@ + name + "\n"@ + "description: "@ + d@ + "\n"@ + doc.body@
                + "\n"@);
        },
    }
}

/// a prompt with skills is the prompt, a heading, and their sections.
pub proof fn law_prompt_with_skills(
    prompt: Seq<char>,
    names: Seq<Seq<char>>,
    results: Seq<SkillResult>,
)
    ensures
        names.len() == 0 ==> with_skills(prompt, names, results) == prompt,
        names.len() > 0 ==> with_skills(prompt, names, results) == prompt + "\n\n# skills\n"@
            + skill_sections(names, results),
{
}

/// the models of places tell what the values hold.
pub proof fn law_place_models(p: Place, list: Seq<Place>, i: int)
    ensures
        p@.anchor == p.anchor,
        p@.path == p.path@,
        place_models(list).len() == list.len(),
        0 <= i < list.len() ==> place_models(list)[i] == list[i]@,
{
}

/// each skill is loaded by its own name.
pub proof fn law_skills_are_loaded_by_name<F: Fn(&str) -> SkillResult>(
    load: F,
    names: Seq<Seq<char>>,
    results: Seq<SkillResult>,
    i: int,
)
    requires
        loaded_by(load, names, results),
        0 <= i < names.len(),
    ensures
        results.len() == names.len(),
        exists|s: &str| s@ == names[i] && #[trigger] call_ensures(load, (s,), results[i]),
{
    assert(gives(load, names[i], results[i]));
}

/// a prompt stays in front of the skills that are appended to it, and it stays as it
/// is, with a warning for each of them, where none is enabled.
pub proof fn law_appended_skills<F: Fn(&str) -> SkillResult>(
    load: F,
    skills: Seq<String>,
    gates: Map<Seq<char>, bool>,
    before: Seq<char>,
    after: Seq<char>,
    warnings: Seq<Seq<char>>,
)
    requires
        skills_appended(load, skills, gates, before, after, warnings),
    ensures
        before.is_prefix_of(after),
        (forall|i: int| 0 <= i < skills.len() ==> !config::enabled(gates, (#[trigger] skills[i])@))
            ==> after == before,
        warnings.len() >= disabled_warnings(skills, gates).len(),
        warnings.take(disabled_warnings(skills, gates).len() as int) == disabled_warnings(
            skills,
            gates,
        ),
{
    let names = allowed_skills(skills, gates);
    let results = choose|results: Seq<SkillResult>|
        {
            &&& #[trigger] loaded_by(load, names, results)
            &&& after == with_skills(before, names, results)
            &&& warnings == disabled_warnings(skills, gates) + failure_warnings(names, results)
        };
    law_prompt_is_kept(before, names, results);
    let d = disabled_warnings(skills, gates);
    assert(warnings.take(d.len() as int) =~= d);
    if forall|i: int|
        0 <= i < skills.len() ==> !config::enabled(gates, (#[trigger] skills[i])@) {
        law_disabled_skills_are_left_out(skills, gates, before, results);
    }
}

/// of several entries that define a name the first one counts.
pub proof fn law_first_definition_counts(
    entries: Seq<DirEntry>,
    name: Seq<char>,
    i: int,
    j: int,
)
    requires
        first_defines(entries, name, i),
    ensures
        0 <= i < entries.len(),
        defined_name(entries[i]) == Some(name),
        0 <= j < entries.len() && defined_name(entries[j]) == Some(name) ==> i <= j,
{
}

} // verus!
