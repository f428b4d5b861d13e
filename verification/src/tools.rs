//! the built-in `read` and `bash` tools: their definitions, their results, and
//! the course of a call through interception, permission, execution and
//! observation.

use crate::config;
use crate::config::ToolsConfig;
use crate::json;
use crate::json::{Json, Model};
use crate::permission;
use crate::permission::{ErrorModel, PermissionLevel, PermissionsConfig, Rule, ToolError};
use crate::text;
use vstd::prelude::*;

verus! {

/// the mutation a `before_tool` interception can request. `args` REWRITES the
/// tool's arguments (tool_input) and the effective args -- not the model's
/// original -- are what the permission gate then evaluates. when `deny` is set it
/// wins (the call is refused); a `result` substitutes a synthetic output.
#[derive(Debug)]
pub struct BeforeTool {
    pub deny: Option<String>,
    pub result: Option<String>,
    pub args: Option<Json>,
}

impl Default for BeforeTool {
    fn default() -> (r: Self)
        ensures
            r.deny is None,
            r.result is None,
            r.args is None,
    {
        BeforeTool { deny: None, result: None, args: None }
    }
}

/// the correlation id of the `n`th call of a process.
pub open spec fn call_id_text(pid: nat, n: nat) -> Seq<char> {
    "hrns-"@ + text::decimal(pid) + "-"@ + text::decimal(n)
}

/// the correlation id of the `n`th call of a process.
pub fn call_id(pid: u32, n: u64) -> (r: String)
    ensures
        r@ == call_id_text(pid as nat, n as nat),
{
    let pid = text::decimal_of(pid as u64);
    let n = text::decimal_of(n);
    let head = text::concat3("hrns-", pid.as_str(), "-");
    text::concat2(head.as_str(), n.as_str())
}

/// a path as the `read` tool resolves it: below the working directory, unless it
/// is absolute.
pub fn resolve_path(path: &str, cwd: &str) -> (r: String)
    ensures
        r@ == text::path_join(cwd@, path@),
{
    text::join_paths(cwd, path)
}

// --- the definitions ---

/// a tool as it is described to the model.
#[derive(Debug)]
pub struct ToolDefinition {
    pub name: String,
    pub description: String,
    pub parameters: Json,
}

/// what the definition of a tool stands for.
pub struct DefinitionModel {
    pub name: Seq<char>,
    pub description: Seq<char>,
    pub parameters: Model,
}

impl View for ToolDefinition {
    type V = DefinitionModel;

    open spec fn view(&self) -> DefinitionModel {
        DefinitionModel {
            name: self.name@,
            description: self.description@,
            parameters: self.parameters@,
        }
    }
}

/// an object that describes a parameter by its type.
pub open spec fn described(ty: Seq<char>, description: Seq<char>) -> Map<Seq<char>, Model> {
    Map::empty().insert("type"@, Model::Text(ty)).insert("description"@, Model::Text(description))
}

/// a schema of an object with the given properties, of which one is required.
pub open spec fn object_schema(properties: Map<Seq<char>, Model>, required: Seq<char>) -> Model {
    Model::Object(
        Map::empty().insert("type"@, Model::Text("object"@)).insert(
            "properties"@,
            Model::Object(properties),
        ).insert("required"@, Model::Array(seq![Model::Text(required)])),
    )
}

/// the definition of the `read` tool.
pub open spec fn read_definition() -> DefinitionModel {
    DefinitionModel {
        name: "read"@,
        description: "read the contents of a file"@,
        parameters: object_schema(
            Map::empty().insert(
                "path"@,
                Model::Object(
                    described("string"@, "absolute or relative path to the file to read"@),
                ),
            ).insert(
                "offset"@,
                Model::Object(
                    described(
                        "integer"@,
                        "0-indexed line number to start reading from (default: 0)"@,
                    ).insert("minimum"@, Model::Number(json::number_of(0))),
                ),
            ).insert(
                "count"@,
                Model::Object(
                    described(
                        "integer"@,
                        "number of lines to read (default: read to end)"@,
                    ).insert("minimum"@, Model::Number(json::number_of(1))),
                ),
            ),
            "path"@,
        ),
    }
}

/// the definition of the `bash` tool.
pub open spec fn bash_definition() -> DefinitionModel {
    DefinitionModel {
        name: "bash"@,
        description: "execute a bash command and return its output"@,
        parameters: object_schema(
            Map::empty().insert(
                "command"@,
                Model::Object(
                    described(
                        "string"@,
                        "the bash command to execute. must be simple: no pipes, redirects, chaining, or shell metacharacters"@,
                    ),
                ),
            ),
            "command"@,
        ),
    }
}

/// an object that describes a parameter by its type.
fn describe(ty: &str, description: &str) -> (r: crate::table::Table<Json>)
    ensures
        json::field_models(r@) == described(ty@, description@),
{
    let f = json::with(json::no_fields(), "type", Json::text(ty));
    json::with(f, "description", Json::text(description))
}

/// a schema of an object with the given properties, of which one is required.
fn schema_with(properties: crate::table::Table<Json>, required: &str) -> (r: Json)
    ensures
        r@ == object_schema(json::field_models(properties@), required@),
{
    let mut names: Vec<Json> = Vec::new();
    names.push(Json::text(required));
    proof {
        json::lemma_item_models(names@);
        assert(json::item_models(names@) =~= seq![Model::Text(required@)]);
    }
    let f = json::with(json::no_fields(), "type", Json::text("object"));
    let f = json::with(f, "properties", Json::object(properties));
    let f = json::with(f, "required", Json::array(names));
    Json::object(f)
}

pub fn read_tool_definition() -> (r: ToolDefinition)
    ensures
        r@ == read_definition(),
{
    let path = describe("string", "absolute or relative path to the file to read");
    let offset = describe("integer", "0-indexed line number to start reading from (default: 0)");
    let offset = json::with(offset, "minimum", Json::number(0));
    let count = describe("integer", "number of lines to read (default: read to end)");
    let count = json::with(count, "minimum", Json::number(1));
    let p = json::with(json::no_fields(), "path", Json::object(path));
    let p = json::with(p, "offset", Json::object(offset));
    let p = json::with(p, "count", Json::object(count));
    ToolDefinition {
        name: "read".to_owned(),
        description: "read the contents of a file".to_owned(),
        parameters: schema_with(p, "path"),
    }
}

pub fn bash_tool_definition() -> (r: ToolDefinition)
    ensures
        r@ == bash_definition(),
{
    let command = describe(
        "string",
        "the bash command to execute. must be simple: no pipes, redirects, chaining, or shell metacharacters",
    );
    let p = json::with(json::no_fields(), "command", Json::object(command));
    ToolDefinition {
        name: "bash".to_owned(),
        description: "execute a bash command and return its output".to_owned(),
        parameters: schema_with(p, "command"),
    }
}

// --- the read tool ---

/// the arguments of the `read` tool.
#[derive(Debug)]
pub struct ReadArgs {
    pub path: String,
    /// 0-indexed line number to start reading from (default: 0)
    pub offset: Option<usize>,
    /// number of lines to read (default: read to end)
    pub count: Option<usize>,
}

/// the smaller of two numbers.
pub open spec fn min(a: int, b: int) -> int {
    if a <= b {
        a
    } else {
        b
    }
}

/// the part of a text that `count` lines from line `offset` on make up. without
/// either it is the whole text as it is; the lines that are not there count for
/// nothing.
pub open spec fn sliced(content: Seq<char>, offset: Option<usize>, count: Option<usize>) -> Seq<
    char,
> {
    if offset is None && count is None {
        content
    } else {
        let lines = text::lines(content);
        let start = match offset {
            Some(n) => n as int,
            None => 0,
        };
        let end = match count {
            Some(n) => min(start + n, lines.len() as int),
            None => lines.len() as int,
        };
        if start < lines.len() {
            text::join(lines.subrange(start, end), seq!['\n'])
        } else {
            Seq::empty()
        }
    }
}

/// returns a slice of `content` covering `count` lines starting at the
/// 0-indexed `offset`. if both are None, returns the input unchanged.
pub fn slice_lines(content: &str, offset: Option<usize>, count: Option<usize>) -> (r: String)
    ensures
        r@ == sliced(content@, offset, count),
{
    if offset.is_none() && count.is_none() {
        return content.to_owned();
    }
    let start: usize = match offset {
        Some(n) => n,
        None => 0,
    };
    let lines = text::lines_of(content);
    let ghost all = text::lines(content@);
    if start >= lines.len() {
        return String::new();
    }
    let end: usize = match count {
        Some(n) => if n < lines.len() - start {
            start + n
        } else {
            lines.len()
        },
        None => lines.len(),
    };
    let mut part: Vec<String> = Vec::new();
    let mut i: usize = start;
    while i < end
        invariant
            start <= i <= end <= lines@.len(),
            part@.len() == i - start,
            forall|j: int| 0 <= j < i - start ==> (#[trigger] part@[j])@ == lines@[start + j]@,
        decreases end - i,
    {
        part.push(lines[i].clone());
        i += 1;
    }
    proof {
        reveal_strlit("\n");
        assert("\n"@ =~= seq!['\n']);
        assert(all == text::texts(lines@));
        assert(text::texts(part@) =~= all.subrange(start as int, end as int));
    }
    text::join_of(part.as_slice(), "\n")
}

/// the result of the `read` tool.
pub open spec fn read_result(content: Seq<char>) -> Model {
    Model::Object(Map::empty().insert("content"@, Model::Text(content)))
}

/// the result of the `read` tool.
pub fn read_result_json(content: &str) -> (r: Json)
    ensures
        r@ == read_result(content@),
{
    Json::object(json::with(json::no_fields(), "content", Json::text(content)))
}

// --- the bash tool ---

/// the arguments of the `bash` tool.
#[derive(Debug)]
pub struct BashArgs {
    pub command: String,
}

/// shell metacharacters that could chain or redirect commands, and the backslash.
pub open spec fn is_metacharacter(c: char) -> bool {
    ||| c == ';'
    ||| c == '|'
    ||| c == '&'
    ||| c == '`'
    ||| c == '$'
    ||| c == '('
    ||| c == ')'
    ||| c == '{'
    ||| c == '}'
    ||| c == '<'
    ||| c == '>'
    ||| c == '\n'
    ||| c == '\r'
    ||| c == '!'
    ||| c == '#'
    ||| c == '\\'
}

/// a command without metacharacters.
pub open spec fn is_simple(command: Seq<char>) -> bool {
    forall|i: int| 0 <= i < command.len() ==> !is_metacharacter(#[trigger] command[i])
}

/// whether a character is a shell metacharacter or the backslash.
fn metacharacter(c: char) -> (r: bool)
    ensures
        r == is_metacharacter(c),
{
    c == ';' || c == '|' || c == '&' || c == '`' || c == '$' || c == '(' || c == ')' || c == '{'
        || c == '}' || c == '<' || c == '>' || c == '\n' || c == '\r' || c == '!' || c == '#' || c
        == '\\'
}

/// returns true if the command is a simple command without shell metacharacters
/// that could bypass permission checks.
pub fn is_simple_bash_command(command: &str) -> (r: bool)
    ensures
        r == is_simple(command@),
{
    let chars = text::chars_of(command);
    let mut i: usize = 0;
    while i < chars.len()
        invariant
            i <= chars@.len(),
            chars@ == command@,
            forall|j: int| 0 <= j < i ==> !is_metacharacter(#[trigger] chars@[j]),
        decreases chars@.len() - i,
    {
        if metacharacter(chars[i]) {
            return false;
        }
        i += 1;
    }
    true
}

/// what running a command gave.
#[derive(Debug)]
pub struct CommandOutput {
    /// the exit code; none where a signal ended the command.
    pub code: Option<i32>,
    pub stdout: String,
    pub stderr: String,
}

/// the result of the `bash` tool; `stderr` is left out where it is empty.
pub open spec fn bash_result(output: CommandOutput) -> Model {
    let code: i64 = match output.code {
        Some(c) => c as i64,
        None => -1i64,
    };
    let f = Map::empty().insert("exit_code"@, Model::Number(json::number_of_int(code))).insert(
        "stdout"@,
        Model::Text(output.stdout@),
    );
    Model::Object(
        if output.stderr@.len() == 0 {
            f
        } else {
            f.insert("stderr"@, Model::Text(output.stderr@))
        },
    )
}

/// the result of the `bash` tool.
pub fn bash_result_json(output: &CommandOutput) -> (r: Json)
    ensures
        r@ == bash_result(*output),
{
    let code: i64 = match output.code {
        Some(c) => c as i64,
        None => -1,
    };
    let f = json::with(json::no_fields(), "exit_code", Json::integer(code));
    let f = json::with(f, "stdout", Json::text(output.stdout.as_str()));
    if output.stderr.as_str().is_empty() {
        Json::object(f)
    } else {
        Json::object(json::with(f, "stderr", Json::text(output.stderr.as_str())))
    }
}

// --- which tools there are ---

/// the built-in tools.
#[derive(Debug, Clone, Copy, PartialEq, Eq, Structural)]
pub enum Builtin {
    Read,
    Bash,
}

/// the name of a built-in tool.
pub open spec fn builtin_name(tool: Builtin) -> Seq<char> {
    match tool {
        Builtin::Read => "read"@,
        Builtin::Bash => "bash"@,
    }
}

impl Builtin {
    /// the name of the tool.
    pub fn name(&self) -> (r: &'static str)
        ensures
            r@ == builtin_name(*self),
    {
        match self {
            Builtin::Read => "read",
            Builtin::Bash => "bash",
        }
    }
}

/// the built-in tools that are active.
pub open spec fn active_builtins(
    gates: Map<Seq<char>, bool>,
    list: Option<Vec<String>>,
) -> Seq<Builtin> {
    (if config::active(gates, "read"@, list) {
        seq![Builtin::Read]
    } else {
        Seq::empty()
    }) + (if config::active(gates, "bash"@, list) {
        seq![Builtin::Bash]
    } else {
        Seq::empty()
    })
}

/// assembles the enabled built-in tools (gated by the `[tools]` config).
pub fn builtin_tools(tools: &ToolsConfig, tools_override: &Option<Vec<String>>) -> (r: Vec<
    Builtin,
>)
    ensures
        r@ == active_builtins(tools@, *tools_override),
{
    let mut out: Vec<Builtin> = Vec::new();
    if tools.is_active("read", tools_override) {
        out.push(Builtin::Read);
    }
    if tools.is_active("bash", tools_override) {
        out.push(Builtin::Bash);
    }
    assert(out@ =~= active_builtins(tools@, *tools_override));
    out
}

// --- the permission gate ---

/// the arguments of a built-in tool.
#[derive(Debug)]
pub enum ToolArgs {
    Read(ReadArgs),
    Bash(BashArgs),
}

/// what the arguments of a built-in tool stand for.
pub enum ArgsModel {
    Read { path: Seq<char>, offset: Option<usize>, count: Option<usize> },
    Bash { command: Seq<char> },
}

impl View for ToolArgs {
    type V = ArgsModel;

    open spec fn view(&self) -> ArgsModel {
        match *self {
            ToolArgs::Read(a) => ArgsModel::Read {
                path: a.path@,
                offset: a.offset,
                count: a.count,
            },
            ToolArgs::Bash(a) => ArgsModel::Bash { command: a.command@ },
        }
    }
}

/// the tool that the arguments are for.
pub open spec fn tool_of(args: ArgsModel) -> Builtin {
    match args {
        ArgsModel::Read { .. } => Builtin::Read,
        ArgsModel::Bash { .. } => Builtin::Bash,
    }
}

/// the fields with a number under the key, if there is one.
pub open spec fn with_number(
    fields: Map<Seq<char>, Model>,
    key: Seq<char>,
    n: Option<usize>,
) -> Map<Seq<char>, Model> {
    match n {
        Some(n) => fields.insert(key, Model::Number(json::number_of(n as u64))),
        None => fields,
    }
}

/// the arguments as JSON.
pub open spec fn args_model(args: ArgsModel) -> Model {
    match args {
        ArgsModel::Read { path, offset, count } => Model::Object(
            with_number(
                with_number(Map::empty().insert("path"@, Model::Text(path)), "offset"@, offset),
                "count"@,
                count,
            ),
        ),
        ArgsModel::Bash { command } => Model::Object(
            Map::empty().insert("command"@, Model::Text(command)),
        ),
    }
}

/// the arguments as JSON.
pub fn args_json(args: &ToolArgs) -> (r: Json)
    ensures
        r@ == args_model(args@),
{
    match args {
        ToolArgs::Read(a) => {
            let mut f = json::with(json::no_fields(), "path", Json::text(a.path.as_str()));
            if let Some(n) = a.offset {
                json::put(&mut f, "offset".to_owned(), Json::number(n as u64));
            }
            if let Some(n) = a.count {
                json::put(&mut f, "count".to_owned(), Json::number(n as u64));
            }
            Json::object(f)
        },
        ToolArgs::Bash(a) => Json::object(
            json::with(json::no_fields(), "command", Json::text(a.command.as_str())),
        ),
    }
}

/// what the permissions say to a call.
#[derive(Debug)]
pub enum Gate {
    Pass,
    /// the user is to be asked.
    Ask { tool: String, input: String },
    /// the call is refused.
    Refuse(String),
}

/// what the permissions say to a call.
pub enum GateModel {
    Pass,
    Ask { tool: Seq<char>, input: Seq<char> },
    Refuse(Seq<char>),
}

impl View for Gate {
    type V = GateModel;

    open spec fn view(&self) -> GateModel {
        match *self {
            Gate::Pass => GateModel::Pass,
            Gate::Ask { tool, input } => GateModel::Ask { tool: tool@, input: input@ },
            Gate::Refuse(m) => GateModel::Refuse(m@),
        }
    }
}

/// what a level says to a call with the given input.
pub open spec fn gate_at(level: PermissionLevel, tool: Seq<char>, input: Seq<char>) -> GateModel {
    match level {
        PermissionLevel::Allow => GateModel::Pass,
        PermissionLevel::Ask => GateModel::Ask { tool, input },
        PermissionLevel::Deny => GateModel::Refuse("permission denied: "@ + input),
    }
}

/// what a level says to a command with metacharacters.
pub open spec fn complex_gate_at(level: PermissionLevel, command: Seq<char>) -> GateModel {
    match level {
        PermissionLevel::Allow => GateModel::Pass,
        PermissionLevel::Ask => GateModel::Ask { tool: "bash (complex)"@, input: command },
        PermissionLevel::Deny => GateModel::Refuse(
            "permission denied (shell metacharacters): "@ + command,
        ),
    }
}

/// what the permissions say to a call with the given arguments. paths are looked
/// up as they resolve. a command with metacharacters cannot be trusted to match
/// a pattern by what it does, so it is looked up as the empty command, which
/// only catch-all patterns match.
pub open spec fn gate_for(
    permissions: Map<Seq<char>, Rule>,
    cwd: Seq<char>,
    args: ArgsModel,
) -> GateModel {
    match args {
        ArgsModel::Read { path, .. } => {
            let p = text::path_join(cwd, path);
            gate_at(permission::verdict(permissions, "read"@, p, true), "read"@, p)
        },
        ArgsModel::Bash { command } => if is_simple(command) {
            gate_at(
                permission::verdict(permissions, "bash"@, command, false),
                "bash"@,
                command,
            )
        } else {
            complex_gate_at(
                permission::verdict(permissions, "bash"@, Seq::empty(), false),
                command,
            )
        },
    }
}

/// what the permissions say to a call of the named tool with the given input.
pub fn gate(permissions: &PermissionsConfig, tool: &str, input: &str, path_mode: bool) -> (r: Gate)
    ensures
        r@ == gate_at(permission::verdict(permissions@, tool@, input@, path_mode), tool@, input@),
{
    match permissions.check(tool, input, path_mode) {
        PermissionLevel::Allow => Gate::Pass,
        PermissionLevel::Ask => Gate::Ask { tool: tool.to_owned(), input: input.to_owned() },
        PermissionLevel::Deny => Gate::Refuse(text::concat2("permission denied: ", input)),
    }
}

/// what the permissions say to a call with the given arguments.
pub fn builtin_gate(permissions: &PermissionsConfig, cwd: &str, args: &ToolArgs) -> (r: Gate)
    ensures
        r@ == gate_for(permissions@, cwd@, args@),
{
    match args {
        ToolArgs::Read(a) => {
            let p = resolve_path(a.path.as_str(), cwd);
            gate(permissions, "read", p.as_str(), true)
        },
        ToolArgs::Bash(a) => {
            let command = a.command.as_str();
            if is_simple_bash_command(command) {
                gate(permissions, "bash", command, false)
            } else {
                proof {
                    reveal_strlit("");
                    assert(""@ =~= Seq::empty());
                }
                match permissions.check("bash", "", false) {
                    PermissionLevel::Allow => Gate::Pass,
                    PermissionLevel::Ask => Gate::Ask {
                        tool: "bash (complex)".to_owned(),
                        input: command.to_owned(),
                    },
                    PermissionLevel::Deny => Gate::Refuse(
                        text::concat2("permission denied (shell metacharacters): ", command),
                    ),
                }
            }
        },
    }
}

// --- the course of a call ---

/// where a call stands.
#[derive(Debug)]
pub enum CallState {
    /// the interception has been asked about the arguments.
    Intercepting { args: ToolArgs },
    /// the interception has rewritten the arguments, and they are being read.
    Parsing { tool: Builtin, result: Option<String> },
    /// the user has been asked about the call.
    Confirming { args: ToolArgs, input: String, result: Option<String> },
    /// the tool is at work.
    Executing { args: ToolArgs },
    /// the interception has been told the output.
    Observing { output: String },
    Finished,
}

/// what happened to a call.
#[derive(Debug)]
pub enum CallEvent {
    Intercepted(BeforeTool),
    /// the rewritten arguments, or what is wrong with them.
    Parsed(Result<ToolArgs, String>),
    Confirmed(bool),
    /// the content of the file, or why it cannot be read.
    FileRead(Result<String, String>),
    /// the output of the command, or why it cannot be run.
    CommandRun(Result<CommandOutput, String>),
    /// the output that is to replace the tool's.
    Observed(Option<String>),
}

/// what is to be done next for a call.
#[derive(Debug)]
pub enum CallAction {
    /// read the arguments of the tool from the JSON.
    Parse(Json),
    Confirm { tool: String, input: String },
    ReadFile(String),
    RunCommand(String),
    Observe(String),
    Finish(Result<String, ToolError>),
}

/// what the state of a call stands for.
pub enum StateModel {
    Intercepting { args: ArgsModel },
    Parsing { tool: Builtin, result: Option<Seq<char>> },
    Confirming { args: ArgsModel, input: Seq<char>, result: Option<Seq<char>> },
    Executing { args: ArgsModel },
    Observing { output: Seq<char> },
    Finished,
}

/// what an action stands for.
pub enum ActionModel {
    Parse(Model),
    Confirm { tool: Seq<char>, input: Seq<char> },
    ReadFile(Seq<char>),
    RunCommand(Seq<char>),
    Observe(Seq<char>),
    Finish(Result<Seq<char>, ErrorModel>),
}

impl View for CallState {
    type V = StateModel;

    open spec fn view(&self) -> StateModel {
        match *self {
            CallState::Intercepting { args } => StateModel::Intercepting { args: args@ },
            CallState::Parsing { tool, result } => StateModel::Parsing {
                tool,
                result: text::text_opt(result),
            },
            CallState::Confirming { args, input, result } => StateModel::Confirming {
                args: args@,
                input: input@,
                result: text::text_opt(result),
            },
            CallState::Executing { args } => StateModel::Executing { args: args@ },
            CallState::Observing { output } => StateModel::Observing { output: output@ },
            CallState::Finished => StateModel::Finished,
        }
    }
}

impl View for CallAction {
    type V = ActionModel;

    open spec fn view(&self) -> ActionModel {
        match *self {
            CallAction::Parse(j) => ActionModel::Parse(j@),
            CallAction::Confirm { tool, input } => ActionModel::Confirm {
                tool: tool@,
                input: input@,
            },
            CallAction::ReadFile(path) => ActionModel::ReadFile(path@),
            CallAction::RunCommand(command) => ActionModel::RunCommand(command@),
            CallAction::Observe(output) => ActionModel::Observe(output@),
            CallAction::Finish(r) => ActionModel::Finish(permission::outcome(r)),
        }
    }
}

/// a call that is refused or fails.
pub open spec fn failed(message: Seq<char>) -> (StateModel, ActionModel) {
    (StateModel::Finished, ActionModel::Finish(Err(ErrorModel::Call(message))))
}

/// a call whose tool has given its output.
pub open spec fn gave(output: Seq<char>) -> (StateModel, ActionModel) {
    (StateModel::Observing { output }, ActionModel::Observe(output))
}

/// a call that has passed the permissions: a result that the interception has
/// put in its place is its output, and without one the tool runs.
pub open spec fn permitted(args: ArgsModel, result: Option<Seq<char>>) -> (
    StateModel,
    ActionModel,
) {
    match result {
        Some(output) => gave(output),
        None => (
            StateModel::Executing { args },
            match args {
                ArgsModel::Read { path, .. } => ActionModel::ReadFile(path),
                ArgsModel::Bash { command } => ActionModel::RunCommand(command),
            },
        ),
    }
}

/// a call whose arguments stand comes before the permissions.
pub open spec fn gated(
    permissions: Map<Seq<char>, Rule>,
    cwd: Seq<char>,
    args: ArgsModel,
    result: Option<Seq<char>>,
) -> (StateModel, ActionModel) {
    match gate_for(permissions, cwd, args) {
        GateModel::Pass => permitted(args, result),
        GateModel::Ask { tool, input } => (
            StateModel::Confirming { args, input, result },
            ActionModel::Confirm { tool, input },
        ),
        GateModel::Refuse(m) => failed(m),
    }
}

/// the events that a call in the given state waits for.
pub open spec fn awaits(state: StateModel, event: CallEvent) -> bool {
    match (state, event) {
        (StateModel::Intercepting { .. }, CallEvent::Intercepted(_)) => true,
        (StateModel::Parsing { tool, .. }, CallEvent::Parsed(r)) => match r {
            Ok(args) => tool_of(args@) == tool,
            Err(_) => true,
        },
        (StateModel::Confirming { .. }, CallEvent::Confirmed(_)) => true,
        (
            StateModel::Executing { args: ArgsModel::Read { .. } },
            CallEvent::FileRead(_),
        ) => true,
        (
            StateModel::Executing { args: ArgsModel::Bash { .. } },
            CallEvent::CommandRun(_),
        ) => true,
        (StateModel::Observing { .. }, CallEvent::Observed(_)) => true,
        _ => false,
    }
}

/// where a call goes from a state by an event that it waits for.
pub open spec fn next(
    permissions: Map<Seq<char>, Rule>,
    cwd: Seq<char>,
    state: StateModel,
    event: CallEvent,
) -> (StateModel, ActionModel) {
    match (state, event) {
        (StateModel::Intercepting { args }, CallEvent::Intercepted(before)) => match before.deny {
            Some(reason) => failed("denied by hook: "@ + reason@),
            None => match before.args {
                Some(j) => (
                    StateModel::Parsing {
                        tool: tool_of(args),
                        result: text::text_opt(before.result),
                    },
                    ActionModel::Parse(j@),
                ),
                None => gated(permissions, cwd, args, text::text_opt(before.result)),
            },
        },
        (StateModel::Parsing { result, .. }, CallEvent::Parsed(r)) => match r {
            Ok(args) => gated(permissions, cwd, args@, result),
            Err(e) => failed("rewritten tool args invalid: "@ + e@),
        },
        (
            StateModel::Confirming { args, input, result },
            CallEvent::Confirmed(confirmed),
        ) => if confirmed {
            permitted(args, result)
        } else {
            failed("permission denied (user rejected): "@ + input)
        },
        (
            StateModel::Executing { args: ArgsModel::Read { path, offset, count } },
            CallEvent::FileRead(r),
        ) => match r {
            Ok(content) => gave(json::rendered(read_result(sliced(content@, offset, count)))),
            Err(e) => failed(text::path_join(cwd, path) + ": "@ + e@),
        },
        (StateModel::Executing { .. }, CallEvent::CommandRun(r)) => match r {
            Ok(output) => gave(json::rendered(bash_result(output))),
            Err(e) => failed("failed to execute: "@ + e@),
        },
        (StateModel::Observing { output }, CallEvent::Observed(replacement)) => (
            StateModel::Finished,
            ActionModel::Finish(
                Ok(
                    match replacement {
                        Some(s) => s@,
                        None => output,
                    },
                ),
            ),
        ),
        _ => (StateModel::Finished, ActionModel::Finish(Err(ErrorModel::Call(Seq::empty())))),
    }
}

/// a call that is refused or fails.
fn fail(message: String) -> (r: (CallState, CallAction))
    ensures
        (r.0@, r.1@) == failed(message@),
{
    (CallState::Finished, CallAction::Finish(Err(ToolError::ToolCallError(message))))
}

/// a call whose tool has given its output.
pub fn give(output: String) -> (r: (CallState, CallAction))
    ensures
        (r.0@, r.1@) == gave(output@),
{
    let shown = output.clone();
    (CallState::Observing { output }, CallAction::Observe(shown))
}

/// a call that has passed the permissions.
fn permit(args: ToolArgs, result: Option<String>) -> (r: (CallState, CallAction))
    ensures
        (r.0@, r.1@) == permitted(args@, text::text_opt(result)),
{
    match result {
        Some(output) => give(output),
        None => {
            let action = match &args {
                ToolArgs::Read(a) => CallAction::ReadFile(a.path.clone()),
                ToolArgs::Bash(a) => CallAction::RunCommand(a.command.clone()),
            };
            (CallState::Executing { args }, action)
        },
    }
}

/// brings a call before the permissions.
fn pass_gate(
    permissions: &PermissionsConfig,
    cwd: &str,
    args: ToolArgs,
    result: Option<String>,
) -> (r: (CallState, CallAction))
    ensures
        (r.0@, r.1@) == gated(permissions@, cwd@, args@, text::text_opt(result)),
{
    match builtin_gate(permissions, cwd, &args) {
        Gate::Pass => permit(args, result),
        Gate::Ask { tool, input } => {
            let shown = input.clone();
            (CallState::Confirming { args, input, result }, CallAction::Confirm { tool, input: shown })
        },
        Gate::Refuse(m) => fail(m),
    }
}

/// begins a call: the interception is asked about the arguments, which are
/// handed out as JSON.
pub fn start_call(args: ToolArgs) -> (r: (CallState, Json))
    ensures
        r.0@ == (StateModel::Intercepting { args: args@ }),
        r.1@ == args_model(args@),
{
    let j = args_json(&args);
    (CallState::Intercepting { args }, j)
}

/// moves a call on by what happened to it. interception comes first: a hook may
/// deny, rewrite the args, or synthesize a result. the permission gate then
/// evaluates the effective args.
pub fn advance_call(
    permissions: &PermissionsConfig,
    cwd: &str,
    state: CallState,
    event: CallEvent,
) -> (r: (CallState, CallAction))
    requires
        awaits(state@, event),
    ensures
        (r.0@, r.1@) == next(permissions@, cwd@, state@, event),
{
    match state {
        CallState::Intercepting { args } => match event {
            CallEvent::Intercepted(before) => match before.deny {
                Some(reason) => fail(text::concat2("denied by hook: ", reason.as_str())),
                None => match before.args {
                    Some(j) => {
                        let tool = match &args {
                            ToolArgs::Read(_) => Builtin::Read,
                            ToolArgs::Bash(_) => Builtin::Bash,
                        };
                        (CallState::Parsing { tool, result: before.result }, CallAction::Parse(j))
                    },
                    None => pass_gate(permissions, cwd, args, before.result),
                },
            },
            _ => fail(String::new()),
        },
        CallState::Parsing { tool: _, result } => match event {
            CallEvent::Parsed(Ok(args)) => pass_gate(permissions, cwd, args, result),
            CallEvent::Parsed(Err(e)) => fail(
                text::concat2("rewritten tool args invalid: ", e.as_str()),
            ),
            _ => fail(String::new()),
        },
        CallState::Confirming { args, input, result } => match event {
            CallEvent::Confirmed(confirmed) => if confirmed {
                permit(args, result)
            } else {
                fail(text::concat2("permission denied (user rejected): ", input.as_str()))
            },
            _ => fail(String::new()),
        },
        CallState::Executing { args } => match (args, event) {
            (ToolArgs::Read(a), CallEvent::FileRead(Ok(content))) => {
                let part = slice_lines(content.as_str(), a.offset, a.count);
                give(read_result_json(part.as_str()).render())
            },
            (ToolArgs::Read(a), CallEvent::FileRead(Err(e))) => {
                let path = resolve_path(a.path.as_str(), cwd);
                fail(text::concat3(path.as_str(), ": ", e.as_str()))
            },
            (ToolArgs::Bash(_), CallEvent::CommandRun(Ok(output))) => {
                give(bash_result_json(&output).render())
            },
            (ToolArgs::Bash(_), CallEvent::CommandRun(Err(e))) => {
                fail(text::concat2("failed to execute: ", e.as_str()))
            },
            _ => fail(String::new()),
        },
        CallState::Observing { output } => match event {
            CallEvent::Observed(Some(s)) => (CallState::Finished, CallAction::Finish(Ok(s))),
            CallEvent::Observed(None) => (CallState::Finished, CallAction::Finish(Ok(output))),
            _ => fail(String::new()),
        },
        CallState::Finished => fail(String::new()),
    }
}

// --- laws ---

/// a call that waits for the user's answer is one that the permissions ask about.
pub open spec fn is_sound(
    permissions: Map<Seq<char>, Rule>,
    cwd: Seq<char>,
    state: StateModel,
) -> bool {
    match state {
        StateModel::Confirming { args, input, .. } => gate_for(permissions, cwd, args) matches
            GateModel::Ask { input: asked, .. } && asked == input,
        _ => true,
    }
}

/// the permissions let a call through, or leave it to the user, who has agreed.
pub open spec fn let_through(
    permissions: Map<Seq<char>, Rule>,
    cwd: Seq<char>,
    args: ArgsModel,
    event: CallEvent,
) -> bool {
    match gate_for(permissions, cwd, args) {
        GateModel::Pass => true,
        GateModel::Ask { .. } => event == CallEvent::Confirmed(true),
        GateModel::Refuse(_) => false,
    }
}

/// a call begins soundly and stays so.
pub proof fn law_calls_stay_sound(
    permissions: Map<Seq<char>, Rule>,
    cwd: Seq<char>,
    args: ArgsModel,
    state: StateModel,
    event: CallEvent,
)
    requires
        awaits(state, event),
        is_sound(permissions, cwd, state),
    ensures
        is_sound(permissions, cwd, StateModel::Intercepting { args }),
        is_sound(permissions, cwd, next(permissions, cwd, state, event).0),
{
}

/// no command runs that the permissions do not let through.
pub proof fn law_commands_are_permitted(
    permissions: Map<Seq<char>, Rule>,
    cwd: Seq<char>,
    state: StateModel,
    event: CallEvent,
)
    requires
        awaits(state, event),
        is_sound(permissions, cwd, state),
    ensures
        next(permissions, cwd, state, event).1 matches ActionModel::RunCommand(command)
            ==> let_through(permissions, cwd, ArgsModel::Bash { command }, event),
{
}

/// no file is read that the permissions do not let through.
pub proof fn law_reads_are_permitted(
    permissions: Map<Seq<char>, Rule>,
    cwd: Seq<char>,
    state: StateModel,
    event: CallEvent,
    offset: Option<usize>,
    count: Option<usize>,
)
    requires
        awaits(state, event),
        is_sound(permissions, cwd, state),
    ensures
        next(permissions, cwd, state, event).1 matches ActionModel::ReadFile(path)
            ==> let_through(permissions, cwd, ArgsModel::Read { path, offset, count }, event),
{
}

/// where a call with the given arguments stands after the given events.
pub open spec fn course(
    permissions: Map<Seq<char>, Rule>,
    cwd: Seq<char>,
    args: ArgsModel,
    events: Seq<CallEvent>,
) -> StateModel
    decreases events.len(),
{
    if events.len() == 0 {
        StateModel::Intercepting { args }
    } else {
        next(
            permissions,
            cwd,
            course(permissions, cwd, args, events.drop_last()),
            events.last(),
        ).0
    }
}

/// each of the events is one that the call waits for.
pub open spec fn is_course(
    permissions: Map<Seq<char>, Rule>,
    cwd: Seq<char>,
    args: ArgsModel,
    events: Seq<CallEvent>,
) -> bool
    decreases events.len(),
{
    events.len() == 0 || (is_course(permissions, cwd, args, events.drop_last()) && awaits(
        course(permissions, cwd, args, events.drop_last()),
        events.last(),
    ))
}

/// a call is sound throughout.
proof fn lemma_course(
    permissions: Map<Seq<char>, Rule>,
    cwd: Seq<char>,
    args: ArgsModel,
    events: Seq<CallEvent>,
)
    requires
        is_course(permissions, cwd, args, events),
    ensures
        is_sound(permissions, cwd, course(permissions, cwd, args, events)),
    decreases events.len(),
{
    if events.len() > 0 {
        lemma_course(permissions, cwd, args, events.drop_last());
    }
}

/// whatever happens in the course of a call, a command that it runs and a file
/// that it reads are ones that the permissions let through.
pub proof fn law_whole_calls_are_permitted(
    permissions: Map<Seq<char>, Rule>,
    cwd: Seq<char>,
    args: ArgsModel,
    events: Seq<CallEvent>,
    event: CallEvent,
    offset: Option<usize>,
    count: Option<usize>,
)
    requires
        is_course(permissions, cwd, args, events),
        awaits(course(permissions, cwd, args, events), event),
    ensures
        match next(permissions, cwd, course(permissions, cwd, args, events), event).1 {
            ActionModel::RunCommand(command) => let_through(
                permissions,
                cwd,
                ArgsModel::Bash { command },
                event,
            ),
            ActionModel::ReadFile(path) => let_through(
                permissions,
                cwd,
                ArgsModel::Read { path, offset, count },
                event,
            ),
            _ => true,
        },
{
    lemma_course(permissions, cwd, args, events);
}

/// the arguments that a call goes on with when it leaves a state by an event.
pub open spec fn effective_args(state: StateModel, event: CallEvent) -> Option<ArgsModel> {
    match (state, event) {
        (StateModel::Intercepting { args }, CallEvent::Intercepted(before)) => if before.args
            is None {
            Some(args)
        } else {
            None
        },
        (StateModel::Parsing { .. }, CallEvent::Parsed(r)) => match r {
            Ok(args) => Some(args@),
            Err(_) => None,
        },
        (StateModel::Confirming { args, .. }, CallEvent::Confirmed(_)) => Some(args),
        (StateModel::Executing { args }, _) => Some(args),
        _ => None,
    }
}

/// a result that the interception has put in place of the tool's is held back
/// like a run of the tool: the permissions have to let the effective arguments
/// through.
pub proof fn law_synthetic_results_are_permitted(
    permissions: Map<Seq<char>, Rule>,
    cwd: Seq<char>,
    state: StateModel,
    event: CallEvent,
)
    requires
        awaits(state, event),
        is_sound(permissions, cwd, state),
        !(state is Executing),
    ensures
        next(permissions, cwd, state, event).1 is Observe ==> effective_args(state, event) is Some
            && let_through(permissions, cwd, effective_args(state, event)->0, event),
{
}

/// a hook's refusal wins over a result or a rewriting that it also gives, and
/// over the permissions.
pub proof fn law_denial_wins(
    permissions: Map<Seq<char>, Rule>,
    cwd: Seq<char>,
    args: ArgsModel,
    before: BeforeTool,
)
    requires
        before.deny is Some,
    ensures
        next(
            permissions,
            cwd,
            StateModel::Intercepting { args },
            CallEvent::Intercepted(before),
        ) == failed("denied by hook: "@ + before.deny->0@),
{
}

/// the permissions judge the rewritten arguments, whatever the original ones
/// were.
pub proof fn law_rewritten_args_are_judged(
    permissions: Map<Seq<char>, Rule>,
    cwd: Seq<char>,
    tool: Builtin,
    result: Option<Seq<char>>,
    args: ToolArgs,
)
    requires
        tool_of(args@) == tool,
    ensures
        next(
            permissions,
            cwd,
            StateModel::Parsing { tool, result },
            CallEvent::Parsed(Ok(args)),
        ) == gated(permissions, cwd, args@, result),
{
}

/// how many steps a call can still take.
pub open spec fn steps_left(state: StateModel) -> nat {
    match state {
        StateModel::Intercepting { .. } => 5,
        StateModel::Parsing { .. } => 4,
        StateModel::Confirming { .. } => 3,
        StateModel::Executing { .. } => 2,
        StateModel::Observing { .. } => 1,
        StateModel::Finished => 0,
    }
}

/// a call comes to its end, and exactly there it has an outcome.
pub proof fn law_calls_end(
    permissions: Map<Seq<char>, Rule>,
    cwd: Seq<char>,
    state: StateModel,
    event: CallEvent,
)
    requires
        awaits(state, event),
    ensures
        steps_left(next(permissions, cwd, state, event).0) < steps_left(state),
        next(permissions, cwd, state, event).1 is Finish <==> next(
            permissions,
            cwd,
            state,
            event,
        ).0 is Finished,
{
}

/// the patterns that a command with metacharacters matches by its text make no
/// difference: all such commands are let through, asked about or refused alike.
pub proof fn law_metacharacters_need_catch_all(
    permissions: Map<Seq<char>, Rule>,
    cwd: Seq<char>,
    command: Seq<char>,
)
    requires
        !is_simple(command),
    ensures
        gate_for(permissions, cwd, ArgsModel::Bash { command }) == complex_gate_at(
            permission::verdict(permissions, "bash"@, Seq::empty(), false),
            command,
        ),
{
}

/// without a rule for them commands with metacharacters are refused, even where
/// the very command is allowed by name.
pub proof fn law_named_complex_command_is_refused(
    patterns: Map<Seq<char>, PermissionLevel>,
    cwd: Seq<char>,
    command: Seq<char>,
)
    requires
        !is_simple(command),
        forall|p: Seq<char>|
            patterns.contains_key(p) ==> !#[trigger] permission::applies(p, Seq::empty(), false),
    ensures
        gate_for(
            Map::empty().insert("bash"@, Rule::Patterns(patterns)),
            cwd,
            ArgsModel::Bash { command },
        ) == GateModel::Refuse("permission denied (shell metacharacters): "@ + command),
{
    let permissions = Map::<Seq<char>, Rule>::empty().insert("bash"@, Rule::Patterns(patterns));
    reveal_strlit("bash");
    let name = "bash"@;
    assert(crate::glob::wildcards(name) == 0) by {
        reveal_with_fuel(text::count, 5);
        assert(name =~= seq!['b', 'a', 's', 'h']);
    }
    permission::law_exact_tool_wins(permissions, name, Seq::empty(), false);
    let score = permission::by_rule(Seq::empty(), false);
    assert forall|p: Seq<char>| !(#[trigger] patterns.dom().contains(p) && score(p) is Some) by {
        if patterns.contains_key(p) {
            assert(!permission::applies(p, Seq::empty(), false));
        }
    }
}

/// lines that are not there are no lines of the slice.
pub proof fn law_slice_past_the_end(content: Seq<char>, offset: usize, count: Option<usize>)
    requires
        offset >= text::lines(content).len(),
    ensures
        sliced(content, Some(offset), count) == Seq::<char>::empty(),
{
}

/// a count that reaches past the end of the text is as good as none.
pub proof fn law_slice_is_clamped(content: Seq<char>, offset: usize, count: usize)
    requires
        offset + count >= text::lines(content).len(),
    ensures
        sliced(content, Some(offset), Some(count)) == sliced(content, Some(offset), None),
{
}

/// slicing parts that are joined by line feeds, none of which holds a line ending,
/// gives the asked for ones of them, each one character for character. a line feed
/// at the end makes no difference.
pub proof fn law_slice_takes_whole_lines(
    parts: Seq<Seq<char>>,
    offset: usize,
    count: usize,
    end: int,
)
    requires
        forall|i: int|
            0 <= i < parts.len() ==> !(#[trigger] parts[i]).contains('\n') && (parts[i].len() > 0
                ==> parts[i].last() != '\r'),
        offset < parts.len(),
        end == if offset + count <= parts.len() {
            offset + count
        } else {
            parts.len() as int
        },
    ensures
        sliced(text::join(parts, seq!['\n']) + seq!['\n'], Some(offset), Some(count))
            == text::join(parts.subrange(offset as int, end), seq!['\n']),
        sliced(text::join(parts, seq!['\n']) + seq!['\n'], Some(offset), None) == text::join(
            parts.skip(offset as int),
            seq!['\n'],
        ),
        parts.last().len() > 0 ==> sliced(
            text::join(parts, seq!['\n']),
            Some(offset),
            Some(count),
        ) == text::join(parts.subrange(offset as int, end), seq!['\n']),
        parts.last().len() > 0 ==> sliced(text::join(parts, seq!['\n']), Some(offset), None)
            == text::join(parts.skip(offset as int), seq!['\n']),
{
    text::law_lines_of_joined(parts);
    assert(parts.subrange(offset as int, parts.len() as int) =~= parts.skip(offset as int));
}

/// a single line of a slice is that line, with its blanks.
pub proof fn law_slice_of_one_line(parts: Seq<Seq<char>>, i: usize)
    requires
        forall|j: int|
            0 <= j < parts.len() ==> !(#[trigger] parts[j]).contains('\n') && (parts[j].len() > 0
                ==> parts[j].last() != '\r'),
        i < parts.len(),
    ensures
        sliced(text::join(parts, seq!['\n']) + seq!['\n'], Some(i), Some(1)) == parts[i as int],
{
    law_slice_takes_whole_lines(parts, i, 1, i + 1);
    assert(parts.subrange(i as int, i + 1) =~= seq![parts[i as int]]);
    text::law_join_single(parts[i as int], seq!['\n']);
}

/// a slice from the start loses no character but a line feed at the end.
pub proof fn law_slice_from_the_start(content: Seq<char>)
    requires
        !content.contains('\r'),
        content.len() > 0,
    ensures
        content.last() != '\n' ==> sliced(content, Some(0), None) == content,
        content.last() == '\n' ==> sliced(content, Some(0), None) + seq!['\n'] == content,
{
    text::law_lines_rejoin(content);
    let all = text::lines(content);
    assert(all.subrange(0, all.len() as int) =~= all);
}

/// without an offset a slice begins with the first line, and without either it is
/// the whole text as it is.
pub proof fn law_slice_defaults(content: Seq<char>, count: usize)
    ensures
        sliced(content, None, None) == content,
        sliced(content, None, Some(count)) == sliced(content, Some(0), Some(count)),
{
}

/// a slice and the one that begins where it ends make up the slice of both.
pub proof fn law_slices_meet(content: Seq<char>, offset: usize, count: usize)
    requires
        count > 0,
        offset + count < text::lines(content).len(),
        offset + count <= usize::MAX,
    ensures
        sliced(content, Some(offset), None) == sliced(content, Some(offset), Some(count)) + seq![
            '\n',
        ] + sliced(content, Some((offset + count) as usize), None),
{
    let all = text::lines(content);
    let n = all.len() as int;
    let m = offset + count;
    let a = all.subrange(offset as int, m);
    let b = all.subrange(m, n);
    assert(all.subrange(offset as int, n) =~= a + b);
    text::law_join_in_pieces(a, b, seq!['\n']);
}

/// the result of the `read` tool holds the content.
pub proof fn law_read_result(content: Seq<char>)
    ensures
        json::field(read_result(content), "content"@) == Some(Model::Text(content)),
        forall|k: Seq<char>|
            k != "content"@ ==> #[trigger] json::field(read_result(content), k) is None,
{
}

/// the result of the `bash` tool holds the exit code (-1 where a signal ended the
/// command), the output, and the error output where there is any.
pub proof fn law_bash_result(output: CommandOutput)
    ensures
        json::field(bash_result(output), "stdout"@) == Some(Model::Text(output.stdout@)),
        output.stderr@.len() > 0 ==> json::field(bash_result(output), "stderr"@) == Some(
            Model::Text(output.stderr@),
        ),
        output.stderr@.len() == 0 ==> json::field(bash_result(output), "stderr"@) is None,
        output.code is Some ==> json::field(bash_result(output), "exit_code"@) == Some(
            Model::Number(json::number_of_int(output.code->0 as i64)),
        ),
        output.code is None ==> json::field(bash_result(output), "exit_code"@) == Some(
            Model::Number(json::number_of_int(-1i64)),
        ),
{
    reveal_strlit("stdout");
    reveal_strlit("stderr");
    reveal_strlit("exit_code");
    assert("stdout"@[3] == 'o' && "stderr"@[3] == 'e');
    assert("stdout"@.len() == 6 && "stderr"@.len() == 6 && "exit_code"@.len() == 9);
}

/// the characters that can chain, redirect or substitute commands, the line endings
/// and the backslash.
pub open spec fn shell_characters() -> Seq<char> {
    seq![';', '|', '&', '`', '$', '(', ')', '{', '}', '<', '>', '\n', '\r', '!', '#', '\\']
}

/// a command is simple iff none of the characters that could make it do something
/// else stands in it, anywhere; and then so is each part of it.
pub proof fn law_simple_commands(command: Seq<char>, more: Seq<char>, i: int)
    ensures
        is_simple(command) <==> forall|j: int|
            0 <= j < command.len() ==> !shell_characters().contains(#[trigger] command[j]),
        is_simple(command + more) <==> is_simple(command) && is_simple(more),
        0 <= i < command.len() && (command[i] == ';' || command[i] == '|' || command[i] == '&'
            || command[i] == '`' || command[i] == '$' || command[i] == '>' || command[i] == '<'
            || command[i] == '\n') ==> !is_simple(command),
{
    let list = shell_characters();
    assert forall|c: char| list.contains(c) == #[trigger] is_metacharacter(c) by {
        assert(list[0] == ';' && list[1] == '|' && list[2] == '&' && list[3] == '`' && list[4]
            == '$' && list[5] == '(' && list[6] == ')' && list[7] == '{' && list[8] == '}'
            && list[9] == '<' && list[10] == '>' && list[11] == '\n' && list[12] == '\r'
            && list[13] == '!' && list[14] == '#' && list[15] == '\\');
    }
    if is_simple(command) {
        assert forall|j: int| 0 <= j < command.len() implies !list.contains(
            #[trigger] command[j],
        ) by {
            assert(!is_metacharacter(command[j]));
        }
    }
    if forall|j: int| 0 <= j < command.len() ==> !list.contains(#[trigger] command[j]) {
        assert forall|j: int| 0 <= j < command.len() implies !is_metacharacter(
            #[trigger] command[j],
        ) by {
            assert(!list.contains(command[j]));
        }
    }
    let both = command + more;
    if is_simple(both) {
        assert forall|j: int| 0 <= j < command.len() implies !is_metacharacter(
            #[trigger] command[j],
        ) by {
            assert(command[j] == both[j]);
        }
        assert forall|j: int| 0 <= j < more.len() implies !is_metacharacter(#[trigger] more[j]) by {
            assert(more[j] == both[command.len() + j]);
        }
    }
    if is_simple(command) && is_simple(more) {
        assert forall|j: int| 0 <= j < both.len() implies !is_metacharacter(#[trigger] both[j]) by {
            if j >= command.len() {
                assert(both[j] == more[j - command.len()]);
            }
        }
    }
}

/// a file is read where the permissions allow `read` for its path as it resolves,
/// by path rules; asked about where they ask; and refused where they deny.
pub proof fn law_read_gate(
    permissions: Map<Seq<char>, Rule>,
    cwd: Seq<char>,
    path: Seq<char>,
    offset: Option<usize>,
    count: Option<usize>,
)
    ensures
        ({
            let gate = gate_for(permissions, cwd, ArgsModel::Read { path, offset, count });
            let p = text::path_join(cwd, path);
            match permission::verdict(permissions, "read"@, p, true) {
                PermissionLevel::Allow => gate == GateModel::Pass,
                PermissionLevel::Ask => gate == GateModel::Ask { tool: "read"@, input: p },
                PermissionLevel::Deny => gate == GateModel::Refuse("permission denied: "@ + p),
            }
        }),
{
}

/// a simple command runs where the permissions allow `bash` for it, by command
/// rules; is asked about where they ask; and is refused where they deny.
pub proof fn law_command_gate(
    permissions: Map<Seq<char>, Rule>,
    cwd: Seq<char>,
    command: Seq<char>,
)
    requires
        is_simple(command),
    ensures
        ({
            let gate = gate_for(permissions, cwd, ArgsModel::Bash { command });
            match permission::verdict(permissions, "bash"@, command, false) {
                PermissionLevel::Allow => gate == GateModel::Pass,
                PermissionLevel::Ask => gate == GateModel::Ask { tool: "bash"@, input: command },
                PermissionLevel::Deny => gate == GateModel::Refuse(
                    "permission denied: "@ + command,
                ),
            }
        }),
{
}

/// a command with metacharacters runs only where `bash` is allowed for the empty
/// command, and the user sees the command itself where that is asked about.
pub proof fn law_complex_command_gate(
    permissions: Map<Seq<char>, Rule>,
    cwd: Seq<char>,
    command: Seq<char>,
)
    requires
        !is_simple(command),
    ensures
        ({
            let gate = gate_for(permissions, cwd, ArgsModel::Bash { command });
            match permission::verdict(permissions, "bash"@, Seq::empty(), false) {
                PermissionLevel::Allow => gate == GateModel::Pass,
                PermissionLevel::Ask => gate is Ask && gate->input == command,
                PermissionLevel::Deny => gate == GateModel::Refuse(
                    "permission denied (shell metacharacters): "@ + command,
                ),
            }
        }),
{
}

/// a call that nothing intercepts and the permissions allow does what its arguments
/// say: it reads that file, or runs that command.
pub proof fn law_allowed_calls_run(
    permissions: Map<Seq<char>, Rule>,
    cwd: Seq<char>,
    args: ArgsModel,
    before: BeforeTool,
)
    requires
        before.deny is None,
        before.args is None,
        before.result is None,
        gate_for(permissions, cwd, args) == GateModel::Pass,
    ensures
        ({
            let (state, action) = next(
                permissions,
                cwd,
                StateModel::Intercepting { args },
                CallEvent::Intercepted(before),
            );
            &&& state == StateModel::Executing { args }
            &&& args matches ArgsModel::Read { path, .. } ==> action == ActionModel::ReadFile(path)
            &&& args matches ArgsModel::Bash { command } ==> action == ActionModel::RunCommand(
                command,
            )
        }),
{
}

/// a call that the user agrees to runs with the arguments that the user was asked
/// about, and one that the user rejects ends with an error.
pub proof fn law_confirmation(
    permissions: Map<Seq<char>, Rule>,
    cwd: Seq<char>,
    args: ArgsModel,
    input: Seq<char>,
)
    ensures
        ({
            let state = StateModel::Confirming { args, input, result: None };
            let agreed = next(permissions, cwd, state, CallEvent::Confirmed(true));
            let rejected = next(permissions, cwd, state, CallEvent::Confirmed(false));
            &&& agreed.0 == StateModel::Executing { args }
            &&& args matches ArgsModel::Read { path, .. } ==> agreed.1 == ActionModel::ReadFile(
                path,
            )
            &&& args matches ArgsModel::Bash { command } ==> agreed.1 == ActionModel::RunCommand(
                command,
            )
            &&& rejected.1 == ActionModel::Finish(
                Err(ErrorModel::Call("permission denied (user rejected): "@ + input)),
            )
        }),
{
}

/// a result that the interception puts in place of the tool's is the output of a
/// call that passes, and the tool does not run.
pub proof fn law_synthetic_results_replace(
    permissions: Map<Seq<char>, Rule>,
    cwd: Seq<char>,
    args: ArgsModel,
    before: BeforeTool,
)
    requires
        before.deny is None,
        before.args is None,
        before.result is Some,
        gate_for(permissions, cwd, args) == GateModel::Pass,
    ensures
        next(
            permissions,
            cwd,
            StateModel::Intercepting { args },
            CallEvent::Intercepted(before),
        ).1 == ActionModel::Observe(before.result->0@),
{
}

/// arguments that the interception rewrites are read anew for the same tool, and
/// what is wrong with them ends the call.
pub proof fn law_rewritten_args_are_read(
    permissions: Map<Seq<char>, Rule>,
    cwd: Seq<char>,
    args: ArgsModel,
    before: BeforeTool,
    e: String,
    result: Option<Seq<char>>,
)
    requires
        before.deny is None,
        before.args is Some,
    ensures
        ({
            let (state, action) = next(
                permissions,
                cwd,
                StateModel::Intercepting { args },
                CallEvent::Intercepted(before),
            );
            &&& action == ActionModel::Parse(before.args->0@)
            &&& state is Parsing
            &&& state->Parsing_tool == Builtin::Read <==> args is Read
            &&& state->Parsing_result == text::text_opt(before.result)
            &&& next(
                permissions,
                cwd,
                StateModel::Parsing { tool: tool_of(args), result },
                CallEvent::Parsed(Err(e)),
            ).1 == ActionModel::Finish(
                Err(ErrorModel::Call("rewritten tool args invalid: "@ + e@)),
            )
        }),
{
}

/// what a read gives is the asked for slice of the file, as JSON, and what a command
/// gives is its result, as JSON; what cannot be read or run ends the call with the
/// error.
pub proof fn law_outputs(
    permissions: Map<Seq<char>, Rule>,
    cwd: Seq<char>,
    path: Seq<char>,
    offset: Option<usize>,
    count: Option<usize>,
    command: Seq<char>,
    content: String,
    output: CommandOutput,
    e: String,
)
    ensures
        ({
            let reading = StateModel::Executing { args: ArgsModel::Read { path, offset, count } };
            let running = StateModel::Executing { args: ArgsModel::Bash { command } };
            &&& next(permissions, cwd, reading, CallEvent::FileRead(Ok(content))).1
                == ActionModel::Observe(
                json::rendered(read_result(sliced(content@, offset, count))),
            )
            &&& next(permissions, cwd, reading, CallEvent::FileRead(Err(e))).1
                == ActionModel::Finish(
                Err(ErrorModel::Call(text::path_join(cwd, path) + ": "@ + e@)),
            )
            &&& next(permissions, cwd, running, CallEvent::CommandRun(Ok(output))).1
                == ActionModel::Observe(json::rendered(bash_result(output)))
            &&& next(permissions, cwd, running, CallEvent::CommandRun(Err(e))).1
                == ActionModel::Finish(Err(ErrorModel::Call("failed to execute: "@ + e@)))
        }),
{
}

/// what is observed is what the call ends with, unless the interception replaces it.
pub proof fn law_observed_output(
    permissions: Map<Seq<char>, Rule>,
    cwd: Seq<char>,
    state: StateModel,
    event: CallEvent,
    replacement: Option<String>,
)
    requires
        awaits(state, event),
        next(permissions, cwd, state, event).1 is Observe,
    ensures
        ({
            let (after, action) = next(permissions, cwd, state, event);
            next(permissions, cwd, after, CallEvent::Observed(replacement)).1
                == ActionModel::Finish(
                Ok(
                    if replacement is Some {
                        replacement->0@
                    } else {
                        action->Observe_0
                    },
                ),
            )
        }),
{
}

/// the arguments as JSON hold what is given, under the names of the parameters, and
/// nothing for what is not.
pub proof fn law_args_json(
    path: Seq<char>,
    offset: Option<usize>,
    count: Option<usize>,
    command: Seq<char>,
)
    ensures
        ({
            let read = args_model(ArgsModel::Read { path, offset, count });
            &&& json::field(read, "path"@) == Some(Model::Text(path))
            &&& json::field(read, "offset"@) == match offset {
                Some(n) => Some(Model::Number(json::number_of(n as u64))),
                None => None,
            }
            &&& json::field(read, "count"@) == match count {
                Some(n) => Some(Model::Number(json::number_of(n as u64))),
                None => None,
            }
            &&& json::field(args_model(ArgsModel::Bash { command }), "command"@) == Some(
                Model::Text(command),
            )
        }),
{
    reveal_strlit("path");
    reveal_strlit("offset");
    reveal_strlit("count");
    assert("path"@.len() == 4 && "offset"@.len() == 6 && "count"@.len() == 5);
}

/// the built-in tools that are active are offered, `read` first, and no others.
pub proof fn law_active_builtins(gates: Map<Seq<char>, bool>, list: Option<Vec<String>>)
    ensures
        ({
            let tools = active_builtins(gates, list);
            &&& tools.contains(Builtin::Read) <==> config::active(gates, "read"@, list)
            &&& tools.contains(Builtin::Bash) <==> config::active(gates, "bash"@, list)
            &&& tools.len() <= 2
            &&& tools.len() == 2 ==> tools[0] == Builtin::Read && tools[1] == Builtin::Bash
            &&& builtin_name(Builtin::Read) == "read"@
            &&& builtin_name(Builtin::Bash) == "bash"@
        }),
{
    let tools = active_builtins(gates, list);
    let read = config::active(gates, "read"@, list);
    let bash = config::active(gates, "bash"@, list);
    if read {
        assert(tools[0] == Builtin::Read);
    }
    if bash {
        assert(tools[tools.len() - 1] == Builtin::Bash);
    }
}

/// the field of a property in the schema of a tool.
pub open spec fn property_field(
    parameters: Model,
    property: Seq<char>,
    key: Seq<char>,
) -> Option<Model> {
    match json::field(parameters, "properties"@) {
        Some(p) => match json::field(p, property) {
            Some(f) => json::field(f, key),
            None => None,
        },
        None => None,
    }
}

/// the names of the parts of a schema are told apart.
proof fn lemma_schema_names()
    ensures
        "type"@ != "properties"@,
        "type"@ != "required"@,
        "properties"@ != "required"@,
        "type"@ != "description"@,
        "type"@ != "minimum"@,
        "description"@ != "minimum"@,
        "path"@ != "offset"@,
        "path"@ != "count"@,
        "offset"@ != "count"@,
{
    reveal_strlit("type");
    reveal_strlit("properties");
    reveal_strlit("required");
    reveal_strlit("description");
    reveal_strlit("minimum");
    reveal_strlit("path");
    reveal_strlit("offset");
    reveal_strlit("count");
    assert("type"@.len() == 4 && "properties"@.len() == 10 && "required"@.len() == 8
        && "description"@.len() == 11 && "minimum"@.len() == 7);
    assert("path"@.len() == 4 && "offset"@.len() == 6 && "count"@.len() == 5);
}

/// the `read` tool takes a path, which is required, and two line numbers that are
/// not: an offset from zero and a count from one.
pub proof fn law_read_definition()
    ensures
        ({
            let d = read_definition();
            &&& d.name == "read"@
            &&& d.description == "read the contents of a file"@
            &&& json::field(d.parameters, "type"@) == Some(Model::Text("object"@))
            &&& json::field(d.parameters, "required"@) == Some(
                Model::Array(seq![Model::Text("path"@)]),
            )
            &&& property_field(d.parameters, "path"@, "type"@) == Some(Model::Text("string"@))
            &&& property_field(d.parameters, "offset"@, "type"@) == Some(Model::Text("integer"@))
            &&& property_field(d.parameters, "count"@, "type"@) == Some(Model::Text("integer"@))
            &&& property_field(d.parameters, "offset"@, "minimum"@) == Some(
                Model::Number(json::number_of(0)),
            )
            &&& property_field(d.parameters, "count"@, "minimum"@) == Some(
                Model::Number(json::number_of(1)),
            )
            &&& property_field(d.parameters, "path"@, "description"@) == Some(
                Model::Text("absolute or relative path to the file to read"@),
            )
            &&& property_field(d.parameters, "offset"@, "description"@) == Some(
                Model::Text("0-indexed line number to start reading from (default: 0)"@),
            )
            &&& property_field(d.parameters, "count"@, "description"@) == Some(
                Model::Text("number of lines to read (default: read to end)"@),
            )
        }),
{
    lemma_schema_names();
}

/// the `bash` tool takes a command, which is required.
pub proof fn law_bash_definition()
    ensures
        ({
            let d = bash_definition();
            &&& d.name == "bash"@
            &&& d.description == "execute a bash command and return its output"@
            &&& json::field(d.parameters, "type"@) == Some(Model::Text("object"@))
            &&& json::field(d.parameters, "required"@) == Some(
                Model::Array(seq![Model::Text("command"@)]),
            )
            &&& property_field(d.parameters, "command"@, "type"@) == Some(Model::Text("string"@))
            &&& property_field(d.parameters, "command"@, "description"@) == Some(
                Model::Text(
                    "the bash command to execute. must be simple: no pipes, redirects, chaining, or shell metacharacters"@,
                ),
            )
        }),
{
    lemma_schema_names();
}

/// the models of definitions, arguments and gates tell what the values hold.
pub proof fn law_tool_models(d: ToolDefinition, args: ToolArgs, gate: Gate)
    ensures
        d@.name == d.name@,
        d@.description == d.description@,
        d@.parameters == d.parameters@,
        ({
            match args {
                ToolArgs::Read(a) => args@ == ArgsModel::Read {
                    path: a.path@,
                    offset: a.offset,
                    count: a.count,
                },
                ToolArgs::Bash(a) => args@ == ArgsModel::Bash { command: a.command@ },
            }
        }),
        ({
            match gate {
                Gate::Pass => gate@ == GateModel::Pass,
                Gate::Ask { tool, input } => gate@ == GateModel::Ask { tool: tool@, input: input@ },
                Gate::Refuse(m) => gate@ == GateModel::Refuse(m@),
            }
        }),
{
}

/// the models of states and actions tell what the values hold.
pub proof fn law_call_models(state: CallState, action: CallAction)
    ensures
        ({
            match state {
                CallState::Intercepting { args } => state@ == StateModel::Intercepting {
                    args: args@,
                },
                CallState::Parsing { tool, result } => state@ == StateModel::Parsing {
                    tool,
                    result: text::text_opt(result),
                },
                CallState::Confirming { args, input, result } => state@ == StateModel::Confirming {
                    args: args@,
                    input: input@,
                    result: text::text_opt(result),
                },
                CallState::Executing { args } => state@ == StateModel::Executing { args: args@ },
                CallState::Observing { output } => state@ == StateModel::Observing {
                    output: output@,
                },
                CallState::Finished => state@ == StateModel::Finished,
            }
        }),
        ({
            match action {
                CallAction::Parse(j) => action@ == ActionModel::Parse(j@),
                CallAction::Confirm { tool, input } => action@ == ActionModel::Confirm {
                    tool: tool@,
                    input: input@,
                },
                CallAction::ReadFile(s) => action@ == ActionModel::ReadFile(s@),
                CallAction::RunCommand(s) => action@ == ActionModel::RunCommand(s@),
                CallAction::Observe(s) => action@ == ActionModel::Observe(s@),
                CallAction::Finish(Ok(s)) => action@ == ActionModel::Finish(Ok(s@)),
                CallAction::Finish(Err(ToolError::ToolCallError(s))) => action@
                    == ActionModel::Finish(Err(ErrorModel::Call(s@))),
                CallAction::Finish(Err(ToolError::JsonError(s))) => action@ == ActionModel::Finish(
                    Err(ErrorModel::Json(s@)),
                ),
            }
        }),
{
}

/// two calls of a process have different correlation ids.
pub proof fn law_call_ids_differ(pid: nat, n: nat, m: nat)
    requires
        call_id_text(pid, n) == call_id_text(pid, m),
    ensures
        n == m,
        "hrns-"@.is_prefix_of(call_id_text(pid, n)),
{
    let head = "hrns-"@ + text::decimal(pid) + "-"@;
    let a = call_id_text(pid, n);
    let b = call_id_text(pid, m);
    assert(a == head + text::decimal(n));
    assert(a.skip(head.len() as int) =~= text::decimal(n));
    assert(b.skip(head.len() as int) =~= text::decimal(m));
    text::law_decimal(n);
    text::law_decimal(m);
    assert(a.subrange(0, "hrns-"@.len() as int) =~= "hrns-"@);
}

/// a call comes before the permissions with the arguments that it has: it is asked
/// about with the tool and the input that they name, and keeps its arguments and its
/// result until the answer; and a refusal ends it with its reason. rewritten arguments
/// come before them likewise.
pub proof fn law_gated_calls(
    permissions: Map<Seq<char>, Rule>,
    cwd: Seq<char>,
    first: ArgsModel,
    before: BeforeTool,
    args: ToolArgs,
)
    requires
        before.deny is None,
        before.args is None,
        tool_of(args@) == tool_of(first),
    ensures
        ({
            let result = text::text_opt(before.result);
            let plain = next(
                permissions,
                cwd,
                StateModel::Intercepting { args: first },
                CallEvent::Intercepted(before),
            );
            let rewritten = next(
                permissions,
                cwd,
                StateModel::Parsing { tool: tool_of(first), result },
                CallEvent::Parsed(Ok(args)),
            );
            &&& gate_for(permissions, cwd, first) matches GateModel::Ask { tool, input } ==> {
                &&& plain.1 == ActionModel::Confirm { tool, input }
                &&& plain.0 == StateModel::Confirming { args: first, input, result }
            }
            &&& gate_for(permissions, cwd, first) matches GateModel::Refuse(m) ==> plain.1
                == ActionModel::Finish(Err(ErrorModel::Call(m)))
            &&& gate_for(permissions, cwd, args@) matches GateModel::Ask { tool, input } ==> {
                &&& rewritten.1 == ActionModel::Confirm { tool, input }
                &&& rewritten.0 == StateModel::Confirming { args: args@, input, result }
            }
            &&& gate_for(permissions, cwd, args@) matches GateModel::Refuse(m) ==> rewritten.1
                == ActionModel::Finish(Err(ErrorModel::Call(m)))
            &&& gate_for(permissions, cwd, args@) == GateModel::Pass && result is None
                ==> rewritten.0 == StateModel::Executing { args: args@ }
            &&& gate_for(permissions, cwd, args@) == GateModel::Pass && result is Some
                ==> rewritten.1 == ActionModel::Observe(result->0)
        }),
{
}

/// a call of one tool goes on as a call of that tool: what it waits for after a
/// rewriting are arguments of the same one.
pub proof fn law_rewriting_keeps_the_tool(tool: Builtin, result: Option<Seq<char>>, args: ToolArgs)
    ensures
        awaits(StateModel::Parsing { tool, result }, CallEvent::Parsed(Ok(args))) <==> (tool
            == Builtin::Read <==> args is Read),
{
}

} // verus!
