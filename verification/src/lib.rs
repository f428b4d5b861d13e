//! hrns: the core of a one-shot agent runner. configuration, glob matching, the
//! permission model, agent/skill/markdown resolution, the built-in tools, the
//! host side of the hook protocol, the agent loop, and what the command line
//! program decides and shows.
//!
//! everything here computes on plain values. reading files, running scripts and
//! commands, asking the user and talking to a model provider is the business of
//! the caller, who hands in what came of it.

pub mod agent;
pub mod cli;
pub mod config;
pub mod glob;
pub mod hooks;
pub mod json;
pub mod merge;
pub mod permission;
pub mod resolve;
pub mod schema;
pub mod table;
pub mod text;
pub mod tools;

pub use agent::{history_texts, Attachment, Observer, RunConfig, RunOutcome};
pub use config::{
    load_config, resolve_provider, Config, HooksConfig, ProviderConfig, Resolved, SkillsConfig,
    ToolsConfig,
};
pub use glob::{glob_lookup, glob_matches};
pub use permission::{
    check_tool_permission, parse_permission_target, Permission, PermissionLevel,
    PermissionOverride, PermissionResolver, PermissionsConfig,
};
pub use resolve::{
    append_skills, build_system_prompt, find_all_in_dirs, load_agent, load_skill,
    parse_markdown_with_frontmatter, AgentFrontmatter, Kind, ParsedDoc, SkillFrontmatter,
};
pub use tools::{bash_tool_definition, read_tool_definition, BeforeTool};
