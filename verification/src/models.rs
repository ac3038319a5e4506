//! The values that the library works on.
//!
//! Each type that holds text has a `..View` type beside it, its value with texts
//! as sequences of characters; the contracts of the library speak of those.

use vstd::prelude::*;

use crate::text;

verus! {

/// The view of an optional value.
pub open spec fn opt_view<T: View>(o: Option<T>) -> Option<T::V> {
    match o {
        Some(x) => Some(x@),
        None => None,
    }
}

/// The views of a list of values.
pub open spec fn list_view<T: View>(v: Seq<T>) -> Seq<T::V> {
    v.map_values(|x: T| x@)
}

/// The texts of a list of pairs of strings.
pub open spec fn pairs_view(v: Seq<(String, String)>) -> Seq<(Seq<char>, Seq<char>)> {
    v.map_values(|x: (String, String)| (x.0@, x.1@))
}

/// A copy of a list of pairs of strings.
pub fn clone_pairs(v: &Vec<(String, String)>) -> (r: Vec<(String, String)>)
    ensures
        pairs_view(r@) == pairs_view(v@),
{
    let mut out: Vec<(String, String)> = Vec::new();
    let mut i: usize = 0;
    while i < v.len()
        invariant
            i <= v.len(),
            out.len() == i,
            forall|j: int|
                0 <= j < i ==> (#[trigger] out@[j]).0@ == v@[j].0@ && out@[j].1@ == v@[j].1@,
        decreases v.len() - i,
    {
        out.push((v[i].0.clone(), v[i].1.clone()));
        i += 1;
    }
    assert(pairs_view(out@) =~= pairs_view(v@));
    out
}

/// The operating system.
#[derive(Clone, Copy, PartialEq, Eq, Structural, Debug)]
pub enum Platform {
    MacOs,
    Linux,
    Windows,
    Other,
}

/// A point in time: seconds since the start of 1970, and nanoseconds past them.
#[derive(Clone, Copy, PartialEq, Eq, Structural, Debug)]
pub struct Timestamp {
    pub secs: i64,
    pub nanos: u32,
}

/// What an extension is.
#[derive(Clone, Copy, PartialEq, Eq, Structural, Debug)]
pub enum ExtensionKind {
    Skill,
    Mcp,
    Hook,
    Plugin,
    Cli,
    Subagent,
    Command,
}

impl ExtensionKind {
    /// The name of the kind, as it stands in keys and messages.
    pub open spec fn text(self) -> Seq<char> {
        match self {
            ExtensionKind::Skill => "skill"@,
            ExtensionKind::Mcp => "mcp"@,
            ExtensionKind::Hook => "hook"@,
            ExtensionKind::Plugin => "plugin"@,
            ExtensionKind::Cli => "cli"@,
            ExtensionKind::Subagent => "subagent"@,
            ExtensionKind::Command => "command"@,
        }
    }

    /// The name of the kind, as it stands in keys and messages.
    pub fn as_str(&self) -> (r: &'static str)
        ensures
            r@ == self.text(),
    {
        match self {
            ExtensionKind::Skill => "skill",
            ExtensionKind::Mcp => "mcp",
            ExtensionKind::Hook => "hook",
            ExtensionKind::Plugin => "plugin",
            ExtensionKind::Cli => "cli",
            ExtensionKind::Subagent => "subagent",
            ExtensionKind::Command => "command",
        }
    }
}

/// Where an extension comes from.
#[derive(Clone, Copy, PartialEq, Eq, Structural, Debug)]
pub enum SourceOrigin {
    Git,
    Registry,
    Agent,
    Local,
}

/// What a configuration file of an agent is for.
#[derive(Clone, Copy, PartialEq, Eq, Structural, Debug)]
pub enum ConfigCategory {
    Rules,
    Memory,
    Subagents,
    Settings,
    Workflow,
    Ignore,
}

impl ConfigCategory {
    /// The place of the category in a listing.
    pub open spec fn rank(self) -> u8 {
        match self {
            ConfigCategory::Rules => 0,
            ConfigCategory::Memory => 1,
            ConfigCategory::Subagents => 2,
            ConfigCategory::Settings => 3,
            ConfigCategory::Workflow => 4,
            ConfigCategory::Ignore => 5,
        }
    }

    /// The place of the category in a listing.
    pub fn order(&self) -> (r: u8)
        ensures
            r == self.rank(),
    {
        match self {
            ConfigCategory::Rules => 0,
            ConfigCategory::Memory => 1,
            ConfigCategory::Subagents => 2,
            ConfigCategory::Settings => 3,
            ConfigCategory::Workflow => 4,
            ConfigCategory::Ignore => 5,
        }
    }
}

/// How grave a finding is.
#[derive(Clone, Copy, PartialEq, Eq, Structural, Debug)]
pub enum Severity {
    Critical,
    High,
    Medium,
    Low,
}

/// Where an extension applies.
#[derive(Debug)]
pub enum ConfigScope {
    /// For the user, everywhere.
    Global,
    /// In one project.
    Project { name: String, path: String },
}

/// The mathematical value of a [`ConfigScope`].
#[verifier::ext_equal]
pub enum ConfigScopeView {
    Global,
    Project { name: Seq<char>, path: Seq<char> },
}

impl View for ConfigScope {
    type V = ConfigScopeView;

    open spec fn view(&self) -> ConfigScopeView {
        match self {
            ConfigScope::Global => ConfigScopeView::Global,
            ConfigScope::Project { name, path } => ConfigScopeView::Project {
                name: name@,
                path: path@,
            },
        }
    }
}

impl Clone for ConfigScope {
    fn clone(&self) -> (r: Self)
        ensures
            r@ == self@,
    {
        match self {
            ConfigScope::Global => ConfigScope::Global,
            ConfigScope::Project { name, path } => ConfigScope::Project {
                name: name.clone(),
                path: path.clone(),
            },
        }
    }
}

impl ConfigScope {
    /// Whether the scope is the global one.
    pub fn is_global(&self) -> (r: bool)
        ensures
            r == (self@ == ConfigScopeView::Global),
    {
        match self {
            ConfigScope::Global => true,
            _ => false,
        }
    }
}

/// Something that an extension may do.
#[derive(Debug)]
pub enum Permission {
    FileSystem { paths: Vec<String> },
    Network { domains: Vec<String> },
    Shell { commands: Vec<String> },
    Database { engines: Vec<String> },
    Env { keys: Vec<String> },
}

/// The mathematical value of a [`Permission`].
#[verifier::ext_equal]
pub enum PermissionView {
    FileSystem { paths: Seq<Seq<char>> },
    Network { domains: Seq<Seq<char>> },
    Shell { commands: Seq<Seq<char>> },
    Database { engines: Seq<Seq<char>> },
    Env { keys: Seq<Seq<char>> },
}

impl View for Permission {
    type V = PermissionView;

    open spec fn view(&self) -> PermissionView {
        match self {
            Permission::FileSystem { paths } => PermissionView::FileSystem {
                paths: text::strs(paths@),
            },
            Permission::Network { domains } => PermissionView::Network {
                domains: text::strs(domains@),
            },
            Permission::Shell { commands } => PermissionView::Shell {
                commands: text::strs(commands@),
            },
            Permission::Database { engines } => PermissionView::Database {
                engines: text::strs(engines@),
            },
            Permission::Env { keys } => PermissionView::Env { keys: text::strs(keys@) },
        }
    }
}

impl Clone for Permission {
    fn clone(&self) -> (r: Self)
        ensures
            r@ == self@,
    {
        match self {
            Permission::FileSystem { paths } => Permission::FileSystem {
                paths: text::clone_strings(paths),
            },
            Permission::Network { domains } => Permission::Network {
                domains: text::clone_strings(domains),
            },
            Permission::Shell { commands } => Permission::Shell {
                commands: text::clone_strings(commands),
            },
            Permission::Database { engines } => Permission::Database {
                engines: text::clone_strings(engines),
            },
            Permission::Env { keys } => Permission::Env { keys: text::clone_strings(keys) },
        }
    }
}

/// A copy of a list, item by item.
pub fn clone_permissions(v: &Vec<Permission>) -> (r: Vec<Permission>)
    ensures
        list_view(r@) == list_view(v@),
{
    let mut out: Vec<Permission> = Vec::new();
    let mut i: usize = 0;
    while i < v.len()
        invariant
            i <= v.len(),
            out.len() == i,
            forall|j: int| 0 <= j < i ==> (#[trigger] out@[j])@ == v@[j]@,
        decreases v.len() - i,
    {
        out.push(v[i].clone());
        i += 1;
    }
    assert(list_view(out@) =~= list_view(v@));
    out
}

/// The source that an extension is attributed to.
#[derive(Debug)]
pub struct Source {
    /// Where it comes from.
    pub origin: SourceOrigin,
    /// The address of its repository.
    pub url: Option<String>,
    /// Its version.
    pub version: Option<String>,
    /// The commit that is checked out.
    pub commit_hash: Option<String>,
    /// Whether a manifest names the source, so that it is not inferred.
    pub from_manifest: bool,
}

/// The mathematical value of a [`Source`].
#[verifier::ext_equal]
pub struct SourceView {
    pub origin: SourceOrigin,
    pub url: Option<Seq<char>>,
    pub version: Option<Seq<char>>,
    pub commit_hash: Option<Seq<char>>,
    pub from_manifest: bool,
}

impl View for Source {
    type V = SourceView;

    open spec fn view(&self) -> SourceView {
        SourceView {
            origin: self.origin,
            url: text::ostr(self.url),
            version: text::ostr(self.version),
            commit_hash: text::ostr(self.commit_hash),
            from_manifest: self.from_manifest,
        }
    }
}

impl Clone for Source {
    fn clone(&self) -> (r: Self)
        ensures
            r@ == self@,
    {
        Source {
            origin: self.origin,
            url: text::clone_opt(&self.url),
            version: text::clone_opt(&self.version),
            commit_hash: text::clone_opt(&self.commit_hash),
            from_manifest: self.from_manifest,
        }
    }
}

/// How an extension was installed.
#[derive(Debug)]
pub struct InstallMeta {
    /// The way of installing: `git`, `marketplace`, `manual`, ...
    pub install_type: String,
    /// The address that was given.
    pub url: Option<String>,
    /// The address that it led to.
    pub url_resolved: Option<String>,
    /// The branch that was taken.
    pub branch: Option<String>,
    /// The directory inside the repository.
    pub subpath: Option<String>,
    /// The revision that is installed.
    pub revision: Option<String>,
    /// The newest revision that was seen.
    pub remote_revision: Option<String>,
    /// When the newest revision was looked up.
    pub checked_at: Option<Timestamp>,
    /// Why looking it up failed.
    pub check_error: Option<String>,
}

/// The mathematical value of a [`InstallMeta`].
#[verifier::ext_equal]
pub struct InstallMetaView {
    pub install_type: Seq<char>,
    pub url: Option<Seq<char>>,
    pub url_resolved: Option<Seq<char>>,
    pub branch: Option<Seq<char>>,
    pub subpath: Option<Seq<char>>,
    pub revision: Option<Seq<char>>,
    pub remote_revision: Option<Seq<char>>,
    pub checked_at: Option<Timestamp>,
    pub check_error: Option<Seq<char>>,
}

impl View for InstallMeta {
    type V = InstallMetaView;

    open spec fn view(&self) -> InstallMetaView {
        InstallMetaView {
            install_type: self.install_type@,
            url: text::ostr(self.url),
            url_resolved: text::ostr(self.url_resolved),
            branch: text::ostr(self.branch),
            subpath: text::ostr(self.subpath),
            revision: text::ostr(self.revision),
            remote_revision: text::ostr(self.remote_revision),
            checked_at: self.checked_at,
            check_error: text::ostr(self.check_error),
        }
    }
}

impl Clone for InstallMeta {
    fn clone(&self) -> (r: Self)
        ensures
            r@ == self@,
    {
        InstallMeta {
            install_type: self.install_type.clone(),
            url: text::clone_opt(&self.url),
            url_resolved: text::clone_opt(&self.url_resolved),
            branch: text::clone_opt(&self.branch),
            subpath: text::clone_opt(&self.subpath),
            revision: text::clone_opt(&self.revision),
            remote_revision: text::clone_opt(&self.remote_revision),
            checked_at: self.checked_at,
            check_error: text::clone_opt(&self.check_error),
        }
    }
}

/// What is known of the binary of a command line tool.
#[derive(Debug)]
pub struct CliMeta {
    /// The name of the binary.
    pub binary_name: String,
    /// Where the binary lies.
    pub binary_path: Option<String>,
    /// The package manager that installed it.
    pub install_method: Option<String>,
    /// Where its credentials lie.
    pub credentials_path: Option<String>,
    /// Its version.
    pub version: Option<String>,
    /// The domains that it talks to.
    pub api_domains: Vec<String>,
}

/// The mathematical value of a [`CliMeta`].
#[verifier::ext_equal]
pub struct CliMetaView {
    pub binary_name: Seq<char>,
    pub binary_path: Option<Seq<char>>,
    pub install_method: Option<Seq<char>>,
    pub credentials_path: Option<Seq<char>>,
    pub version: Option<Seq<char>>,
    pub api_domains: Seq<Seq<char>>,
}

impl View for CliMeta {
    type V = CliMetaView;

    open spec fn view(&self) -> CliMetaView {
        CliMetaView {
            binary_name: self.binary_name@,
            binary_path: text::ostr(self.binary_path),
            install_method: text::ostr(self.install_method),
            credentials_path: text::ostr(self.credentials_path),
            version: text::ostr(self.version),
            api_domains: text::strs(self.api_domains@),
        }
    }
}

impl Clone for CliMeta {
    fn clone(&self) -> (r: Self)
        ensures
            r@ == self@,
    {
        CliMeta {
            binary_name: self.binary_name.clone(),
            binary_path: text::clone_opt(&self.binary_path),
            install_method: text::clone_opt(&self.install_method),
            credentials_path: text::clone_opt(&self.credentials_path),
            version: text::clone_opt(&self.version),
            api_domains: text::clone_strings(&self.api_domains),
        }
    }
}

/// One extension of one or more agents.
#[derive(Debug)]
pub struct Extension {
    /// The stable identifier.
    pub id: String,
    /// What it is.
    pub kind: ExtensionKind,
    /// Its name.
    pub name: String,
    /// What it does, in words.
    pub description: String,
    /// Where it comes from.
    pub source: Source,
    /// The agents that have it.
    pub agents: Vec<String>,
    /// Tags that the user gave.
    pub tags: Vec<String>,
    /// The `owner/repo` that it is grouped under.
    pub pack: Option<String>,
    /// What it may do.
    pub permissions: Vec<Permission>,
    /// Whether the agent loads it.
    pub enabled: bool,
    /// The score of the last audit.
    pub trust_score: Option<u8>,
    /// When it was installed.
    pub installed_at: Timestamp,
    /// When it last changed.
    pub updated_at: Timestamp,
    /// The file or directory that it was found at.
    pub source_path: Option<String>,
    /// The command line tool that it belongs to.
    pub cli_parent_id: Option<String>,
    /// What is known of its binary.
    pub cli_meta: Option<CliMeta>,
    /// How it was installed.
    pub install_meta: Option<InstallMeta>,
    /// Where it applies.
    pub scope: ConfigScope,
}

/// The mathematical value of a [`Extension`].
#[verifier::ext_equal]
pub struct ExtensionView {
    pub id: Seq<char>,
    pub kind: ExtensionKind,
    pub name: Seq<char>,
    pub description: Seq<char>,
    pub source: SourceView,
    pub agents: Seq<Seq<char>>,
    pub tags: Seq<Seq<char>>,
    pub pack: Option<Seq<char>>,
    pub permissions: Seq<PermissionView>,
    pub enabled: bool,
    pub trust_score: Option<u8>,
    pub installed_at: Timestamp,
    pub updated_at: Timestamp,
    pub source_path: Option<Seq<char>>,
    pub cli_parent_id: Option<Seq<char>>,
    pub cli_meta: Option<CliMetaView>,
    pub install_meta: Option<InstallMetaView>,
    pub scope: ConfigScopeView,
}

impl View for Extension {
    type V = ExtensionView;

    open spec fn view(&self) -> ExtensionView {
        ExtensionView {
            id: self.id@,
            kind: self.kind,
            name: self.name@,
            description: self.description@,
            source: self.source@,
            agents: text::strs(self.agents@),
            tags: text::strs(self.tags@),
            pack: text::ostr(self.pack),
            permissions: list_view(self.permissions@),
            enabled: self.enabled,
            trust_score: self.trust_score,
            installed_at: self.installed_at,
            updated_at: self.updated_at,
            source_path: text::ostr(self.source_path),
            cli_parent_id: text::ostr(self.cli_parent_id),
            cli_meta: opt_view(self.cli_meta),
            install_meta: opt_view(self.install_meta),
            scope: self.scope@,
        }
    }
}

impl Clone for Extension {
    fn clone(&self) -> (r: Self)
        ensures
            r@ == self@,
    {
        Extension {
            id: self.id.clone(),
            kind: self.kind,
            name: self.name.clone(),
            description: self.description.clone(),
            source: self.source.clone(),
            agents: text::clone_strings(&self.agents),
            tags: text::clone_strings(&self.tags),
            pack: text::clone_opt(&self.pack),
            permissions: clone_permissions(&self.permissions),
            enabled: self.enabled,
            trust_score: self.trust_score,
            installed_at: self.installed_at,
            updated_at: self.updated_at,
            source_path: text::clone_opt(&self.source_path),
            cli_parent_id: text::clone_opt(&self.cli_parent_id),
            cli_meta: match &self.cli_meta {
                Some(x) => Some(x.clone()),
                None => None,
            },
            install_meta: match &self.install_meta {
                Some(x) => Some(x.clone()),
                None => None,
            },
            scope: self.scope.clone(),
        }
    }
}

/// One server of a configuration file.
#[derive(Debug)]
pub struct McpServerEntry {
    /// The name of the server.
    pub name: String,
    /// The program that is run.
    pub command: String,
    /// Its arguments.
    pub args: Vec<String>,
    /// The variables that are set for it.
    pub env: Vec<(String, String)>,
    /// Whether the agent loads it.
    pub enabled: bool,
}

/// The mathematical value of a [`McpServerEntry`].
#[verifier::ext_equal]
pub struct McpServerEntryView {
    pub name: Seq<char>,
    pub command: Seq<char>,
    pub args: Seq<Seq<char>>,
    pub env: Seq<(Seq<char>, Seq<char>)>,
    pub enabled: bool,
}

impl View for McpServerEntry {
    type V = McpServerEntryView;

    open spec fn view(&self) -> McpServerEntryView {
        McpServerEntryView {
            name: self.name@,
            command: self.command@,
            args: text::strs(self.args@),
            env: pairs_view(self.env@),
            enabled: self.enabled,
        }
    }
}

impl Clone for McpServerEntry {
    fn clone(&self) -> (r: Self)
        ensures
            r@ == self@,
    {
        McpServerEntry {
            name: self.name.clone(),
            command: self.command.clone(),
            args: text::clone_strings(&self.args),
            env: clone_pairs(&self.env),
            enabled: self.enabled,
        }
    }
}

/// One hook of a configuration file.
#[derive(Debug)]
pub struct HookEntry {
    /// The event that triggers it.
    pub event: String,
    /// What the event must match.
    pub matcher: Option<String>,
    /// The command that is run.
    pub command: String,
    /// Whether the agent loads it.
    pub enabled: bool,
}

/// The mathematical value of a [`HookEntry`].
#[verifier::ext_equal]
pub struct HookEntryView {
    pub event: Seq<char>,
    pub matcher: Option<Seq<char>>,
    pub command: Seq<char>,
    pub enabled: bool,
}

impl View for HookEntry {
    type V = HookEntryView;

    open spec fn view(&self) -> HookEntryView {
        HookEntryView {
            event: self.event@,
            matcher: text::ostr(self.matcher),
            command: self.command@,
            enabled: self.enabled,
        }
    }
}

impl Clone for HookEntry {
    fn clone(&self) -> (r: Self)
        ensures
            r@ == self@,
    {
        HookEntry {
            event: self.event.clone(),
            matcher: text::clone_opt(&self.matcher),
            command: self.command.clone(),
            enabled: self.enabled,
        }
    }
}

/// One plugin that an agent reports.
#[derive(Debug)]
pub struct PluginEntry {
    /// The name of the plugin.
    pub name: String,
    /// Where the agent had it from; empty if unknown.
    pub source: String,
    /// Whether the agent loads it.
    pub enabled: bool,
    /// The directory or file that holds it.
    pub path: Option<String>,
    /// The address under which the editor lists it.
    pub uri: Option<String>,
    /// When it was installed.
    pub installed_at: Option<Timestamp>,
    /// When it last changed.
    pub updated_at: Option<Timestamp>,
    /// The repository that a manifest names.
    pub source_url: Option<String>,
}

/// The mathematical value of a [`PluginEntry`].
#[verifier::ext_equal]
pub struct PluginEntryView {
    pub name: Seq<char>,
    pub source: Seq<char>,
    pub enabled: bool,
    pub path: Option<Seq<char>>,
    pub uri: Option<Seq<char>>,
    pub installed_at: Option<Timestamp>,
    pub updated_at: Option<Timestamp>,
    pub source_url: Option<Seq<char>>,
}

impl View for PluginEntry {
    type V = PluginEntryView;

    open spec fn view(&self) -> PluginEntryView {
        PluginEntryView {
            name: self.name@,
            source: self.source@,
            enabled: self.enabled,
            path: text::ostr(self.path),
            uri: text::ostr(self.uri),
            installed_at: self.installed_at,
            updated_at: self.updated_at,
            source_url: text::ostr(self.source_url),
        }
    }
}

impl Clone for PluginEntry {
    fn clone(&self) -> (r: Self)
        ensures
            r@ == self@,
    {
        PluginEntry {
            name: self.name.clone(),
            source: self.source.clone(),
            enabled: self.enabled,
            path: text::clone_opt(&self.path),
            uri: text::clone_opt(&self.uri),
            installed_at: self.installed_at,
            updated_at: self.updated_at,
            source_url: text::clone_opt(&self.source_url),
        }
    }
}

/// One configuration file of an agent.
#[derive(Debug)]
pub struct AgentConfigFile {
    /// Where it lies.
    pub path: String,
    /// The agent that reads it.
    pub agent: String,
    /// What it is for.
    pub category: ConfigCategory,
    /// Where it applies.
    pub scope: ConfigScope,
    /// The last component of its path.
    pub file_name: String,
    /// Its size.
    pub size_bytes: u64,
    /// When it last changed.
    pub modified_at: Option<Timestamp>,
    /// Whether it is a directory.
    pub is_dir: bool,
    /// Whether it exists.
    pub exists: bool,
    /// The number of the entry that the user added.
    pub custom_id: Option<i64>,
    /// The label that the user gave.
    pub custom_label: Option<String>,
}

/// The mathematical value of a [`AgentConfigFile`].
#[verifier::ext_equal]
pub struct AgentConfigFileView {
    pub path: Seq<char>,
    pub agent: Seq<char>,
    pub category: ConfigCategory,
    pub scope: ConfigScopeView,
    pub file_name: Seq<char>,
    pub size_bytes: u64,
    pub modified_at: Option<Timestamp>,
    pub is_dir: bool,
    pub exists: bool,
    pub custom_id: Option<i64>,
    pub custom_label: Option<Seq<char>>,
}

impl View for AgentConfigFile {
    type V = AgentConfigFileView;

    open spec fn view(&self) -> AgentConfigFileView {
        AgentConfigFileView {
            path: self.path@,
            agent: self.agent@,
            category: self.category,
            scope: self.scope@,
            file_name: self.file_name@,
            size_bytes: self.size_bytes,
            modified_at: self.modified_at,
            is_dir: self.is_dir,
            exists: self.exists,
            custom_id: self.custom_id,
            custom_label: text::ostr(self.custom_label),
        }
    }
}

impl Clone for AgentConfigFile {
    fn clone(&self) -> (r: Self)
        ensures
            r@ == self@,
    {
        AgentConfigFile {
            path: self.path.clone(),
            agent: self.agent.clone(),
            category: self.category,
            scope: self.scope.clone(),
            file_name: self.file_name.clone(),
            size_bytes: self.size_bytes,
            modified_at: self.modified_at,
            is_dir: self.is_dir,
            exists: self.exists,
            custom_id: self.custom_id,
            custom_label: text::clone_opt(&self.custom_label),
        }
    }
}

/// A project that was found on disk.
#[derive(Debug)]
pub struct DiscoveredProject {
    /// The name of its directory.
    pub name: String,
    /// Where it lies.
    pub path: String,
}

/// The mathematical value of a [`DiscoveredProject`].
#[verifier::ext_equal]
pub struct DiscoveredProjectView {
    pub name: Seq<char>,
    pub path: Seq<char>,
}

impl View for DiscoveredProject {
    type V = DiscoveredProjectView;

    open spec fn view(&self) -> DiscoveredProjectView {
        DiscoveredProjectView {
            name: self.name@,
            path: self.path@,
        }
    }
}

impl Clone for DiscoveredProject {
    fn clone(&self) -> (r: Self)
        ensures
            r@ == self@,
    {
        DiscoveredProject {
            name: self.name.clone(),
            path: self.path.clone(),
        }
    }
}

/// Where a skill lies on disk.
#[derive(Debug)]
pub struct SkillLocation {
    /// The directory of the skill, or its single file.
    pub entry_path: String,
    /// The file with the text of the skill.
    pub skill_file: String,
    /// The directory of skills that it was found under.
    pub skill_dir: String,
}

/// The mathematical value of a [`SkillLocation`].
#[verifier::ext_equal]
pub struct SkillLocationView {
    pub entry_path: Seq<char>,
    pub skill_file: Seq<char>,
    pub skill_dir: Seq<char>,
}

impl View for SkillLocation {
    type V = SkillLocationView;

    open spec fn view(&self) -> SkillLocationView {
        SkillLocationView {
            entry_path: self.entry_path@,
            skill_file: self.skill_file@,
            skill_dir: self.skill_dir@,
        }
    }
}

impl Clone for SkillLocation {
    fn clone(&self) -> (r: Self)
        ensures
            r@ == self@,
    {
        SkillLocation {
            entry_path: self.entry_path.clone(),
            skill_file: self.skill_file.clone(),
            skill_dir: self.skill_dir.clone(),
        }
    }
}

/// The text of an extension, for display.
#[derive(Debug)]
pub struct ExtensionContent {
    /// The text.
    pub content: String,
    /// Where it lies.
    pub path: Option<String>,
    /// What the entry is a link to.
    pub symlink_target: Option<String>,
}

/// The mathematical value of a [`ExtensionContent`].
#[verifier::ext_equal]
pub struct ExtensionContentView {
    pub content: Seq<char>,
    pub path: Option<Seq<char>>,
    pub symlink_target: Option<Seq<char>>,
}

impl View for ExtensionContent {
    type V = ExtensionContentView;

    open spec fn view(&self) -> ExtensionContentView {
        ExtensionContentView {
            content: self.content@,
            path: text::ostr(self.path),
            symlink_target: text::ostr(self.symlink_target),
        }
    }
}

impl Clone for ExtensionContent {
    fn clone(&self) -> (r: Self)
        ensures
            r@ == self@,
    {
        ExtensionContent {
            content: self.content.clone(),
            path: text::clone_opt(&self.path),
            symlink_target: text::clone_opt(&self.symlink_target),
        }
    }
}

/// What an audit of one extension reads.
#[derive(Debug)]
pub struct AuditInput {
    /// The identifier of the extension.
    pub extension_id: String,
    /// What it is.
    pub kind: ExtensionKind,
    /// Its name.
    pub name: String,
    /// The text to look at.
    pub content: String,
    /// Where it comes from.
    pub source: Source,
    /// Where the text lies.
    pub file_path: String,
    /// The program of a server.
    pub mcp_command: Option<String>,
    /// The arguments of a server.
    pub mcp_args: Vec<String>,
    /// The variables of a server.
    pub mcp_env: Vec<(String, String)>,
    /// When it was installed.
    pub installed_at: Timestamp,
    /// When it last changed.
    pub updated_at: Timestamp,
    /// What it may do.
    pub permissions: Vec<Permission>,
    /// The command line tool that it belongs to.
    pub cli_parent_id: Option<String>,
    /// What is known of its binary.
    pub cli_meta: Option<CliMeta>,
    /// What its children may do.
    pub child_permissions: Vec<Permission>,
    /// The `owner/repo` that it is grouped under.
    pub pack: Option<String>,
}

/// The mathematical value of a [`AuditInput`].
#[verifier::ext_equal]
pub struct AuditInputView {
    pub extension_id: Seq<char>,
    pub kind: ExtensionKind,
    pub name: Seq<char>,
    pub content: Seq<char>,
    pub source: SourceView,
    pub file_path: Seq<char>,
    pub mcp_command: Option<Seq<char>>,
    pub mcp_args: Seq<Seq<char>>,
    pub mcp_env: Seq<(Seq<char>, Seq<char>)>,
    pub installed_at: Timestamp,
    pub updated_at: Timestamp,
    pub permissions: Seq<PermissionView>,
    pub cli_parent_id: Option<Seq<char>>,
    pub cli_meta: Option<CliMetaView>,
    pub child_permissions: Seq<PermissionView>,
    pub pack: Option<Seq<char>>,
}

impl View for AuditInput {
    type V = AuditInputView;

    open spec fn view(&self) -> AuditInputView {
        AuditInputView {
            extension_id: self.extension_id@,
            kind: self.kind,
            name: self.name@,
            content: self.content@,
            source: self.source@,
            file_path: self.file_path@,
            mcp_command: text::ostr(self.mcp_command),
            mcp_args: text::strs(self.mcp_args@),
            mcp_env: pairs_view(self.mcp_env@),
            installed_at: self.installed_at,
            updated_at: self.updated_at,
            permissions: list_view(self.permissions@),
            cli_parent_id: text::ostr(self.cli_parent_id),
            cli_meta: opt_view(self.cli_meta),
            child_permissions: list_view(self.child_permissions@),
            pack: text::ostr(self.pack),
        }
    }
}

impl Clone for AuditInput {
    fn clone(&self) -> (r: Self)
        ensures
            r@ == self@,
    {
        AuditInput {
            extension_id: self.extension_id.clone(),
            kind: self.kind,
            name: self.name.clone(),
            content: self.content.clone(),
            source: self.source.clone(),
            file_path: self.file_path.clone(),
            mcp_command: text::clone_opt(&self.mcp_command),
            mcp_args: text::clone_strings(&self.mcp_args),
            mcp_env: clone_pairs(&self.mcp_env),
            installed_at: self.installed_at,
            updated_at: self.updated_at,
            permissions: clone_permissions(&self.permissions),
            cli_parent_id: text::clone_opt(&self.cli_parent_id),
            cli_meta: match &self.cli_meta {
                Some(x) => Some(x.clone()),
                None => None,
            },
            child_permissions: clone_permissions(&self.child_permissions),
            pack: text::clone_opt(&self.pack),
        }
    }
}

/// One finding of an audit.
#[derive(Debug)]
pub struct AuditFinding {
    /// The rule that fired.
    pub rule_id: String,
    /// How grave it is.
    pub severity: Severity,
    /// What was found.
    pub message: String,
    /// Where it was found.
    pub location: String,
}

/// The mathematical value of a [`AuditFinding`].
#[verifier::ext_equal]
pub struct AuditFindingView {
    pub rule_id: Seq<char>,
    pub severity: Severity,
    pub message: Seq<char>,
    pub location: Seq<char>,
}

impl View for AuditFinding {
    type V = AuditFindingView;

    open spec fn view(&self) -> AuditFindingView {
        AuditFindingView {
            rule_id: self.rule_id@,
            severity: self.severity,
            message: self.message@,
            location: self.location@,
        }
    }
}

impl Clone for AuditFinding {
    fn clone(&self) -> (r: Self)
        ensures
            r@ == self@,
    {
        AuditFinding {
            rule_id: self.rule_id.clone(),
            severity: self.severity,
            message: self.message.clone(),
            location: self.location.clone(),
        }
    }
}

/// A copy of a list, item by item.
pub fn clone_audit_findings(v: &Vec<AuditFinding>) -> (r: Vec<AuditFinding>)
    ensures
        list_view(r@) == list_view(v@),
{
    let mut out: Vec<AuditFinding> = Vec::new();
    let mut i: usize = 0;
    while i < v.len()
        invariant
            i <= v.len(),
            out.len() == i,
            forall|j: int| 0 <= j < i ==> (#[trigger] out@[j])@ == v@[j]@,
        decreases v.len() - i,
    {
        out.push(v[i].clone());
        i += 1;
    }
    assert(list_view(out@) =~= list_view(v@));
    out
}

/// The outcome of an audit of one extension.
#[derive(Debug)]
pub struct AuditResult {
    /// The extension that was audited.
    pub extension_id: String,
    /// What was found.
    pub findings: Vec<AuditFinding>,
    /// The score that follows.
    pub trust_score: u8,
    /// When the audit was made.
    pub audited_at: Timestamp,
}

/// The mathematical value of a [`AuditResult`].
#[verifier::ext_equal]
pub struct AuditResultView {
    pub extension_id: Seq<char>,
    pub findings: Seq<AuditFindingView>,
    pub trust_score: u8,
    pub audited_at: Timestamp,
}

impl View for AuditResult {
    type V = AuditResultView;

    open spec fn view(&self) -> AuditResultView {
        AuditResultView {
            extension_id: self.extension_id@,
            findings: list_view(self.findings@),
            trust_score: self.trust_score,
            audited_at: self.audited_at,
        }
    }
}

impl Clone for AuditResult {
    fn clone(&self) -> (r: Self)
        ensures
            r@ == self@,
    {
        AuditResult {
            extension_id: self.extension_id.clone(),
            findings: clone_audit_findings(&self.findings),
            trust_score: self.trust_score,
            audited_at: self.audited_at,
        }
    }
}

/// What can go wrong.
#[derive(Debug)]
pub enum HkError {
    NotFound(String),
    Network(String),
    PermissionDenied(String),
    ConfigCorrupted(String),
    Conflict(String),
    PathNotAllowed(String),
    Database(String),
    CommandFailed(String),
    Validation(String),
    Internal(String),
}

/// The mathematical value of an [`HkError`].
#[verifier::ext_equal]
pub enum HkErrorView {
    NotFound(Seq<char>),
    Network(Seq<char>),
    PermissionDenied(Seq<char>),
    ConfigCorrupted(Seq<char>),
    Conflict(Seq<char>),
    PathNotAllowed(Seq<char>),
    Database(Seq<char>),
    CommandFailed(Seq<char>),
    Validation(Seq<char>),
    Internal(Seq<char>),
}

impl View for HkError {
    type V = HkErrorView;

    open spec fn view(&self) -> HkErrorView {
        match self {
            HkError::NotFound(m) => HkErrorView::NotFound(m@),
            HkError::Network(m) => HkErrorView::Network(m@),
            HkError::PermissionDenied(m) => HkErrorView::PermissionDenied(m@),
            HkError::ConfigCorrupted(m) => HkErrorView::ConfigCorrupted(m@),
            HkError::Conflict(m) => HkErrorView::Conflict(m@),
            HkError::PathNotAllowed(m) => HkErrorView::PathNotAllowed(m@),
            HkError::Database(m) => HkErrorView::Database(m@),
            HkError::CommandFailed(m) => HkErrorView::CommandFailed(m@),
            HkError::Validation(m) => HkErrorView::Validation(m@),
            HkError::Internal(m) => HkErrorView::Internal(m@),
        }
    }
}

} // verus!
