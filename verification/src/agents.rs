//! What an agent reports of itself: its directories, the configuration files it
//! reads, and what stands in them.

use vstd::prelude::*;

use crate::models;
use crate::models::{
    ConfigScope, ConfigScopeView, HookEntry, HookEntryView, McpServerEntry, McpServerEntryView,
    PluginEntry, PluginEntryView,
};
use crate::path;
use crate::text;

verus! {

/// Something whose presence makes a directory a project.
#[derive(Debug)]
pub enum ProjectMarker {
    /// A directory.
    Dir(String),
    /// A regular file.
    File(String),
}

/// The mathematical value of a [`ProjectMarker`].
#[verifier::ext_equal]
pub enum ProjectMarkerView {
    Dir(Seq<char>),
    File(Seq<char>),
}

impl View for ProjectMarker {
    type V = ProjectMarkerView;

    open spec fn view(&self) -> ProjectMarkerView {
        match self {
            ProjectMarker::Dir(p) => ProjectMarkerView::Dir(p@),
            ProjectMarker::File(p) => ProjectMarkerView::File(p@),
        }
    }
}

/// Where an agent keeps things in one scope.
#[derive(Debug)]
pub struct ScopePaths {
    /// The file that lists its servers.
    pub mcp_config: Option<String>,
    /// The files that may list its hooks.
    pub hook_configs: Vec<String>,
    /// The file that new hooks go to.
    pub hook_config: Option<String>,
    /// The directory that new skills go to.
    pub skill_dir: Option<String>,
    /// The directories that skills of a category go to, by category.
    pub category_dirs: Vec<(String, String)>,
    /// The directory that new subagents go to.
    pub subagent_dir: Option<String>,
    /// The directory that new commands go to.
    pub command_dir: Option<String>,
}

/// The mathematical value of a [`ScopePaths`].
#[verifier::ext_equal]
pub struct ScopePathsView {
    pub mcp_config: Option<Seq<char>>,
    pub hook_configs: Seq<Seq<char>>,
    pub hook_config: Option<Seq<char>>,
    pub skill_dir: Option<Seq<char>>,
    pub category_dirs: Seq<(Seq<char>, Seq<char>)>,
    pub subagent_dir: Option<Seq<char>>,
    pub command_dir: Option<Seq<char>>,
}

impl View for ScopePaths {
    type V = ScopePathsView;

    open spec fn view(&self) -> ScopePathsView {
        ScopePathsView {
            mcp_config: text::ostr(self.mcp_config),
            hook_configs: text::strs(self.hook_configs@),
            hook_config: text::ostr(self.hook_config),
            skill_dir: text::ostr(self.skill_dir),
            category_dirs: models::pairs_view(self.category_dirs@),
            subagent_dir: text::ostr(self.subagent_dir),
            command_dir: text::ostr(self.command_dir),
        }
    }
}

/// Where an agent keeps things in one project.
#[derive(Debug)]
pub struct ProjectPaths {
    /// The path of the project.
    pub project: String,
    /// Where things are kept.
    pub paths: ScopePaths,
}

/// The mathematical value of a [`ProjectPaths`].
#[verifier::ext_equal]
pub struct ProjectPathsView {
    pub project: Seq<char>,
    pub paths: ScopePathsView,
}

impl View for ProjectPaths {
    type V = ProjectPathsView;

    open spec fn view(&self) -> ProjectPathsView {
        ProjectPathsView {
            project: self.project@,
            paths: self.paths@,
        }
    }
}

/// A configuration file with servers.
#[derive(Debug)]
pub struct McpFile {
    /// Where it lies.
    pub path: String,
    /// What stands in it.
    pub servers: Vec<McpServerEntry>,
}

/// The mathematical value of a [`McpFile`].
#[verifier::ext_equal]
pub struct McpFileView {
    pub path: Seq<char>,
    pub servers: Seq<McpServerEntryView>,
}

impl View for McpFile {
    type V = McpFileView;

    open spec fn view(&self) -> McpFileView {
        McpFileView {
            path: self.path@,
            servers: models::list_view(self.servers@),
        }
    }
}

/// A configuration file with hooks.
#[derive(Debug)]
pub struct HookFile {
    /// Where it lies.
    pub path: String,
    /// What stands in it.
    pub hooks: Vec<HookEntry>,
}

/// The mathematical value of a [`HookFile`].
#[verifier::ext_equal]
pub struct HookFileView {
    pub path: Seq<char>,
    pub hooks: Seq<HookEntryView>,
}

impl View for HookFile {
    type V = HookFileView;

    open spec fn view(&self) -> HookFileView {
        HookFileView {
            path: self.path@,
            hooks: models::list_view(self.hooks@),
        }
    }
}

/// Memory files that an agent keeps outside of the project that they belong to.
#[derive(Debug)]
pub struct ExternalMemory {
    /// The directory that they belong to, if it can be told.
    pub owner: Option<String>,
    /// Where they lie.
    pub files: Vec<String>,
}

/// The mathematical value of a [`ExternalMemory`].
#[verifier::ext_equal]
pub struct ExternalMemoryView {
    pub owner: Option<Seq<char>>,
    pub files: Seq<Seq<char>>,
}

impl View for ExternalMemory {
    type V = ExternalMemoryView;

    open spec fn view(&self) -> ExternalMemoryView {
        ExternalMemoryView {
            owner: text::ostr(self.owner),
            files: text::strs(self.files@),
        }
    }
}

/// The configuration files of an agent, by what they are for: the global ones by
/// path, those of a project by pattern.
#[derive(Debug)]
pub struct ConfigPaths {
    /// Memory that is kept outside of projects.
    pub external_memory: Vec<ExternalMemory>,
    /// Global rules.
    pub global_rules: Vec<String>,
    /// Global memory.
    pub global_memory: Vec<String>,
    /// Global subagents.
    pub global_subagents: Vec<String>,
    /// Global settings.
    pub global_settings: Vec<String>,
    /// Global workflows.
    pub global_workflow: Vec<String>,
    /// Rules of a project.
    pub project_rules: Vec<String>,
    /// Memory of a project.
    pub project_memory: Vec<String>,
    /// Subagents of a project.
    pub project_subagents: Vec<String>,
    /// Settings of a project.
    pub project_settings: Vec<String>,
    /// Workflows of a project.
    pub project_workflow: Vec<String>,
    /// Ignore files of a project.
    pub project_ignore: Vec<String>,
}

/// The mathematical value of a [`ConfigPaths`].
#[verifier::ext_equal]
pub struct ConfigPathsView {
    pub external_memory: Seq<ExternalMemoryView>,
    pub global_rules: Seq<Seq<char>>,
    pub global_memory: Seq<Seq<char>>,
    pub global_subagents: Seq<Seq<char>>,
    pub global_settings: Seq<Seq<char>>,
    pub global_workflow: Seq<Seq<char>>,
    pub project_rules: Seq<Seq<char>>,
    pub project_memory: Seq<Seq<char>>,
    pub project_subagents: Seq<Seq<char>>,
    pub project_settings: Seq<Seq<char>>,
    pub project_workflow: Seq<Seq<char>>,
    pub project_ignore: Seq<Seq<char>>,
}

impl View for ConfigPaths {
    type V = ConfigPathsView;

    open spec fn view(&self) -> ConfigPathsView {
        ConfigPathsView {
            external_memory: models::list_view(self.external_memory@),
            global_rules: text::strs(self.global_rules@),
            global_memory: text::strs(self.global_memory@),
            global_subagents: text::strs(self.global_subagents@),
            global_settings: text::strs(self.global_settings@),
            global_workflow: text::strs(self.global_workflow@),
            project_rules: text::strs(self.project_rules@),
            project_memory: text::strs(self.project_memory@),
            project_subagents: text::strs(self.project_subagents@),
            project_settings: text::strs(self.project_settings@),
            project_workflow: text::strs(self.project_workflow@),
            project_ignore: text::strs(self.project_ignore@),
        }
    }
}

/// An agent, with what it reports.
#[derive(Debug)]
pub struct Agent {
    /// Its name.
    pub name: String,
    /// Whether it is installed.
    pub detected: bool,
    /// The directories that it loads skills from.
    pub skill_dirs: Vec<String>,
    /// The directories of a project that it loads skills from.
    pub project_skill_dirs: Vec<String>,
    /// The file that lists its global servers.
    pub mcp_config_path: String,
    /// Its global servers.
    pub mcp_servers: Vec<McpServerEntry>,
    /// The files with servers that were read.
    pub mcp_files: Vec<McpFile>,
    /// The files with hooks that were read.
    pub hook_files: Vec<HookFile>,
    /// Its plugins.
    pub plugins: Vec<PluginEntry>,
    /// The file that lists its plugins.
    pub plugin_config_path: String,
    /// Whether its plugins are entries of that file, and have no files to be
    /// removed with them.
    pub plugins_are_entries: bool,
    /// The directory that it keeps its data in.
    pub base_dir: String,
    /// The user directory of the editor that hosts it.
    pub vscode_user_dir: Option<String>,
    /// The files of its global subagents.
    pub subagent_files: Vec<String>,
    /// The files of its global commands.
    pub command_files: Vec<String>,
    /// Where a project keeps subagents.
    pub subagent_patterns: Vec<String>,
    /// Where a project keeps commands.
    pub command_patterns: Vec<String>,
    /// What makes a directory a project.
    pub project_markers: Vec<ProjectMarker>,
    /// Whether it can have servers.
    pub supports_mcp: bool,
    /// Whether a server needs `PATH` set for it.
    pub needs_path_injection: bool,
    /// Whether it loads global hooks.
    pub supports_global_hooks: bool,
    /// The events that it knows: by any name, with its own.
    pub hook_events: Vec<(String, String)>,
    /// Where it keeps global things.
    pub global: ScopePaths,
    /// Where it keeps things of projects.
    pub projects: Vec<ProjectPaths>,
    /// Its configuration files.
    pub configs: ConfigPaths,
}

/// The mathematical value of a [`Agent`].
#[verifier::ext_equal]
pub struct AgentView {
    pub name: Seq<char>,
    pub detected: bool,
    pub skill_dirs: Seq<Seq<char>>,
    pub project_skill_dirs: Seq<Seq<char>>,
    pub mcp_config_path: Seq<char>,
    pub mcp_servers: Seq<McpServerEntryView>,
    pub mcp_files: Seq<McpFileView>,
    pub hook_files: Seq<HookFileView>,
    pub plugins: Seq<PluginEntryView>,
    pub plugin_config_path: Seq<char>,
    pub plugins_are_entries: bool,
    pub base_dir: Seq<char>,
    pub vscode_user_dir: Option<Seq<char>>,
    pub subagent_files: Seq<Seq<char>>,
    pub command_files: Seq<Seq<char>>,
    pub subagent_patterns: Seq<Seq<char>>,
    pub command_patterns: Seq<Seq<char>>,
    pub project_markers: Seq<ProjectMarkerView>,
    pub supports_mcp: bool,
    pub needs_path_injection: bool,
    pub supports_global_hooks: bool,
    pub hook_events: Seq<(Seq<char>, Seq<char>)>,
    pub global: ScopePathsView,
    pub projects: Seq<ProjectPathsView>,
    pub configs: ConfigPathsView,
}

impl View for Agent {
    type V = AgentView;

    open spec fn view(&self) -> AgentView {
        AgentView {
            name: self.name@,
            detected: self.detected,
            skill_dirs: text::strs(self.skill_dirs@),
            project_skill_dirs: text::strs(self.project_skill_dirs@),
            mcp_config_path: self.mcp_config_path@,
            mcp_servers: models::list_view(self.mcp_servers@),
            mcp_files: models::list_view(self.mcp_files@),
            hook_files: models::list_view(self.hook_files@),
            plugins: models::list_view(self.plugins@),
            plugin_config_path: self.plugin_config_path@,
            plugins_are_entries: self.plugins_are_entries,
            base_dir: self.base_dir@,
            vscode_user_dir: text::ostr(self.vscode_user_dir),
            subagent_files: text::strs(self.subagent_files@),
            command_files: text::strs(self.command_files@),
            subagent_patterns: text::strs(self.subagent_patterns@),
            command_patterns: text::strs(self.command_patterns@),
            project_markers: models::list_view(self.project_markers@),
            supports_mcp: self.supports_mcp,
            needs_path_injection: self.needs_path_injection,
            supports_global_hooks: self.supports_global_hooks,
            hook_events: models::pairs_view(self.hook_events@),
            global: self.global@,
            projects: models::list_view(self.projects@),
            configs: self.configs@,
        }
    }
}

/// The servers that the file at `p` lists; none where no such file was read.
pub open spec fn servers_at(files: Seq<McpFileView>, p: Seq<char>) -> Seq<McpServerEntryView>
    decreases files.len(),
{
    if files.len() == 0 {
        Seq::<McpServerEntryView>::empty()
    } else if path::same_path(files[0].path, p) {
        files[0].servers
    } else {
        servers_at(files.drop_first(), p)
    }
}

/// The hooks that the file at `p` lists; none where no such file was read.
pub open spec fn hooks_at(files: Seq<HookFileView>, p: Seq<char>) -> Seq<HookEntryView>
    decreases files.len(),
{
    if files.len() == 0 {
        Seq::<HookEntryView>::empty()
    } else if path::same_path(files[0].path, p) {
        files[0].hooks
    } else {
        hooks_at(files.drop_first(), p)
    }
}

/// Where things are kept in the project at `p`.
pub open spec fn paths_of_project(projects: Seq<ProjectPathsView>, p: Seq<char>) -> Option<
    ScopePathsView,
>
    decreases projects.len(),
{
    if projects.len() == 0 {
        None
    } else if projects[0].project == p {
        Some(projects[0].paths)
    } else {
        paths_of_project(projects.drop_first(), p)
    }
}

/// The value that stands first under a key.
pub open spec fn value_of(pairs: Seq<(Seq<char>, Seq<char>)>, key: Seq<char>) -> Option<Seq<char>>
    decreases pairs.len(),
{
    if pairs.len() == 0 {
        None
    } else if pairs[0].0 == key {
        Some(pairs[0].1)
    } else {
        value_of(pairs.drop_first(), key)
    }
}

/// The value that stands first under a key.
pub fn lookup(pairs: &Vec<(String, String)>, key: &str) -> (r: Option<String>)
    ensures
        text::ostr(r) == value_of(models::pairs_view(pairs@), key@),
{
    let ghost v = models::pairs_view(pairs@);
    let mut i: usize = 0;
    assert(v.skip(0) =~= v);
    while i < pairs.len()
        invariant
            v == models::pairs_view(pairs@),
            i <= pairs.len(),
            value_of(v.skip(i as int), key@) == value_of(v, key@),
        decreases pairs.len() - i,
    {
        assert(v.skip(i as int)[0] == (pairs@[i as int].0@, pairs@[i as int].1@));
        assert(v.skip(i as int).drop_first() =~= v.skip(i + 1));
        if text::str_eq(&pairs[i].0, key) {
            return Some(pairs[i].1.clone());
        }
        i += 1;
    }
    None
}

impl AgentView {
    /// Where the agent keeps things in a scope, if it keeps any there.
    pub open spec fn in_scope(self, scope: ConfigScopeView) -> Option<ScopePathsView> {
        match scope {
            ConfigScopeView::Global => Some(self.global),
            ConfigScopeView::Project { path, .. } => paths_of_project(self.projects, path),
        }
    }

    /// The file that lists the servers of a scope.
    pub open spec fn mcp_config_in(self, scope: ConfigScopeView) -> Option<Seq<char>> {
        match self.in_scope(scope) {
            Some(s) => s.mcp_config,
            None => None,
        }
    }

    /// The files that may list the hooks of a scope.
    pub open spec fn hook_configs_in(self, scope: ConfigScopeView) -> Seq<Seq<char>> {
        match self.in_scope(scope) {
            Some(s) => s.hook_configs,
            None => Seq::<Seq<char>>::empty(),
        }
    }

    /// The file that new hooks of a scope go to.
    pub open spec fn hook_config_in(self, scope: ConfigScopeView) -> Option<Seq<char>> {
        match self.in_scope(scope) {
            Some(s) => s.hook_config,
            None => None,
        }
    }

    /// The directory that new skills of a scope go to.
    pub open spec fn skill_dir_in(self, scope: ConfigScopeView) -> Option<Seq<char>> {
        match self.in_scope(scope) {
            Some(s) => s.skill_dir,
            None => None,
        }
    }

    /// The directory that new skills of a scope and a category go to.
    pub open spec fn category_dir_in(self, scope: ConfigScopeView, category: Seq<char>) -> Option<
        Seq<char>,
    > {
        match self.in_scope(scope) {
            Some(s) => value_of(s.category_dirs, category),
            None => None,
        }
    }

    /// The directory that new subagents of a scope go to.
    pub open spec fn subagent_dir_in(self, scope: ConfigScopeView) -> Option<Seq<char>> {
        match self.in_scope(scope) {
            Some(s) => s.subagent_dir,
            None => None,
        }
    }

    /// The directory that new commands of a scope go to.
    pub open spec fn command_dir_in(self, scope: ConfigScopeView) -> Option<Seq<char>> {
        match self.in_scope(scope) {
            Some(s) => s.command_dir,
            None => None,
        }
    }
}

impl Agent {
    /// The servers that the file at `p` lists.
    pub fn servers_from(&self, p: &str) -> (r: Option<&Vec<McpServerEntry>>)
        ensures
            servers_at(self@.mcp_files, p@) == (match r {
                Some(v) => models::list_view(v@),
                None => Seq::<McpServerEntryView>::empty(),
            }),
    {
        let ghost v = models::list_view(self.mcp_files@);
        let mut i: usize = 0;
        assert(v.skip(0) =~= v);
        while i < self.mcp_files.len()
            invariant
                v == models::list_view(self.mcp_files@),
                i <= self.mcp_files.len(),
                servers_at(v.skip(i as int), p@) == servers_at(v, p@),
            decreases self.mcp_files.len() - i,
        {
            assert(v.skip(i as int)[0] == self.mcp_files@[i as int]@);
            assert(v.skip(i as int).drop_first() =~= v.skip(i + 1));
            if path::path_eq(&self.mcp_files[i].path, p) {
                return Some(&self.mcp_files[i].servers);
            }
            i += 1;
        }
        None
    }

    /// The hooks that the file at `p` lists.
    pub fn hooks_from(&self, p: &str) -> (r: Option<&Vec<HookEntry>>)
        ensures
            hooks_at(self@.hook_files, p@) == (match r {
                Some(v) => models::list_view(v@),
                None => Seq::<HookEntryView>::empty(),
            }),
    {
        let ghost v = models::list_view(self.hook_files@);
        let mut i: usize = 0;
        assert(v.skip(0) =~= v);
        while i < self.hook_files.len()
            invariant
                v == models::list_view(self.hook_files@),
                i <= self.hook_files.len(),
                hooks_at(v.skip(i as int), p@) == hooks_at(v, p@),
            decreases self.hook_files.len() - i,
        {
            assert(v.skip(i as int)[0] == self.hook_files@[i as int]@);
            assert(v.skip(i as int).drop_first() =~= v.skip(i + 1));
            if path::path_eq(&self.hook_files[i].path, p) {
                return Some(&self.hook_files[i].hooks);
            }
            i += 1;
        }
        None
    }

    /// Where the agent keeps things in a scope, if it keeps any there.
    pub fn scope_paths(&self, scope: &ConfigScope) -> (r: Option<&ScopePaths>)
        ensures
            self@.in_scope(scope@) == (match r {
                Some(s) => Some(s@),
                None => None,
            }),
    {
        match scope {
            ConfigScope::Global => Some(&self.global),
            ConfigScope::Project { path, .. } => {
                let ghost v = models::list_view(self.projects@);
                let mut i: usize = 0;
                assert(v.skip(0) =~= v);
                while i < self.projects.len()
                    invariant
                        v == models::list_view(self.projects@),
                        i <= self.projects.len(),
                        scope@ matches ConfigScopeView::Project { path: q, .. } && q == path@,
                        v == self@.projects,
                        paths_of_project(v.skip(i as int), path@) == paths_of_project(v, path@),
                    decreases self.projects.len() - i,
                {
                    assert(v.skip(i as int)[0] == self.projects@[i as int]@);
                    assert(v.skip(i as int).drop_first() =~= v.skip(i + 1));
                    if text::str_eq(&self.projects[i].project, path) {
                        return Some(&self.projects[i].paths);
                    }
                    i += 1;
                }
                None
            },
        }
    }

    /// The file that lists the servers of a scope.
    pub fn mcp_config_path_for(&self, scope: &ConfigScope) -> (r: Option<String>)
        ensures
            text::ostr(r) == self@.mcp_config_in(scope@),
    {
        match self.scope_paths(scope) {
            Some(s) => text::clone_opt(&s.mcp_config),
            None => None,
        }
    }

    /// The files that may list the hooks of a scope.
    pub fn hook_config_paths_for(&self, scope: &ConfigScope) -> (r: Vec<String>)
        ensures
            text::strs(r@) == self@.hook_configs_in(scope@),
    {
        match self.scope_paths(scope) {
            Some(s) => text::clone_strings(&s.hook_configs),
            None => text::no_strings(),
        }
    }

    /// The file that new hooks of a scope go to.
    pub fn hook_config_path_for(&self, scope: &ConfigScope) -> (r: Option<String>)
        ensures
            text::ostr(r) == self@.hook_config_in(scope@),
    {
        match self.scope_paths(scope) {
            Some(s) => text::clone_opt(&s.hook_config),
            None => None,
        }
    }

    /// The directory that new skills of a scope go to.
    pub fn skill_dir_for(&self, scope: &ConfigScope) -> (r: Option<String>)
        ensures
            text::ostr(r) == self@.skill_dir_in(scope@),
    {
        match self.scope_paths(scope) {
            Some(s) => text::clone_opt(&s.skill_dir),
            None => None,
        }
    }

    /// The directory that new skills of a scope and a category go to.
    pub fn skill_dir_for_category(&self, scope: &ConfigScope, category: &str) -> (r: Option<String>)
        ensures
            text::ostr(r) == self@.category_dir_in(scope@, category@),
    {
        match self.scope_paths(scope) {
            Some(s) => lookup(&s.category_dirs, category),
            None => None,
        }
    }

    /// The directory that new subagents of a scope go to.
    pub fn subagent_dir_for(&self, scope: &ConfigScope) -> (r: Option<String>)
        ensures
            text::ostr(r) == self@.subagent_dir_in(scope@),
    {
        match self.scope_paths(scope) {
            Some(s) => text::clone_opt(&s.subagent_dir),
            None => None,
        }
    }

    /// The directory that new commands of a scope go to.
    pub fn command_dir_for(&self, scope: &ConfigScope) -> (r: Option<String>)
        ensures
            text::ostr(r) == self@.command_dir_in(scope@),
    {
        match self.scope_paths(scope) {
            Some(s) => text::clone_opt(&s.command_dir),
            None => None,
        }
    }
}

} // verus!
