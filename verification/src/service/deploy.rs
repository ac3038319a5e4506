//! Installing an extension of one agent to another.

use vstd::prelude::*;

use crate::agents;
use crate::agents::{Agent, AgentView};
use crate::files::{FileTree, FileTreeView};
use crate::models;
use crate::models::{
    AuditInput, AuditInputView, AuditResult, ConfigScope, ConfigScopeView, Extension,
    ExtensionKind, ExtensionView, HkError, HkErrorView, HookEntry, HookEntryView, McpServerEntry,
    McpServerEntryView, Timestamp,
};
use crate::outside;
use crate::service::audit;
use crate::service::finishing;
use crate::service::lookup;
use crate::skills;
use crate::store;
use crate::store::{Store, StoreView};
use crate::text;

verus! {

// ---------------------------------------------------------------------------
// What is to be written
// ---------------------------------------------------------------------------

/// What an installation writes to the disk.
#[derive(Debug)]
pub enum Deployment {
    /// The files of a skill, copied into a directory of skills.
    Skill { source: String, target_dir: String },
    /// A server, added to a configuration file of an agent; with `PATH` set for it
    /// where the agent needs that.
    Server { config: String, server: McpServerEntry, inject_path: bool, agent: String },
    /// A hook, added to a configuration file of an agent.
    Hook { config: String, hook: HookEntry, agent: String },
    /// The file of a subagent or a command, copied into a directory under a name.
    ManagedFile { source: String, target_dir: String, name: String },
}

/// The mathematical value of a [`Deployment`].
#[verifier::ext_equal]
pub enum DeploymentView {
    Skill { source: Seq<char>, target_dir: Seq<char> },
    Server { config: Seq<char>, server: McpServerEntryView, inject_path: bool, agent: Seq<char> },
    Hook { config: Seq<char>, hook: HookEntryView, agent: Seq<char> },
    ManagedFile { source: Seq<char>, target_dir: Seq<char>, name: Seq<char> },
}

impl View for Deployment {
    type V = DeploymentView;

    open spec fn view(&self) -> DeploymentView {
        match self {
            Deployment::Skill { source, target_dir } => DeploymentView::Skill {
                source: source@,
                target_dir: target_dir@,
            },
            Deployment::Server { config, server, inject_path, agent } => DeploymentView::Server {
                config: config@,
                server: server@,
                inject_path: *inject_path,
                agent: agent@,
            },
            Deployment::Hook { config, hook, agent } => DeploymentView::Hook {
                config: config@,
                hook: hook@,
                agent: agent@,
            },
            Deployment::ManagedFile { source, target_dir, name } => DeploymentView::ManagedFile {
                source: source@,
                target_dir: target_dir@,
                name: name@,
            },
        }
    }
}

/// What is found after something was written to the disk.
pub struct Deployed {
    /// The name under which it was written.
    pub name: String,
    /// The files.
    pub fs: FileTree,
    /// What the agents report.
    pub agents: Vec<Agent>,
}

/// The view of a plan.
pub open spec fn plan_view(r: Result<Deployment, HkError>) -> Result<DeploymentView, HkErrorView> {
    match r {
        Ok(d) => Ok(d@),
        Err(e) => Err(e@),
    }
}

// ---------------------------------------------------------------------------
// Plans
// ---------------------------------------------------------------------------

/// The directory that a skill goes to: that of the category, if one is given and
/// the agent has categories, else that of the scope.
pub open spec fn skill_target(
    target: AgentView,
    category: Option<Seq<char>>,
    scope: ConfigScopeView,
) -> Option<Seq<char>> {
    let by_category = match category {
        Some(c) => target.category_dir_in(scope, c),
        None => None,
    };
    match by_category {
        Some(d) => Some(d),
        None => target.skill_dir_in(scope),
    }
}

/// The error for an agent that has no place for skills.
pub open spec fn no_skill_dir(target: Seq<char>) -> HkErrorView {
    HkErrorView::Validation(target + " has no skill directory at this scope"@)
}

/// What is to be written for a skill.
pub open spec fn skill_plan(
    fs: FileTreeView,
    agents: Seq<AgentView>,
    e: ExtensionView,
    projects: Seq<(Seq<char>, Seq<char>)>,
    id: Seq<char>,
    target: AgentView,
    category: Option<Seq<char>>,
    scope: ConfigScopeView,
) -> Result<DeploymentView, HkErrorView> {
    match skills::location_of(fs, agents, id, e.agents, projects) {
        None => Err(HkErrorView::Internal("Could not find source skill files"@)),
        Some(loc) => match skill_target(target, category, scope) {
            None => Err(no_skill_dir(target.name)),
            Some(dir) => Ok(
                DeploymentView::Skill { source: loc.entry_path, target_dir: dir },
            ),
        },
    }
}

/// The server that an extension stands for: the one of the first of its agents
/// that lists it.
pub open spec fn source_server(
    agents: Seq<AgentView>,
    e: ExtensionView,
    id: Seq<char>,
) -> Option<McpServerEntryView>
    decreases agents.len(),
{
    if agents.len() == 0 {
        None
    } else {
        let here = if e.agents.contains(agents[0].name) {
            match agents[0].mcp_config_in(e.scope) {
                None => None,
                Some(p) => lookup::server_at(agents[0], p, e.scope, id),
            }
        } else {
            None
        };
        match here {
            Some(s) => Some(s),
            None => source_server(agents.drop_first(), e, id),
        }
    }
}

/// What is to be written for a server.
pub open spec fn server_plan(
    agents: Seq<AgentView>,
    e: ExtensionView,
    id: Seq<char>,
    target: AgentView,
    scope: ConfigScopeView,
) -> Result<DeploymentView, HkErrorView> {
    if !target.supports_mcp {
        Err(
            HkErrorView::Validation(
                target.name
                    + " MCP support is unavailable because its native capability has not been verified"@,
            ),
        )
    } else {
        match source_server(agents, e, id) {
            None => Err(HkErrorView::Internal("Could not find source MCP server config"@)),
            Some(server) => match target.mcp_config_in(scope) {
                None => Err(
                    HkErrorView::Validation(
                        target.name + " does not support project-level MCP servers"@,
                    ),
                ),
                Some(config) => Ok(
                    DeploymentView::Server {
                        config,
                        server,
                        inject_path: target.needs_path_injection,
                        agent: target.name,
                    },
                ),
            },
        }
    }
}

/// The files that may list a hook: the one that it was found in, else all of the
/// scope.
pub open spec fn hook_files_of(agent: AgentView, e: ExtensionView) -> Seq<Seq<char>> {
    match e.source_path {
        Some(p) => seq![p],
        None => agent.hook_configs_in(e.scope),
    }
}

/// The hook that is found in some files, where `before` was found already: no file
/// is looked at after the first one that leaves a hook found.
pub open spec fn hook_in_files(
    agent: AgentView,
    files: Seq<Seq<char>>,
    scope: ConfigScopeView,
    id: Seq<char>,
    before: Option<HookEntryView>,
) -> Option<HookEntryView>
    decreases files.len(),
{
    if files.len() == 0 {
        before
    } else {
        let here = match lookup::hook_at(agent, files[0], scope, id) {
            Some(h) => Some(h),
            None => before,
        };
        match here {
            Some(h) => Some(h),
            None => hook_in_files(agent, files.drop_first(), scope, id, here),
        }
    }
}

/// The hook that an extension stands for: the one of the last of its agents that
/// lists it.
pub open spec fn source_hook(
    agents: Seq<AgentView>,
    e: ExtensionView,
    id: Seq<char>,
) -> Option<HookEntryView>
    decreases agents.len(),
{
    if agents.len() == 0 {
        None
    } else {
        let before = source_hook(agents.drop_last(), e, id);
        let a = agents.last();
        if e.agents.contains(a.name) {
            hook_in_files(a, hook_files_of(a, e), e.scope, id, before)
        } else {
            before
        }
    }
}

/// What is to be written for a hook. Its event gets the name that the agent has
/// for it.
pub open spec fn hook_plan(
    agents: Seq<AgentView>,
    e: ExtensionView,
    id: Seq<char>,
    target: AgentView,
    scope: ConfigScopeView,
) -> Result<DeploymentView, HkErrorView> {
    match source_hook(agents, e, id) {
        None => Err(HkErrorView::Internal("Could not find source hook config"@)),
        Some(h) => match agents::value_of(target.hook_events, h.event) {
            None => Err(
                HkErrorView::Internal(
                    "Hook event '"@ + h.event + "' is not supported by "@ + target.name,
                ),
            ),
            Some(event) => if scope is Global && !target.supports_global_hooks {
                Err(
                    HkErrorView::Validation(
                        target.name
                            + " does not load user-level (global) hooks yet; hooks for this agent can only be installed per-project"@,
                    ),
                )
            } else {
                match target.hook_config_in(scope) {
                    None => Err(
                        HkErrorView::Validation(
                            target.name + " does not support project-level hooks"@,
                        ),
                    ),
                    Some(config) => Ok(
                        DeploymentView::Hook {
                            config,
                            hook: HookEntryView { event, ..h },
                            agent: target.name,
                        },
                    ),
                }
            },
        },
    }
}

/// The name of the program of a command-line tool.
pub open spec fn tool_binary(e: ExtensionView) -> Seq<char> {
    match e.cli_meta {
        Some(m) => m.binary_name,
        None => outside::lowercase(e.name),
    }
}

/// What is to be written for a command-line tool: the skill that has the name of
/// its program.
pub open spec fn tool_plan(
    fs: FileTreeView,
    agents: Seq<AgentView>,
    e: ExtensionView,
    projects: Seq<(Seq<char>, Seq<char>)>,
    target: AgentView,
    scope: ConfigScopeView,
) -> Result<DeploymentView, HkErrorView> {
    let found = skills::locations_of(fs, tool_binary(e), agents, projects, None);
    if found.len() == 0 {
        Err(HkErrorView::Internal("Could not find source skill files for CLI"@))
    } else {
        match target.skill_dir_in(scope) {
            None => Err(no_skill_dir(target.name)),
            Some(dir) => Ok(DeploymentView::Skill { source: found[0].1, target_dir: dir }),
        }
    }
}

/// The directory that subagents or commands of a scope go to.
pub open spec fn file_target(
    target: AgentView,
    kind: ExtensionKind,
    scope: ConfigScopeView,
) -> Option<Seq<char>> {
    if kind == ExtensionKind::Subagent {
        target.subagent_dir_in(scope)
    } else {
        target.command_dir_in(scope)
    }
}

/// What is to be written for a subagent or a command.
pub open spec fn file_plan(
    fs: FileTreeView,
    e: ExtensionView,
    target: AgentView,
    scope: ConfigScopeView,
) -> Result<DeploymentView, HkErrorView> {
    match e.source_path {
        None => Err(HkErrorView::NotFound("Extension source path missing"@)),
        Some(p) => match file_target(target, e.kind, scope) {
            None => Err(
                HkErrorView::Validation(
                    target.name + " does not support "@ + e.kind.text()
                        + " extensions at this scope"@,
                ),
            ),
            Some(dir) => Ok(
                DeploymentView::ManagedFile {
                    source: audit::live_path(fs, p),
                    target_dir: dir,
                    name: e.name,
                },
            ),
        },
    }
}

/// What is to be written for an extension.
pub open spec fn plan_for(
    fs: FileTreeView,
    agents: Seq<AgentView>,
    e: ExtensionView,
    projects: Seq<(Seq<char>, Seq<char>)>,
    id: Seq<char>,
    target: AgentView,
    category: Option<Seq<char>>,
    scope: ConfigScopeView,
) -> Result<DeploymentView, HkErrorView> {
    match e.kind {
        ExtensionKind::Skill => skill_plan(
            fs,
            agents,
            e,
            projects,
            id,
            target,
            category,
            scope,
        ),
        ExtensionKind::Mcp => server_plan(agents, e, id, target, scope),
        ExtensionKind::Hook => hook_plan(agents, e, id, target, scope),
        ExtensionKind::Cli => tool_plan(fs, agents, e, projects, target, scope),
        ExtensionKind::Plugin => Err(
            HkErrorView::Internal(
                "Cross-agent deploy not supported for 'plugin' extensions"@,
            ),
        ),
        _ => file_plan(fs, e, target, scope),
    }
}

/// Whether a project is among the known ones.
pub open spec fn is_registered(projects: Seq<(Seq<char>, Seq<char>)>, p: Seq<char>) -> bool {
    exists|i: int| 0 <= i < projects.len() && (#[trigger] projects[i]).1 == p
}

/// Whether an installation into a scope can last: rows of unknown projects are
/// dropped by the next scan.
pub open spec fn scope_allowed(
    projects: Seq<(Seq<char>, Seq<char>)>,
    scope: ConfigScopeView,
) -> bool {
    match scope {
        ConfigScopeView::Global => true,
        ConfigScopeView::Project { path: p, .. } => is_registered(projects, p),
    }
}

/// What is to be written to install a known extension to an agent.
pub open spec fn plan_of(
    s: StoreView,
    fs: FileTreeView,
    agents: Seq<AgentView>,
    id: Seq<char>,
    target: Seq<char>,
    category: Option<Seq<char>>,
    scope: ConfigScopeView,
) -> Result<DeploymentView, HkErrorView> {
    let projects = store::project_tuples(s.projects);
    match store::row_with(s.rows, id) {
        None => Err(HkErrorView::NotFound("Extension not found"@)),
        Some(e) => if !scope_allowed(projects, scope) {
            Err(
                HkErrorView::Validation(
                    "Project '"@ + scope->path
                        + "' is not registered in HarnessKit; add the project first"@,
                ),
            )
        } else {
            match finishing::agent_named(agents, target) {
                None => Err(HkErrorView::NotFound("Agent '"@ + target + "' not found"@)),
                Some(a) => plan_for(fs, agents, e, projects, id, a, category, scope),
            }
        },
    }
}

// ---------------------------------------------------------------------------
// Finding the plans
// ---------------------------------------------------------------------------

fn find_skill_target(target: &Agent, category: Option<&str>, scope: &ConfigScope) -> (r: Option<
    String,
>)
    ensures
        text::ostr(r) == skill_target(target@, finishing::ostr_ref(category), scope@),
{
    let by_category = match category {
        Some(c) => target.skill_dir_for_category(scope, c),
        None => None,
    };
    match by_category {
        Some(d) => Some(d),
        None => target.skill_dir_for(scope),
    }
}

fn no_skill_dir_error(target: &str) -> (r: HkError)
    ensures
        r@ == no_skill_dir(target@),
{
    HkError::Validation(text::cat2(target, " has no skill directory at this scope"))
}

fn plan_skill(
    fs: &FileTree,
    agents: &Vec<Agent>,
    e: &Extension,
    projects: &Vec<(String, String)>,
    id: &str,
    target: &Agent,
    category: Option<&str>,
    scope: &ConfigScope,
) -> (r: Result<Deployment, HkError>)
    ensures
        plan_view(r) == skill_plan(
            fs@,
            models::list_view(agents@),
            e@,
            models::pairs_view(projects@),
            id@,
            target@,
            finishing::ostr_ref(category),
            scope@,
        ),
{
    match skills::find_skill_by_id(fs, agents, id, &e.agents, projects) {
        None => Err(HkError::Internal("Could not find source skill files".to_owned())),
        Some(loc) => match find_skill_target(target, category, scope) {
            None => Err(no_skill_dir_error(&target.name)),
            Some(dir) => Ok(Deployment::Skill { source: loc.entry_path, target_dir: dir }),
        },
    }
}

fn find_source_server(agents: &Vec<Agent>, e: &Extension, id: &str) -> (r: Option<McpServerEntry>)
    ensures
        models::opt_view(r) == source_server(models::list_view(agents@), e@, id@),
{
    let ghost v = models::list_view(agents@);
    let mut i: usize = 0;
    assert(v.skip(0) =~= v);
    while i < agents.len()
        invariant
            v == models::list_view(agents@),
            i <= agents.len(),
            source_server(v.skip(i as int), e@, id@) == source_server(v, e@, id@),
        decreases agents.len() - i,
    {
        assert(v.skip(i as int)[0] == agents@[i as int]@);
        assert(v.skip(i as int).drop_first() =~= v.skip(i + 1));
        if text::list_has(&e.agents, &agents[i].name) {
            if let Some(p) = agents[i].mcp_config_path_for(&e.scope) {
                let found = lookup::find_server_at(&agents[i], &p, &e.scope, id);
                if found.is_some() {
                    return found;
                }
            }
        }
        i += 1;
    }
    None
}

fn plan_server(
    agents: &Vec<Agent>,
    e: &Extension,
    id: &str,
    target: &Agent,
    scope: &ConfigScope,
) -> (r: Result<Deployment, HkError>)
    ensures
        plan_view(r) == server_plan(models::list_view(agents@), e@, id@, target@, scope@),
{
    if !target.supports_mcp {
        return Err(
            HkError::Validation(
                text::cat2(
                    &target.name,
                    " MCP support is unavailable because its native capability has not been verified",
                ),
            ),
        );
    }
    match find_source_server(agents, e, id) {
        None => Err(HkError::Internal("Could not find source MCP server config".to_owned())),
        Some(server) => match target.mcp_config_path_for(scope) {
            None => Err(
                HkError::Validation(
                    text::cat2(&target.name, " does not support project-level MCP servers"),
                ),
            ),
            Some(config) => Ok(
                Deployment::Server {
                    config,
                    server,
                    inject_path: target.needs_path_injection,
                    agent: target.name.clone(),
                },
            ),
        },
    }
}

/// The files that may list a hook.
pub fn find_hook_files(agent: &Agent, e: &Extension) -> (r: Vec<String>)
    ensures
        text::strs(r@) == hook_files_of(agent@, e@),
{
    match &e.source_path {
        Some(p) => text::one(p.clone()),
        None => agent.hook_config_paths_for(&e.scope),
    }
}

fn find_hook_in_files(
    agent: &Agent,
    files: &Vec<String>,
    scope: &ConfigScope,
    id: &str,
    before: Option<HookEntry>,
) -> (r: Option<HookEntry>)
    ensures
        models::opt_view(r) == hook_in_files(
            agent@,
            text::strs(files@),
            scope@,
            id@,
            models::opt_view(before),
        ),
{
    let ghost v = text::strs(files@);
    let ghost b = models::opt_view(before);
    let mut found = before;
    let mut i: usize = 0;
    assert(v.skip(0) =~= v);
    while i < files.len()
        invariant
            v == text::strs(files@),
            b == models::opt_view(before),
            i <= files.len(),
            hook_in_files(agent@, v.skip(i as int), scope@, id@, models::opt_view(found))
                == hook_in_files(agent@, v, scope@, id@, b),
        decreases files.len() - i,
    {
        assert(v.skip(i as int)[0] == files@[i as int]@);
        assert(v.skip(i as int).drop_first() =~= v.skip(i + 1));
        if let Some(h) = lookup::find_hook_at(agent, &files[i], scope, id) {
            found = Some(h);
        }
        if found.is_some() {
            return found;
        }
        i += 1;
    }
    found
}

fn find_source_hook(agents: &Vec<Agent>, e: &Extension, id: &str) -> (r: Option<HookEntry>)
    ensures
        models::opt_view(r) == source_hook(models::list_view(agents@), e@, id@),
{
    let ghost v = models::list_view(agents@);
    let mut found: Option<HookEntry> = None;
    let mut i: usize = 0;
    assert(v.take(0) =~= Seq::<AgentView>::empty());
    while i < agents.len()
        invariant
            v == models::list_view(agents@),
            i <= agents.len(),
            models::opt_view(found) == source_hook(v.take(i as int), e@, id@),
        decreases agents.len() - i,
    {
        assert(v.take(i + 1).drop_last() =~= v.take(i as int));
        assert(v.take(i + 1).last() == agents@[i as int]@);
        if text::list_has(&e.agents, &agents[i].name) {
            let files = find_hook_files(&agents[i], e);
            found = find_hook_in_files(&agents[i], &files, &e.scope, id, found);
        }
        i += 1;
    }
    assert(v.take(i as int) =~= v);
    found
}

fn plan_hook(
    agents: &Vec<Agent>,
    e: &Extension,
    id: &str,
    target: &Agent,
    scope: &ConfigScope,
) -> (r: Result<Deployment, HkError>)
    ensures
        plan_view(r) == hook_plan(models::list_view(agents@), e@, id@, target@, scope@),
{
    let found = match find_source_hook(agents, e, id) {
        None => {
            return Err(HkError::Internal("Could not find source hook config".to_owned()));
        },
        Some(h) => h,
    };
    let event = match agents::lookup(&target.hook_events, &found.event) {
        None => {
            return Err(
                HkError::Internal(
                    text::cat4(
                        "Hook event '",
                        &found.event,
                        "' is not supported by ",
                        &target.name,
                    ),
                ),
            );
        },
        Some(event) => event,
    };
    if scope.is_global() && !target.supports_global_hooks {
        return Err(
            HkError::Validation(
                text::cat2(
                    &target.name,
                    " does not load user-level (global) hooks yet; hooks for this agent can only be installed per-project",
                ),
            ),
        );
    }
    match target.hook_config_path_for(scope) {
        None => Err(
            HkError::Validation(
                text::cat2(&target.name, " does not support project-level hooks"),
            ),
        ),
        Some(config) => Ok(
            Deployment::Hook {
                config,
                hook: HookEntry {
                    event,
                    matcher: found.matcher,
                    command: found.command,
                    enabled: found.enabled,
                },
                agent: target.name.clone(),
            },
        ),
    }
}

fn plan_tool(
    fs: &FileTree,
    agents: &Vec<Agent>,
    e: &Extension,
    projects: &Vec<(String, String)>,
    target: &Agent,
    scope: &ConfigScope,
) -> (r: Result<Deployment, HkError>)
    ensures
        plan_view(r) == tool_plan(
            fs@,
            models::list_view(agents@),
            e@,
            models::pairs_view(projects@),
            target@,
            scope@,
        ),
{
    let binary = match &e.cli_meta {
        Some(m) => m.binary_name.clone(),
        None => outside::to_lowercase(&e.name),
    };
    let found = skills::skill_locations(fs, &binary, agents, projects, None);
    let ghost v = skills::locations_of(
        fs@,
        tool_binary(e@),
        models::list_view(agents@),
        models::pairs_view(projects@),
        None,
    );
    assert(models::pairs_view(found@) == v);
    if found.len() == 0 {
        return Err(HkError::Internal("Could not find source skill files for CLI".to_owned()));
    }
    assert(v[0].1 == found@[0].1@);
    match target.skill_dir_for(scope) {
        None => Err(no_skill_dir_error(&target.name)),
        Some(dir) => Ok(Deployment::Skill { source: found[0].1.clone(), target_dir: dir }),
    }
}

fn plan_file(fs: &FileTree, e: &Extension, target: &Agent, scope: &ConfigScope) -> (r: Result<
    Deployment,
    HkError,
>)
    ensures
        plan_view(r) == file_plan(fs@, e@, target@, scope@),
{
    let source = match &e.source_path {
        None => {
            return Err(HkError::NotFound("Extension source path missing".to_owned()));
        },
        Some(p) => audit::find_live_path(fs, p),
    };
    let dir = if e.kind == ExtensionKind::Subagent {
        target.subagent_dir_for(scope)
    } else {
        target.command_dir_for(scope)
    };
    match dir {
        None => Err(
            HkError::Validation(
                text::cat4(
                    &target.name,
                    " does not support ",
                    e.kind.as_str(),
                    " extensions at this scope",
                ),
            ),
        ),
        Some(dir) => Ok(
            Deployment::ManagedFile { source, target_dir: dir, name: e.name.clone() },
        ),
    }
}

fn make_plan(
    fs: &FileTree,
    agents: &Vec<Agent>,
    e: &Extension,
    projects: &Vec<(String, String)>,
    id: &str,
    target: &Agent,
    category: Option<&str>,
    scope: &ConfigScope,
) -> (r: Result<Deployment, HkError>)
    ensures
        plan_view(r) == plan_for(
            fs@,
            models::list_view(agents@),
            e@,
            models::pairs_view(projects@),
            id@,
            target@,
            finishing::ostr_ref(category),
            scope@,
        ),
{
    match e.kind {
        ExtensionKind::Skill => plan_skill(
            fs,
            agents,
            e,
            projects,
            id,
            target,
            category,
            scope,
        ),
        ExtensionKind::Mcp => plan_server(agents, e, id, target, scope),
        ExtensionKind::Hook => plan_hook(agents, e, id, target, scope),
        ExtensionKind::Cli => plan_tool(fs, agents, e, projects, target, scope),
        ExtensionKind::Plugin => Err(
            HkError::Internal(
                "Cross-agent deploy not supported for 'plugin' extensions".to_owned(),
            ),
        ),
        _ => plan_file(fs, e, target, scope),
    }
}

fn find_project(projects: &Vec<(String, String)>, p: &str) -> (r: bool)
    ensures
        r == is_registered(models::pairs_view(projects@), p@),
{
    let ghost v = models::pairs_view(projects@);
    let mut i: usize = 0;
    while i < projects.len()
        invariant
            v == models::pairs_view(projects@),
            i <= projects.len(),
            forall|j: int| 0 <= j < i ==> (#[trigger] v[j]).1 != p@,
        decreases projects.len() - i,
    {
        if text::str_eq(&projects[i].1, p) {
            assert(v[i as int].1 == p@);
            return true;
        }
        i += 1;
    }
    false
}

/// What is to be written to install a known extension to an agent in a scope. A
/// project has to be known. `category` chooses among the directories of an agent
/// that sorts its skills.
pub fn plan_install(
    store: &Store,
    fs: &FileTree,
    agents: &Vec<Agent>,
    extension_id: &str,
    target_agent: &str,
    category: Option<&str>,
    target_scope: &ConfigScope,
) -> (r: Result<Deployment, HkError>)
    ensures
        plan_view(r) == plan_of(
            store@,
            fs@,
            models::list_view(agents@),
            extension_id@,
            target_agent@,
            finishing::ostr_ref(category),
            target_scope@,
        ),
{
    let e = match store.get_extension(extension_id) {
        None => {
            return Err(HkError::NotFound("Extension not found".to_owned()));
        },
        Some(e) => e,
    };
    let projects = store.list_project_tuples();
    if let ConfigScope::Project { path, .. } = target_scope {
        if !find_project(&projects, path) {
            return Err(
                HkError::Validation(
                    text::cat3(
                        "Project '",
                        path,
                        "' is not registered in HarnessKit; add the project first",
                    ),
                ),
            );
        }
    }
    match finishing::find_agent(agents, target_agent) {
        None => Err(HkError::NotFound(text::cat3("Agent '", target_agent, "' not found"))),
        Some(i) => make_plan(
            fs,
            agents,
            &e,
            &projects,
            extension_id,
            &agents[i],
            category,
            target_scope,
        ),
    }
}

// ---------------------------------------------------------------------------
// The whole
// ---------------------------------------------------------------------------

/// What an installation reports: the name under which it was written, the name of
/// a server, or event and command of a hook.
pub open spec fn reported(d: DeploymentView, name: Seq<char>) -> Seq<char> {
    match d {
        DeploymentView::Server { server, .. } => server.name,
        DeploymentView::Hook { hook, .. } => hook.event + ":"@ + hook.command,
        _ => name,
    }
}

/// Whether a store is what an installation leaves behind: a skill with an install
/// record hands it on, other extensions change nothing.
pub open spec fn handed_on<A: Fn(AuditInput) -> AuditResult>(
    judge: A,
    before: StoreView,
    after: StoreView,
    e: ExtensionView,
    target: Seq<char>,
    scope: ConfigScopeView,
    now: Timestamp,
    w: Deployed,
) -> bool {
    if e.kind == ExtensionKind::Skill && e.install_meta is Some {
        finishing::install_recorded(
            judge,
            w.fs@,
            models::list_view(w.agents@),
            w.name@,
            finishing::installed(
                before,
                w.fs@,
                models::list_view(w.agents@),
                seq![target],
                w.name@,
                e.install_meta,
                e.pack,
                scope,
                now,
            ),
            after,
        )
    } else {
        after == before
    }
}

/// What is handed to the judge after an installation: the skills with the installed
/// name that are then found, if the install record is handed on.
pub open spec fn judged_inputs(
    before: StoreView,
    e: ExtensionView,
    target: Seq<char>,
    scope: ConfigScopeView,
    now: Timestamp,
    w: Deployed,
) -> Seq<AuditInputView> {
    if e.kind == ExtensionKind::Skill && e.install_meta is Some {
        audit::named_inputs(
            w.fs@,
            models::list_view(w.agents@),
            finishing::installed(
                before,
                w.fs@,
                models::list_view(w.agents@),
                seq![target],
                w.name@,
                e.install_meta,
                e.pack,
                scope,
                now,
            ).1,
            w.name@,
        )
    } else {
        Seq::<AuditInputView>::empty()
    }
}

/// Whether a result and a store are what follows the reply of the one who writes.
pub open spec fn write_handled<A: Fn(AuditInput) -> AuditResult>(
    judge: A,
    before: StoreView,
    after: StoreView,
    e: ExtensionView,
    d: DeploymentView,
    target: Seq<char>,
    scope: ConfigScopeView,
    now: Timestamp,
    reply: Result<Deployed, HkError>,
    r: Result<String, HkError>,
) -> bool {
    match reply {
        Err(x) => r == Err::<String, HkError>(x) && after == before,
        Ok(w) => r is Ok && r->Ok_0@ == reported(d, w.name@) && handed_on(
            judge,
            before,
            after,
            e,
            target,
            scope,
            now,
            w,
        ),
    }
}

fn report(d: &Deployment, name: &str) -> (r: String)
    ensures
        r@ == reported(d@, name@),
{
    match d {
        Deployment::Server { server, .. } => server.name.clone(),
        Deployment::Hook { hook, .. } => text::cat3(&hook.event, ":", &hook.command),
        _ => name.to_owned(),
    }
}

fn copy_deployment(d: &Deployment) -> (r: Deployment)
    ensures
        r@ == d@,
{
    match d {
        Deployment::Skill { source, target_dir } => Deployment::Skill {
            source: source.clone(),
            target_dir: target_dir.clone(),
        },
        Deployment::Server { config, server, inject_path, agent } => Deployment::Server {
            config: config.clone(),
            server: server.clone(),
            inject_path: *inject_path,
            agent: agent.clone(),
        },
        Deployment::Hook { config, hook, agent } => Deployment::Hook {
            config: config.clone(),
            hook: hook.clone(),
            agent: agent.clone(),
        },
        Deployment::ManagedFile { source, target_dir, name } => Deployment::ManagedFile {
            source: source.clone(),
            target_dir: target_dir.clone(),
            name: name.clone(),
        },
    }
}

fn hand_on<A: Fn(AuditInput) -> AuditResult>(
    store: &mut Store,
    e: &Extension,
    target_agent: &str,
    target_scope: &ConfigScope,
    now: Timestamp,
    w: &Deployed,
    judge: A,
)
    requires
        forall|x: AuditInput|
            judged_inputs(
                old(store)@,
                e@,
                target_agent@,
                target_scope@,
                now,
                *w,
            ).contains(x@) ==> #[trigger] call_requires(judge, (x,)),
    ensures
        handed_on(
            judge,
            old(store)@,
            final(store)@,
            e@,
            target_agent@,
            target_scope@,
            now,
            *w,
        ),
{
    if e.kind == ExtensionKind::Skill && e.install_meta.is_some() {
        let names = text::one(target_agent.to_owned());
        let pack: Option<&str> = match &e.pack {
            Some(p) => Some(p.as_str()),
            None => None,
        };
        let _ = finishing::post_install_sync(
            store,
            &w.fs,
            &w.agents,
            &names,
            &w.name,
            &e.install_meta,
            pack,
            target_scope,
            now,
            judge,
        );
    }
}

/// What follows the reply of the one who writes a deployment of the extension `e` to an
/// agent: on success the name under which it is installed is told, and a skill that has
/// an install record hands it on.
pub fn finish_install<A: Fn(AuditInput) -> AuditResult>(
    store: &mut Store,
    e: &Extension,
    d: &Deployment,
    target_agent: &str,
    target_scope: &ConfigScope,
    now: Timestamp,
    reply: Result<Deployed, HkError>,
    judge: A,
) -> (r: Result<String, HkError>)
    requires
        reply matches Ok(w) ==> forall|x: AuditInput|
            judged_inputs(old(store)@, e@, target_agent@, target_scope@, now, w).contains(x@)
                ==> #[trigger] call_requires(judge, (x,)),
    ensures
        write_handled(
            judge,
            old(store)@,
            final(store)@,
            e@,
            d@,
            target_agent@,
            target_scope@,
            now,
            reply,
            r,
        ),
{
    match reply {
        Err(x) => Err(x),
        Ok(w) => {
            hand_on(store, e, target_agent, target_scope, now, &w, judge);
            Ok(report(d, &w.name))
        },
    }
}

/// Installs a known extension to an agent in a scope, and tells under which name.
/// `write` puts it on the disk and tells what is found there afterwards; `judge`
/// audits one extension.
///
/// A skill that has an install record hands it on to its copy, and to the agents
/// that load skills from the same directory.
///
/// `write` need only be ready for the plan, and `judge` for the skills that are then
/// found under the name; a refused installation hands over nothing.
pub fn install_to_agent<
    W: FnOnce(Deployment) -> Result<Deployed, HkError>,
    A: Fn(AuditInput) -> AuditResult,
>(
    store: &mut Store,
    fs: &FileTree,
    agents: &Vec<Agent>,
    extension_id: &str,
    target_agent: &str,
    category: Option<&str>,
    target_scope: &ConfigScope,
    now: Timestamp,
    write: W,
    judge: A,
) -> (r: Result<String, HkError>)
    requires
        plan_of(
            old(store)@,
            fs@,
            models::list_view(agents@),
            extension_id@,
            target_agent@,
            finishing::ostr_ref(category),
            target_scope@,
        ) matches Ok(p) ==> forall|d: Deployment|
            d@ == p ==> #[trigger] call_requires(write, (d,)),
        plan_of(
            old(store)@,
            fs@,
            models::list_view(agents@),
            extension_id@,
            target_agent@,
            finishing::ostr_ref(category),
            target_scope@,
        ) matches Ok(p) ==> forall|d: Deployment, w: Deployed, x: AuditInput|
            #![trigger call_ensures(write, (d,), Ok(w)), call_requires(judge, (x,))]
            d@ == p && call_ensures(write, (d,), Ok(w)) && judged_inputs(
                old(store)@,
                store::row_with(old(store)@.rows, extension_id@)->0,
                target_agent@,
                target_scope@,
                now,
                w,
            ).contains(x@) ==> call_requires(judge, (x,)),
    ensures
        match plan_of(
            old(store)@,
            fs@,
            models::list_view(agents@),
            extension_id@,
            target_agent@,
            finishing::ostr_ref(category),
            target_scope@,
        ) {
            Err(x) => r is Err && r->Err_0@ == x && final(store)@ == old(store)@,
            Ok(d) => exists|x: Deployment, reply: Result<Deployed, HkError>|
                x@ == d && #[trigger] call_ensures(write, (x,), reply) && write_handled(
                    judge,
                    old(store)@,
                    final(store)@,
                    store::row_with(old(store)@.rows, extension_id@)->0,
                    d,
                    target_agent@,
                    target_scope@,
                    now,
                    reply,
                    r,
                ),
        },
{
    let d = match plan_install(
        store,
        fs,
        agents,
        extension_id,
        target_agent,
        category,
        target_scope,
    ) {
        Err(x) => {
            return Err(x);
        },
        Ok(d) => d,
    };
    let e = match store.get_extension(extension_id) {
        None => {
            return Err(HkError::NotFound("Extension not found".to_owned()));
        },
        Some(e) => e,
    };
    let order = copy_deployment(&d);
    let ghost x = order;
    let reply = write(order);
    let ghost heard = reply;
    assert(call_ensures(write, (x,), heard));
    finish_install(store, &e, &d, target_agent, target_scope, now, reply, judge)
}

// ---------------------------------------------------------------------------
// Laws
// ---------------------------------------------------------------------------

/// Nothing is ever written for a project that is not known.
pub proof fn unknown_projects_are_refused(
    s: StoreView,
    fs: FileTreeView,
    agents: Seq<AgentView>,
    id: Seq<char>,
    target: Seq<char>,
    category: Option<Seq<char>>,
    name: Seq<char>,
    path: Seq<char>,
)
    requires
        !is_registered(store::project_tuples(s.projects), path),
    ensures
        plan_of(
            s,
            fs,
            agents,
            id,
            target,
            category,
            ConfigScopeView::Project { name, path },
        ) is Err,
        store::has_id(s.rows, id) ==> plan_of(
            s,
            fs,
            agents,
            id,
            target,
            category,
            ConfigScopeView::Project { name, path },
        ) == Err::<DeploymentView, HkErrorView>(
            HkErrorView::Validation(
                "Project '"@ + path + "' is not registered in HarnessKit; add the project first"@,
            ),
        ),
{
    store::laws::known_rows_are_found(s.rows, id);
}

/// Whatever is written goes to the agent that was named: a server, a hook, a skill
/// or a file goes to a place that this agent has for the scope.
pub proof fn plans_stay_with_the_target(
    s: StoreView,
    fs: FileTreeView,
    agents: Seq<AgentView>,
    id: Seq<char>,
    target: Seq<char>,
    category: Option<Seq<char>>,
    scope: ConfigScopeView,
    d: DeploymentView,
)
    requires
        plan_of(s, fs, agents, id, target, category, scope) == Ok::<DeploymentView, HkErrorView>(
            d,
        ),
    ensures
        finishing::agent_named(agents, target) matches Some(a) && (match d {
            DeploymentView::Skill { target_dir, .. } => a.skill_dir_in(scope) == Some(target_dir)
                || skill_target(a, category, scope) == Some(target_dir),
            DeploymentView::Server { config, .. } => a.supports_mcp && a.mcp_config_in(scope)
                == Some(config),
            DeploymentView::Hook { config, .. } => a.hook_config_in(scope) == Some(config) && (
            scope is Global ==> a.supports_global_hooks),
            DeploymentView::ManagedFile { target_dir, .. } => a.subagent_dir_in(scope) == Some(
                target_dir,
            ) || a.command_dir_in(scope) == Some(target_dir),
        }),
{
}

} // verus!
