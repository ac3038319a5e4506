//! Why an extension is not installed or not shown.

use vstd::prelude::*;

use crate::agents;
use crate::agents::AgentView;
use crate::files::FileTreeView;
use crate::models::{ConfigScopeView, ExtensionKind, HkErrorView, HookEntryView};
use crate::outside;
use crate::service::content;
use crate::service::content::ReadingView;
use crate::service::deploy;
use crate::service::deploy::DeploymentView;
use crate::service::deploy_laws;
use crate::service::finishing;
use crate::skills;
use crate::store;
use crate::store::StoreView;

verus! {

/// Whether an installation is refused with an error.
pub open spec fn is_refused(r: Result<DeploymentView, HkErrorView>, why: HkErrorView) -> bool {
    r == Err::<DeploymentView, HkErrorView>(why)
}

/// A skill is not installed if its files are not found, or else if the target has no
/// place for it: neither for the category nor for the scope. A tool goes by the skill
/// that bears the name of its binary.
pub proof fn skills_need_files_and_a_place(
    s: StoreView,
    fs: FileTreeView,
    agents: Seq<AgentView>,
    id: Seq<char>,
    target: Seq<char>,
    category: Option<Seq<char>>,
    scope: ConfigScopeView,
)
    requires
        store::row_with(s.rows, id) is Some,
        scope is Global || deploy_laws::is_known_path(s.projects, scope->path),
        finishing::agent_named(agents, target) is Some,
    ensures
        ({
            let e = store::row_with(s.rows, id)->0;
            let a = finishing::agent_named(agents, target)->0;
            let r = deploy::plan_of(s, fs, agents, id, target, category, scope);
            let projects = store::project_tuples(s.projects);
            let found = skills::location_of(fs, agents, id, e.agents, projects) is Some;
            let binary = match e.cli_meta {
                Some(m) => m.binary_name,
                None => outside::lowercase(e.name),
            };
            let brought = skills::locations_of(fs, binary, agents, projects, None).len() > 0;
            let no_place = HkErrorView::Validation(target + " has no skill directory at this scope"@);
            let by_category = category is Some && a.category_dir_in(scope, category->0) is Some;
            &&& e.kind == ExtensionKind::Skill ==> {
                &&& !found ==> is_refused(
                    r,
                    HkErrorView::Internal("Could not find source skill files"@),
                )
                &&& found && !by_category && a.skill_dir_in(scope) is None ==> is_refused(r, no_place)
                &&& found && (by_category || a.skill_dir_in(scope) is Some) ==> r is Ok
            }
            &&& e.kind == ExtensionKind::Cli ==> {
                &&& !brought ==> is_refused(
                    r,
                    HkErrorView::Internal("Could not find source skill files for CLI"@),
                )
                &&& brought && a.skill_dir_in(scope) is None ==> is_refused(r, no_place)
                &&& brought && a.skill_dir_in(scope) is Some ==> r is Ok
            }
            &&& e.kind == ExtensionKind::Plugin ==> is_refused(
                r,
                HkErrorView::Internal("Cross-agent deploy not supported for 'plugin' extensions"@),
            )
        }),
{
    deploy_laws::agents_are_found_by_name(agents, target);
    if let ConfigScopeView::Project { path, .. } = scope {
        deploy_laws::lemma_registered(s.projects, path);
    }
}

/// A server is not installed if the target cannot run servers, or else if no agent lists
/// it, or else if the target has no file for it in the scope. A subagent or a command is
/// not installed if its file is not known, or else if the target has no place for it.
pub proof fn servers_and_files_need_a_place(
    s: StoreView,
    fs: FileTreeView,
    agents: Seq<AgentView>,
    id: Seq<char>,
    target: Seq<char>,
    category: Option<Seq<char>>,
    scope: ConfigScopeView,
)
    requires
        store::row_with(s.rows, id) is Some,
        scope is Global || deploy_laws::is_known_path(s.projects, scope->path),
        finishing::agent_named(agents, target) is Some,
    ensures
        ({
            let e = store::row_with(s.rows, id)->0;
            let a = finishing::agent_named(agents, target)->0;
            let r = deploy::plan_of(s, fs, agents, id, target, category, scope);
            let listed = deploy_laws::server_is_listed(agents, e, id);
            let place = if e.kind == ExtensionKind::Subagent {
                a.subagent_dir_in(scope)
            } else {
                a.command_dir_in(scope)
            };
            &&& e.kind == ExtensionKind::Mcp ==> {
                &&& !a.supports_mcp ==> is_refused(
                    r,
                    HkErrorView::Validation(
                        target
                            + " MCP support is unavailable because its native capability has not been verified"@,
                    ),
                )
                &&& a.supports_mcp && !listed ==> is_refused(
                    r,
                    HkErrorView::Internal("Could not find source MCP server config"@),
                )
                &&& a.supports_mcp && listed && a.mcp_config_in(scope) is None ==> is_refused(
                    r,
                    HkErrorView::Validation(
                        target + " does not support project-level MCP servers"@,
                    ),
                )
            }
            &&& e.kind == ExtensionKind::Subagent || e.kind == ExtensionKind::Command ==> {
                &&& e.source_path is None ==> is_refused(
                    r,
                    HkErrorView::NotFound("Extension source path missing"@),
                )
                &&& e.source_path is Some && place is None ==> is_refused(
                    r,
                    HkErrorView::Validation(
                        target + " does not support "@ + e.kind.text()
                            + " extensions at this scope"@,
                    ),
                )
                &&& e.source_path is Some && place is Some ==> r is Ok
            }
        }),
{
    let e = store::row_with(s.rows, id)->0;
    deploy_laws::agents_are_found_by_name(agents, target);
    deploy_laws::lemma_source_server(agents, e, id);
    if let ConfigScopeView::Project { path, .. } = scope {
        deploy_laws::lemma_registered(s.projects, path);
    }
    if let Some(x) = deploy::source_server(agents, e, id) {
        let k = choose|k: int|
            0 <= k < agents.len() && deploy_laws::lists_server(#[trigger] agents[k], e, id, x);
        assert(deploy_laws::lists_server(agents[k], e, id, x));
    }
}

/// A hook is not installed if no agent lists it; or else if the target has no name for
/// its event; or else if the target loads no global hooks and the scope is global; or
/// else if the target has no file for hooks in the scope.
pub proof fn hooks_need_an_event_and_a_place(
    s: StoreView,
    fs: FileTreeView,
    agents: Seq<AgentView>,
    id: Seq<char>,
    target: Seq<char>,
    category: Option<Seq<char>>,
    scope: ConfigScopeView,
    event: Seq<char>,
)
    requires
        store::row_with(s.rows, id) is Some,
        store::row_with(s.rows, id)->0.kind == ExtensionKind::Hook,
        scope is Global || deploy_laws::is_known_path(s.projects, scope->path),
        finishing::agent_named(agents, target) is Some,
    ensures
        ({
            let e = store::row_with(s.rows, id)->0;
            let a = finishing::agent_named(agents, target)->0;
            let r = deploy::plan_of(s, fs, agents, id, target, category, scope);
            let listed = deploy_laws::hook_is_listed(agents, e, id);
            let of_event = forall|k: int, h: HookEntryView|
                0 <= k < agents.len() && #[trigger] deploy_laws::lists_hook(agents[k], e, id, h)
                    ==> h.event == event;
            let named = agents::value_of(a.hook_events, event) is Some;
            let shut = scope is Global && !a.supports_global_hooks;
            &&& !listed ==> is_refused(
                r,
                HkErrorView::Internal("Could not find source hook config"@),
            )
            &&& listed && of_event && !named ==> is_refused(
                r,
                HkErrorView::Internal("Hook event '"@ + event + "' is not supported by "@ + target),
            )
            &&& listed && of_event && named && shut ==> is_refused(
                r,
                HkErrorView::Validation(
                    target
                        + " does not load user-level (global) hooks yet; hooks for this agent can only be installed per-project"@,
                ),
            )
            &&& listed && of_event && named && !shut && a.hook_config_in(scope) is None
                ==> is_refused(
                r,
                HkErrorView::Validation(target + " does not support project-level hooks"@),
            )
        }),
{
    let e = store::row_with(s.rows, id)->0;
    deploy_laws::agents_are_found_by_name(agents, target);
    deploy_laws::lemma_source_hook(agents, e, id);
    if let ConfigScopeView::Project { path, .. } = scope {
        deploy_laws::lemma_registered(s.projects, path);
    }
    if let Some(h) = deploy::source_hook(agents, e, id) {
        let k = choose|k: int|
            0 <= k < agents.len() && deploy_laws::lists_hook(#[trigger] agents[k], e, id, h);
        assert(deploy_laws::lists_hook(agents[k], e, id, h));
    }
}

/// What cannot be shown is missing: a skill whose files are not found, or a subagent or
/// a command whose file is not known.
pub proof fn missing_files_are_not_shown(
    s: StoreView,
    fs: FileTreeView,
    agents: Seq<AgentView>,
    id: Seq<char>,
)
    requires
        store::row_with(s.rows, id) is Some,
        content::reading_of(s, fs, agents, id) is Err,
    ensures
        ({
            let e = store::row_with(s.rows, id)->0;
            let why = if e.kind == ExtensionKind::Skill {
                "Skill file not found"@
            } else {
                "Extension source path missing"@
            };
            content::reading_of(s, fs, agents, id) == Err::<ReadingView, HkErrorView>(
                HkErrorView::NotFound(why),
            )
        }),
{
}

} // verus!
