//! What is written when an extension of each kind is installed to another agent, and
//! when nothing is.

use vstd::prelude::*;

use crate::agents;
use crate::agents::AgentView;
use crate::files::FileTreeView;
use crate::ids;
use crate::models::{
    ConfigScopeView, ExtensionKind, ExtensionView, HkErrorView, HookEntryView, McpServerEntryView,
};
use crate::outside;
use crate::scanner;
use crate::service::deploy;
use crate::service::deploy::DeploymentView;
use crate::service::finishing;
use crate::service::lookup;
use crate::skills;
use crate::store;
use crate::store::merging;
use crate::store::{ProjectView, StoreView};

verus! {

// ---------------------------------------------------------------------------
// The target
// ---------------------------------------------------------------------------

/// The agent with a name is the first one that bears it; there is one exactly if some
/// agent does.
pub proof fn agents_are_found_by_name(agents: Seq<AgentView>, name: Seq<char>)
    ensures
        finishing::agent_named(agents, name) is Some <==> exists|k: int|
            0 <= k < agents.len() && (#[trigger] agents[k]).name == name,
        finishing::agent_named(agents, name) matches Some(a) ==> a.name == name && exists|k: int|
            0 <= k < agents.len() && (#[trigger] agents[k]) == a && forall|j: int|
                0 <= j < k ==> (#[trigger] agents[j]).name != name,
    decreases agents.len(),
{
    if agents.len() > 0 {
        let t = agents.drop_first();
        agents_are_found_by_name(t, name);
        if agents[0].name == name {
            assert(agents[0] == finishing::agent_named(agents, name)->0);
        } else {
            if finishing::agent_named(t, name) is Some {
                let a = finishing::agent_named(t, name)->0;
                let k = choose|k: int|
                    0 <= k < t.len() && (#[trigger] t[k]) == a && forall|j: int|
                        0 <= j < k ==> (#[trigger] t[j]).name != name;
                assert(agents[k + 1] == a);
                assert forall|j: int| 0 <= j < k + 1 implies (#[trigger] agents[j]).name
                    != name by {
                    if j > 0 {
                        assert(t[j - 1].name != name);
                    }
                }
            }
            if exists|k: int| 0 <= k < agents.len() && (#[trigger] agents[k]).name == name {
                let k = choose|k: int| 0 <= k < agents.len() && (#[trigger] agents[k]).name == name;
                assert(t[k - 1].name == name);
            }
        }
    }
}

/// Whether a project with a path is known.
pub open spec fn is_known_path(projects: Seq<ProjectView>, p: Seq<char>) -> bool {
    exists|i: int| 0 <= i < projects.len() && (#[trigger] projects[i]).path == p
}

pub proof fn lemma_registered(projects: Seq<ProjectView>, p: Seq<char>)
    ensures
        deploy::is_registered(store::project_tuples(projects), p) <==> is_known_path(projects, p),
{
    broadcast use vstd::seq_lib::group_to_multiset_ensures;

    let all = store::by_age(projects);
    let tuples = store::project_tuples(projects);
    merging::projects_are_listed_by_age(projects);
    if deploy::is_registered(tuples, p) {
        let i = choose|i: int| 0 <= i < tuples.len() && (#[trigger] tuples[i]).1 == p;
        assert(all.to_multiset().count(all[i]) > 0);
        assert(projects.contains(all[i]));
        let k = choose|k: int| 0 <= k < projects.len() && projects[k] == all[i];
        assert(projects[k].path == p);
    }
    if is_known_path(projects, p) {
        let k = choose|k: int| 0 <= k < projects.len() && (#[trigger] projects[k]).path == p;
        assert(projects.to_multiset().count(projects[k]) > 0);
        assert(all.contains(projects[k]));
        let i = choose|i: int| 0 <= i < all.len() && all[i] == projects[k];
        assert(tuples[i].1 == p);
    }
}

/// Nothing is written unless the extension is known, the project is one that is known,
/// and the target is an agent; the first of these that fails is the error.
pub proof fn installing_needs_extension_project_and_agent(
    s: StoreView,
    fs: FileTreeView,
    agents: Seq<AgentView>,
    id: Seq<char>,
    target: Seq<char>,
    category: Option<Seq<char>>,
    scope: ConfigScopeView,
)
    ensures
        ({
            let r = deploy::plan_of(s, fs, agents, id, target, category, scope);
            let known = store::row_with(s.rows, id) is Some;
            let at_home = scope is Global || is_known_path(s.projects, scope->path);
            let there = exists|k: int| 0 <= k < agents.len() && (#[trigger] agents[k]).name == target;
            &&& !known ==> r == Err::<DeploymentView, HkErrorView>(
                HkErrorView::NotFound("Extension not found"@),
            )
            &&& known && !at_home ==> r == Err::<DeploymentView, HkErrorView>(
                HkErrorView::Validation(
                    "Project '"@ + scope->path
                        + "' is not registered in HarnessKit; add the project first"@,
                ),
            )
            &&& known && at_home && !there ==> r == Err::<DeploymentView, HkErrorView>(
                HkErrorView::NotFound("Agent '"@ + target + "' not found"@),
            )
            &&& r is Ok ==> known && at_home && there
        }),
{
    agents_are_found_by_name(agents, target);
    if let ConfigScopeView::Project { path, .. } = scope {
        lemma_registered(s.projects, path);
    }
}

// ---------------------------------------------------------------------------
// Entries of configuration files
// ---------------------------------------------------------------------------

/// Whether an agent of an extension lists a server with an identifier in the file of
/// its scope.
pub open spec fn lists_server(
    a: AgentView,
    e: ExtensionView,
    id: Seq<char>,
    s: McpServerEntryView,
) -> bool {
    &&& e.agents.contains(a.name)
    &&& a.mcp_config_in(e.scope) matches Some(p) && agents::servers_at(a.mcp_files, p).contains(s)
    &&& ids::scoped_id(s.name, "mcp"@, a.name, e.scope) == id
}

/// Whether an agent of an extension lists a hook with an identifier: in the file that
/// the extension was found in, or in one of those that may list hooks of its scope.
pub open spec fn lists_hook(
    a: AgentView,
    e: ExtensionView,
    id: Seq<char>,
    h: HookEntryView,
) -> bool {
    &&& e.agents.contains(a.name)
    &&& exists|f: Seq<char>|
        (match e.source_path {
            Some(p) => f == p,
            None => a.hook_configs_in(e.scope).contains(f),
        }) && (#[trigger] agents::hooks_at(a.hook_files, f)).contains(h)
    &&& ids::scoped_id(scanner::hook_name(h), "hook"@, a.name, e.scope) == id
}

pub proof fn lemma_server_in(
    servers: Seq<McpServerEntryView>,
    agent: Seq<char>,
    scope: ConfigScopeView,
    id: Seq<char>,
)
    ensures
        lookup::server_in(servers, agent, scope, id) matches Some(s) ==> servers.contains(s)
            && ids::scoped_id(s.name, "mcp"@, agent, scope) == id,
        lookup::server_in(servers, agent, scope, id) is None ==> forall|q: int|
            0 <= q < servers.len() ==> ids::scoped_id(
                (#[trigger] servers[q]).name,
                "mcp"@,
                agent,
                scope,
            ) != id,
    decreases servers.len(),
{
    if servers.len() > 0 {
        let t = servers.drop_first();
        lemma_server_in(t, agent, scope, id);
        assert(servers[0] == servers.first());
        if lookup::server_in(servers, agent, scope, id) is None {
            assert forall|q: int| 0 <= q < servers.len() implies ids::scoped_id(
                (#[trigger] servers[q]).name,
                "mcp"@,
                agent,
                scope,
            ) != id by {
                if q > 0 {
                    assert(t[q - 1] == servers[q]);
                }
            }
        } else if !lookup::is_server(servers[0], agent, scope, id) {
            let s = lookup::server_in(t, agent, scope, id)->0;
            let q = choose|q: int| 0 <= q < t.len() && t[q] == s;
            assert(servers[q + 1] == s);
        }
    }
}

pub proof fn lemma_hook_in(
    hooks: Seq<HookEntryView>,
    agent: Seq<char>,
    scope: ConfigScopeView,
    id: Seq<char>,
)
    ensures
        lookup::hook_in(hooks, agent, scope, id) matches Some(h) ==> hooks.contains(h)
            && ids::scoped_id(scanner::hook_name(h), "hook"@, agent, scope) == id,
        lookup::hook_in(hooks, agent, scope, id) is None ==> forall|q: int|
            0 <= q < hooks.len() ==> ids::scoped_id(
                scanner::hook_name(#[trigger] hooks[q]),
                "hook"@,
                agent,
                scope,
            ) != id,
    decreases hooks.len(),
{
    if hooks.len() > 0 {
        let t = hooks.drop_first();
        lemma_hook_in(t, agent, scope, id);
        assert(hooks[0] == hooks.first());
        if lookup::hook_in(hooks, agent, scope, id) is None {
            assert forall|q: int| 0 <= q < hooks.len() implies ids::scoped_id(
                scanner::hook_name(#[trigger] hooks[q]),
                "hook"@,
                agent,
                scope,
            ) != id by {
                if q > 0 {
                    assert(t[q - 1] == hooks[q]);
                }
            }
        } else if !lookup::is_hook(hooks[0], agent, scope, id) {
            let h = lookup::hook_in(t, agent, scope, id)->0;
            let q = choose|q: int| 0 <= q < t.len() && t[q] == h;
            assert(hooks[q + 1] == h);
        }
    }
}

/// Whether some agent lists the server of an extension.
pub open spec fn server_is_listed(agents: Seq<AgentView>, e: ExtensionView, id: Seq<char>) -> bool {
    exists|k: int, s: McpServerEntryView|
        0 <= k < agents.len() && #[trigger] lists_server(agents[k], e, id, s)
}

pub proof fn lemma_source_server(agents: Seq<AgentView>, e: ExtensionView, id: Seq<char>)
    ensures
        deploy::source_server(agents, e, id) matches Some(s) ==> exists|k: int|
            0 <= k < agents.len() && lists_server(#[trigger] agents[k], e, id, s),
        deploy::source_server(agents, e, id) is None ==> !server_is_listed(agents, e, id),
    decreases agents.len(),
{
    if agents.len() > 0 {
        let t = agents.drop_first();
        let a = agents[0];
        lemma_source_server(t, e, id);
        if let Some(p) = a.mcp_config_in(e.scope) {
            lemma_server_in(agents::servers_at(a.mcp_files, p), a.name, e.scope, id);
        }
        let here = if e.agents.contains(a.name) && a.mcp_config_in(e.scope) is Some {
            lookup::server_at(a, a.mcp_config_in(e.scope)->0, e.scope, id)
        } else {
            None
        };
        if here is Some {
            assert(lists_server(agents[0], e, id, here->0));
        } else if deploy::source_server(agents, e, id) is Some {
            let s = deploy::source_server(t, e, id)->0;
            let k = choose|k: int| 0 <= k < t.len() && lists_server(#[trigger] t[k], e, id, s);
            assert(agents[k + 1] == t[k]);
        } else if server_is_listed(agents, e, id) {
            let (k, s) = choose|k: int, s: McpServerEntryView|
                0 <= k < agents.len() && #[trigger] lists_server(agents[k], e, id, s);
            if k > 0 {
                assert(lists_server(t[k - 1], e, id, s));
            } else {
                let p = a.mcp_config_in(e.scope)->0;
                let listed = agents::servers_at(a.mcp_files, p);
                let q = choose|q: int| 0 <= q < listed.len() && listed[q] == s;
                assert(ids::scoped_id(listed[q].name, "mcp"@, a.name, e.scope) != id);
            }
        }
    }
}

/// Installing a server writes the entry that one of its agents lists, as it stands
/// there, to the file in which the target lists the servers of the scope. It is
/// written exactly if the target takes servers, has such a file, and the entry is
/// found.
pub proof fn server_is_written_as_it_stands(
    s: StoreView,
    fs: FileTreeView,
    agents: Seq<AgentView>,
    id: Seq<char>,
    target: Seq<char>,
    category: Option<Seq<char>>,
    scope: ConfigScopeView,
)
    requires
        store::row_with(s.rows, id) is Some,
        store::row_with(s.rows, id)->0.kind == ExtensionKind::Mcp,
        scope is Global || is_known_path(s.projects, scope->path),
        finishing::agent_named(agents, target) is Some,
    ensures
        ({
            let e = store::row_with(s.rows, id)->0;
            let a = finishing::agent_named(agents, target)->0;
            let r = deploy::plan_of(s, fs, agents, id, target, category, scope);
            &&& r is Ok <==> a.supports_mcp && a.mcp_config_in(scope) is Some && server_is_listed(
                agents,
                e,
                id,
            )
            &&& r matches Ok(d) ==> (d matches DeploymentView::Server {
                config,
                server,
                inject_path,
                agent,
            } && a.mcp_config_in(scope) == Some(config) && agent == target && inject_path
                == a.needs_path_injection && exists|k: int|
                0 <= k < agents.len() && lists_server(#[trigger] agents[k], e, id, server))
        }),
{
    let e = store::row_with(s.rows, id)->0;
    agents_are_found_by_name(agents, target);
    lemma_source_server(agents, e, id);
    if let ConfigScopeView::Project { path, .. } = scope {
        lemma_registered(s.projects, path);
    }
    if let Some(x) = deploy::source_server(agents, e, id) {
        let k = choose|k: int| 0 <= k < agents.len() && lists_server(#[trigger] agents[k], e, id, x);
        assert(lists_server(agents[k], e, id, x));
    }
}

/// Whether some agent lists the hook of an extension.
pub open spec fn hook_is_listed(agents: Seq<AgentView>, e: ExtensionView, id: Seq<char>) -> bool {
    exists|k: int, h: HookEntryView|
        0 <= k < agents.len() && #[trigger] lists_hook(agents[k], e, id, h)
}

proof fn lemma_hook_in_files(
    a: AgentView,
    files: Seq<Seq<char>>,
    scope: ConfigScopeView,
    id: Seq<char>,
    before: Option<HookEntryView>,
)
    ensures
        ({
            let r = deploy::hook_in_files(a, files, scope, id, before);
            &&& r is Some ==> r == before || exists|f: Seq<char>|
                files.contains(f) && (#[trigger] agents::hooks_at(a.hook_files, f)).contains(r->0)
                    && ids::scoped_id(scanner::hook_name(r->0), "hook"@, a.name, scope) == id
            &&& r is None ==> before is None && forall|f: Seq<char>, q: int|
                #![trigger agents::hooks_at(a.hook_files, f)[q]]
                files.contains(f) && 0 <= q < agents::hooks_at(a.hook_files, f).len()
                    ==> ids::scoped_id(
                    scanner::hook_name(agents::hooks_at(a.hook_files, f)[q]),
                    "hook"@,
                    a.name,
                    scope,
                ) != id
        }),
    decreases files.len(),
{
    if files.len() > 0 {
        let t = files.drop_first();
        let f0 = files[0];
        let r = deploy::hook_in_files(a, files, scope, id, before);
        lemma_hook_in(agents::hooks_at(a.hook_files, f0), a.name, scope, id);
        assert(files.contains(f0));
        let here = match lookup::hook_at(a, f0, scope, id) {
            Some(h) => Some(h),
            None => before,
        };
        if here is None {
            lemma_hook_in_files(a, t, scope, id, here);
            assert forall|f: Seq<char>| #[trigger] files.contains(f) implies f == f0
                || t.contains(f) by {
                let i = choose|i: int| 0 <= i < files.len() && files[i] == f;
                if i > 0 {
                    assert(t[i - 1] == f);
                }
            }
            assert forall|f: Seq<char>| #[trigger] t.contains(f) implies files.contains(f) by {
                let i = choose|i: int| 0 <= i < t.len() && t[i] == f;
                assert(files[i + 1] == f);
            }
        } else if lookup::hook_at(a, f0, scope, id) is Some {
            assert(agents::hooks_at(a.hook_files, f0).contains(r->0));
        }
    }
}

pub proof fn lemma_source_hook(agents: Seq<AgentView>, e: ExtensionView, id: Seq<char>)
    ensures
        deploy::source_hook(agents, e, id) matches Some(h) ==> exists|k: int|
            0 <= k < agents.len() && lists_hook(#[trigger] agents[k], e, id, h),
        deploy::source_hook(agents, e, id) is None ==> !hook_is_listed(agents, e, id),
    decreases agents.len(),
{
    if agents.len() > 0 {
        let t = agents.drop_last();
        let a = agents.last();
        let before = deploy::source_hook(t, e, id);
        let files = deploy::hook_files_of(a, e);
        lemma_source_hook(t, e, id);
        lemma_hook_in_files(a, files, e.scope, id, before);
        assert(forall|f: Seq<char>| #[trigger]
            files.contains(f) <==> (match e.source_path {
                Some(p) => f == p,
                None => a.hook_configs_in(e.scope).contains(f),
            })) by {
            if let Some(p) = e.source_path {
                assert(seq![p][0] == p);
            }
        }
        let r = deploy::source_hook(agents, e, id);
        if r is Some {
            if e.agents.contains(a.name) && r != before {
                let f = choose|f: Seq<char>|
                    files.contains(f) && (#[trigger] agents::hooks_at(a.hook_files, f)).contains(
                        r->0,
                    ) && ids::scoped_id(scanner::hook_name(r->0), "hook"@, a.name, e.scope) == id;
                assert(files.contains(f));
                assert(agents::hooks_at(a.hook_files, f).contains(r->0));
                assert(lists_hook(agents[agents.len() - 1], e, id, r->0));
            } else {
                let k = choose|k: int|
                    0 <= k < t.len() && lists_hook(#[trigger] t[k], e, id, before->0);
                assert(agents[k] == t[k]);
            }
        } else if hook_is_listed(agents, e, id) {
            let (k, h) = choose|k: int, h: HookEntryView|
                0 <= k < agents.len() && #[trigger] lists_hook(agents[k], e, id, h);
            if k < t.len() {
                assert(lists_hook(t[k], e, id, h));
            } else {
                let f = choose|f: Seq<char>|
                    (match e.source_path {
                        Some(p) => f == p,
                        None => a.hook_configs_in(e.scope).contains(f),
                    }) && (#[trigger] agents::hooks_at(a.hook_files, f)).contains(h);
                assert(files.contains(f));
                let listed = agents::hooks_at(a.hook_files, f);
                let q = choose|q: int| 0 <= q < listed.len() && listed[q] == h;
                assert(ids::scoped_id(
                    scanner::hook_name(agents::hooks_at(a.hook_files, f)[q]),
                    "hook"@,
                    a.name,
                    e.scope,
                ) != id);
            }
        }
    }
}

/// Installing a hook writes a hook that one of its agents lists to the file to which
/// the target adds hooks of the scope: with the same matcher, the same command and as
/// enabled as it was, and with the name that the target has for its event.
pub proof fn hook_is_written_with_its_event_named_anew(
    s: StoreView,
    fs: FileTreeView,
    agents: Seq<AgentView>,
    id: Seq<char>,
    target: Seq<char>,
    category: Option<Seq<char>>,
    scope: ConfigScopeView,
)
    requires
        store::row_with(s.rows, id) is Some,
        store::row_with(s.rows, id)->0.kind == ExtensionKind::Hook,
        scope is Global || is_known_path(s.projects, scope->path),
        finishing::agent_named(agents, target) is Some,
    ensures
        ({
            let e = store::row_with(s.rows, id)->0;
            let a = finishing::agent_named(agents, target)->0;
            let r = deploy::plan_of(s, fs, agents, id, target, category, scope);
            &&& r matches Ok(d) ==> (d matches DeploymentView::Hook { config, hook, agent }
                && a.hook_config_in(scope) == Some(config) && agent == target && (scope is Global
                ==> a.supports_global_hooks) && exists|k: int, h: HookEntryView|
                0 <= k < agents.len() && #[trigger] lists_hook(agents[k], e, id, h)
                    && agents::value_of(a.hook_events, h.event) == Some(hook.event) && hook.matcher
                    == h.matcher && hook.command == h.command && hook.enabled == h.enabled)
            &&& !hook_is_listed(agents, e, id) ==> r is Err
            &&& hook_is_listed(agents, e, id) && a.hook_config_in(scope) is Some && (scope is Global
                ==> a.supports_global_hooks) && (forall|k: int, h: HookEntryView|
                0 <= k < agents.len() && #[trigger] lists_hook(agents[k], e, id, h)
                    ==> agents::value_of(a.hook_events, h.event) is Some) ==> r is Ok
        }),
{
    let e = store::row_with(s.rows, id)->0;
    agents_are_found_by_name(agents, target);
    lemma_source_hook(agents, e, id);
    if let ConfigScopeView::Project { path, .. } = scope {
        lemma_registered(s.projects, path);
    }
    if let Some(h) = deploy::source_hook(agents, e, id) {
        let k = choose|k: int| 0 <= k < agents.len() && lists_hook(#[trigger] agents[k], e, id, h);
        assert(lists_hook(agents[k], e, id, h));
    }
}

// ---------------------------------------------------------------------------
// Files
// ---------------------------------------------------------------------------

/// Installing a skill copies what holds it to a directory of the target: to that of the
/// category, if one is given and the target has it for the scope, else to the directory
/// for skills of the scope. That happens exactly if the skill is found and the target
/// has such a directory.
pub proof fn skill_is_copied_to_the_target(
    s: StoreView,
    fs: FileTreeView,
    agents: Seq<AgentView>,
    id: Seq<char>,
    target: Seq<char>,
    category: Option<Seq<char>>,
    scope: ConfigScopeView,
)
    requires
        store::row_with(s.rows, id) is Some,
        store::row_with(s.rows, id)->0.kind == ExtensionKind::Skill,
        scope is Global || is_known_path(s.projects, scope->path),
        finishing::agent_named(agents, target) is Some,
    ensures
        ({
            let e = store::row_with(s.rows, id)->0;
            let a = finishing::agent_named(agents, target)->0;
            let found = skills::location_of(
                fs,
                agents,
                id,
                e.agents,
                store::project_tuples(s.projects),
            );
            let r = deploy::plan_of(s, fs, agents, id, target, category, scope);
            let has_category = category is Some && a.category_dir_in(scope, category->0) is Some;
            &&& r is Ok <==> found is Some && (has_category || a.skill_dir_in(scope) is Some)
            &&& r matches Ok(d) ==> (d matches DeploymentView::Skill { source, target_dir } && source
                == found->0.entry_path && (if has_category {
                Some(target_dir) == a.category_dir_in(scope, category->0)
            } else {
                Some(target_dir) == a.skill_dir_in(scope)
            }))
        }),
{
    if let ConfigScopeView::Project { path, .. } = scope {
        lemma_registered(s.projects, path);
    }
}

/// Installing a tool copies the skill that has the name of its program to the
/// directory for skills of the target.
pub proof fn tool_brings_its_skill(
    s: StoreView,
    fs: FileTreeView,
    agents: Seq<AgentView>,
    id: Seq<char>,
    target: Seq<char>,
    category: Option<Seq<char>>,
    scope: ConfigScopeView,
)
    requires
        store::row_with(s.rows, id) is Some,
        store::row_with(s.rows, id)->0.kind == ExtensionKind::Cli,
        scope is Global || is_known_path(s.projects, scope->path),
        finishing::agent_named(agents, target) is Some,
    ensures
        ({
            let e = store::row_with(s.rows, id)->0;
            let a = finishing::agent_named(agents, target)->0;
            let program = if e.cli_meta is Some {
                e.cli_meta->0.binary_name
            } else {
                outside::lowercase(e.name)
            };
            let found = skills::locations_of(
                fs,
                program,
                agents,
                store::project_tuples(s.projects),
                None,
            );
            let r = deploy::plan_of(s, fs, agents, id, target, category, scope);
            &&& r is Ok <==> found.len() > 0 && a.skill_dir_in(scope) is Some
            &&& r matches Ok(d) ==> (d matches DeploymentView::Skill { source, target_dir } && source
                == found[0].1 && Some(target_dir) == a.skill_dir_in(scope))
        }),
{
    if let ConfigScopeView::Project { path, .. } = scope {
        lemma_registered(s.projects, path);
    }
}

/// Installing a subagent or a command copies its live file, under its name, to the
/// directory that the target has for its kind: the file itself where it is there, else
/// the one that is disabled. A plugin is never installed to another agent.
pub proof fn live_file_is_copied(
    s: StoreView,
    fs: FileTreeView,
    agents: Seq<AgentView>,
    id: Seq<char>,
    target: Seq<char>,
    category: Option<Seq<char>>,
    scope: ConfigScopeView,
)
    requires
        store::row_with(s.rows, id) is Some,
        scope is Global || is_known_path(s.projects, scope->path),
        finishing::agent_named(agents, target) is Some,
    ensures
        ({
            let e = store::row_with(s.rows, id)->0;
            let a = finishing::agent_named(agents, target)->0;
            let r = deploy::plan_of(s, fs, agents, id, target, category, scope);
            let dir = if e.kind == ExtensionKind::Subagent {
                a.subagent_dir_in(scope)
            } else {
                a.command_dir_in(scope)
            };
            &&& e.kind == ExtensionKind::Subagent || e.kind == ExtensionKind::Command ==> {
                &&& r is Ok <==> e.source_path is Some && dir is Some
                &&& r matches Ok(d) ==> (d matches DeploymentView::ManagedFile {
                    source,
                    target_dir,
                    name,
                } && Some(target_dir) == dir && name == e.name && (if fs.at(
                    e.source_path->0,
                ).exists {
                    source == e.source_path->0
                } else {
                    source == e.source_path->0 + ".disabled"@
                }))
            }
            &&& e.kind == ExtensionKind::Plugin ==> r is Err
        }),
{
    if let ConfigScopeView::Project { path, .. } = scope {
        lemma_registered(s.projects, path);
    }
}

/// What an installation reports is the name of the server; event and command of the
/// hook, with a colon between them; or the name that the copy got.
pub proof fn installation_reports_its_name(d: DeploymentView, name: Seq<char>)
    ensures
        d matches DeploymentView::Server { server, .. } ==> deploy::reported(d, name)
            == server.name,
        d matches DeploymentView::Hook { hook, .. } ==> deploy::reported(d, name) == hook.event
            + ":"@ + hook.command,
        d is Skill || d is ManagedFile ==> deploy::reported(d, name) == name,
{
}

} // verus!
