//! What is removed with an extension of each kind.

use vstd::prelude::*;

use crate::agents;
use crate::agents::AgentView;
use crate::files::FileTreeView;
use crate::ids;
use crate::lists;
use crate::models::{
    ConfigScopeView, ExtensionKind, ExtensionView, HkError, HookEntryView, McpServerEntryView,
    PluginEntryView,
};
use crate::path;
use crate::scanner;
use crate::service::content;
use crate::service::deploy;
use crate::service::removal;
use crate::service::removal::RemovalView;
use crate::skills;
use crate::store;
use crate::store::StoreView;

verus! {

/// There is a plan to remove an extension exactly if it is known; a tool leaves
/// without any steps, and only skills take copies with them.
pub proof fn known_extensions_are_removed(
    s: StoreView,
    fs: FileTreeView,
    agents: Seq<AgentView>,
    id: Seq<char>,
)
    ensures
        removal::removal_of(s, fs, agents, id) is Some <==> store::row_with(s.rows, id) is Some,
        removal::removal_of(s, fs, agents, id) matches Some(p) ==> {
            let e = store::row_with(s.rows, id)->0;
            &&& p.id == id
            &&& e.kind == ExtensionKind::Cli ==> p.steps.len() == 0
            &&& e.kind != ExtensionKind::Skill ==> p.copies.len() == 0
        },
{
}

/// The file of a subagent or a command is removed: it alone where it is there, else
/// the file that is disabled, if that is there; else there is nothing to remove. So
/// whichever of the two files was live is gone after the steps.
pub proof fn live_file_is_removed(
    s: StoreView,
    fs: FileTreeView,
    agents: Seq<AgentView>,
    id: Seq<char>,
)
    ensures
        removal::removal_of(s, fs, agents, id) matches Some(plan) ==> {
            let e = store::row_with(s.rows, id)->0;
            e.kind == ExtensionKind::Subagent || e.kind == ExtensionKind::Command ==> match e.source_path {
                None => plan.steps.len() == 0,
                Some(p) => {
                    let off = p + ".disabled"@;
                    &&& fs.at(p).exists ==> plan.steps == seq![RemovalView::File(p)]
                    &&& !fs.at(p).exists && fs.at(off).exists ==> plan.steps == seq![
                        RemovalView::File(off),
                    ]
                    &&& !fs.at(p).exists && !fs.at(off).exists ==> plan.steps.len() == 0
                },
            }
        },
{
}

/// A skill is removed where it is found: one step takes the directory, or the single
/// file, that holds it. Where it is not found there is nothing to remove.
pub proof fn skill_is_removed_where_it_lies(
    s: StoreView,
    fs: FileTreeView,
    agents: Seq<AgentView>,
    id: Seq<char>,
)
    ensures
        removal::removal_of(s, fs, agents, id) matches Some(plan) ==> {
            let e = store::row_with(s.rows, id)->0;
            let found = skills::location_of(
                fs,
                agents,
                id,
                e.agents,
                store::project_tuples(s.projects),
            );
            e.kind == ExtensionKind::Skill ==> {
                &&& plan.steps.len() == 0 <==> found is None
                &&& found matches Some(l) ==> plan.steps.len() == 1 && (if fs.at(
                    l.entry_path,
                ).is_dir {
                    plan.steps[0] == RemovalView::Dir(l.entry_path)
                } else {
                    plan.steps[0] == RemovalView::File(l.entry_path)
                })
            }
        },
{
}

// ---------------------------------------------------------------------------
// Servers
// ---------------------------------------------------------------------------

/// Whether a step takes out the entry `q` of the file in which one of the agents of a
/// server lists the servers of its scope, and that entry has the identifier.
pub open spec fn takes_out_server(
    a: AgentView,
    e: ExtensionView,
    id: Seq<char>,
    q: int,
    x: RemovalView,
) -> bool {
    &&& e.agents.contains(a.name)
    &&& a.mcp_config_in(e.scope) matches Some(p) && {
        let listed = agents::servers_at(a.mcp_files, p);
        &&& 0 <= q < listed.len()
        &&& ids::scoped_id(listed[q].name, "mcp"@, a.name, e.scope) == id
        &&& x == (RemovalView::Server { config: p, name: listed[q].name, agent: a.name })
    }
}

proof fn lemma_server_steps_in(
    servers: Seq<McpServerEntryView>,
    config: Seq<char>,
    agent: Seq<char>,
    scope: ConfigScopeView,
    id: Seq<char>,
    x: RemovalView,
)
    ensures
        removal::server_steps_in(servers, config, agent, scope, id).contains(x) <==> exists|q: int|
            0 <= q < servers.len() && ids::scoped_id(
                (#[trigger] servers[q]).name,
                "mcp"@,
                agent,
                scope,
            ) == id && x == (RemovalView::Server { config, name: servers[q].name, agent }),
    decreases servers.len(),
{
    if servers.len() > 0 {
        let t = servers.drop_last();
        let last = servers.last();
        let before = removal::server_steps_in(t, config, agent, scope, id);
        let step = RemovalView::Server { config, name: last.name, agent };
        lemma_server_steps_in(t, config, agent, scope, id, x);
        lists::lemma_push_contains(before, step, x);
        let all = removal::server_steps_in(servers, config, agent, scope, id);
        if all.contains(x) {
            if before.contains(x) {
                let q = choose|q: int|
                    0 <= q < t.len() && ids::scoped_id(
                        (#[trigger] t[q]).name,
                        "mcp"@,
                        agent,
                        scope,
                    ) == id && x == (RemovalView::Server { config, name: t[q].name, agent });
                assert(servers[q] == t[q]);
            } else {
                assert(servers[servers.len() - 1] == last);
            }
        }
        if exists|q: int|
            0 <= q < servers.len() && ids::scoped_id(
                (#[trigger] servers[q]).name,
                "mcp"@,
                agent,
                scope,
            ) == id && x == (RemovalView::Server { config, name: servers[q].name, agent }) {
            let q = choose|q: int|
                0 <= q < servers.len() && ids::scoped_id(
                    (#[trigger] servers[q]).name,
                    "mcp"@,
                    agent,
                    scope,
                ) == id && x == (RemovalView::Server { config, name: servers[q].name, agent });
            if q < t.len() {
                assert(t[q] == servers[q]);
            }
        }
    } else {
        assert(!removal::server_steps_in(servers, config, agent, scope, id).contains(x));
    }
}

proof fn lemma_server_steps(
    agents: Seq<AgentView>,
    e: ExtensionView,
    id: Seq<char>,
    x: RemovalView,
)
    ensures
        removal::server_steps(agents, e, id).contains(x) <==> exists|k: int, q: int|
            0 <= k < agents.len() && #[trigger] takes_out_server(agents[k], e, id, q, x),
    decreases agents.len(),
{
    if agents.len() > 0 {
        let t = agents.drop_last();
        let a = agents.last();
        let before = removal::server_steps(t, e, id);
        let all = removal::server_steps(agents, e, id);
        lemma_server_steps(t, e, id, x);
        if let Some(p) = a.mcp_config_in(e.scope) {
            let listed = agents::servers_at(a.mcp_files, p);
            let here = removal::server_steps_in(listed, p, a.name, e.scope, id);
            lemma_server_steps_in(listed, p, a.name, e.scope, id, x);
            lists::lemma_sum_contains(before, here, x);
            if here.contains(x) && e.agents.contains(a.name) {
                let q = choose|q: int|
                    0 <= q < listed.len() && ids::scoped_id(
                        (#[trigger] listed[q]).name,
                        "mcp"@,
                        a.name,
                        e.scope,
                    ) == id && x == (RemovalView::Server {
                        config: p,
                        name: listed[q].name,
                        agent: a.name,
                    });
                assert(takes_out_server(agents[agents.len() - 1], e, id, q, x));
            }
        }
        if before.contains(x) {
            let (k, q) = choose|k: int, q: int|
                0 <= k < t.len() && #[trigger] takes_out_server(t[k], e, id, q, x);
            assert(takes_out_server(agents[k], e, id, q, x));
        }
        if exists|k: int, q: int|
            0 <= k < agents.len() && #[trigger] takes_out_server(agents[k], e, id, q, x) {
            let (k, q) = choose|k: int, q: int|
                0 <= k < agents.len() && #[trigger] takes_out_server(agents[k], e, id, q, x);
            if k < t.len() {
                assert(takes_out_server(t[k], e, id, q, x));
            } else {
                let p = a.mcp_config_in(e.scope)->0;
                let listed = agents::servers_at(a.mcp_files, p);
                assert(ids::scoped_id(listed[q].name, "mcp"@, a.name, e.scope) == id);
            }
        }
    } else {
        assert(!removal::server_steps(agents, e, id).contains(x));
    }
}

/// A server is taken out of exactly the files that list it: for each of its agents,
/// out of the one in which that agent lists the servers of its scope, by the name under
/// which it stands there.
pub proof fn server_is_taken_out_of_its_files(
    s: StoreView,
    fs: FileTreeView,
    agents: Seq<AgentView>,
    id: Seq<char>,
    x: RemovalView,
)
    ensures
        removal::removal_of(s, fs, agents, id) matches Some(plan) ==> {
            let e = store::row_with(s.rows, id)->0;
            e.kind == ExtensionKind::Mcp ==> (plan.steps.contains(x) <==> exists|k: int, q: int|
                0 <= k < agents.len() && #[trigger] takes_out_server(agents[k], e, id, q, x))
        },
{
    if let Some(e) = store::row_with(s.rows, id) {
        lemma_server_steps(agents, e, id, x);
    }
}

// ---------------------------------------------------------------------------
// Hooks
// ---------------------------------------------------------------------------

/// Whether a step takes out a hook with an identifier that a file of an agent lists:
/// by its event, its matcher and its command.
pub open spec fn takes_out_hook(
    a: AgentView,
    e: ExtensionView,
    id: Seq<char>,
    file: Seq<char>,
    q: int,
    x: RemovalView,
) -> bool {
    let listed = agents::hooks_at(a.hook_files, file);
    &&& e.agents.contains(a.name)
    &&& match e.source_path {
        Some(p) => file == p,
        None => a.hook_configs_in(e.scope).contains(file),
    }
    &&& 0 <= q < listed.len()
    &&& ids::scoped_id(scanner::hook_name(listed[q]), "hook"@, a.name, e.scope) == id
    &&& x == (RemovalView::Hook {
        config: file,
        event: listed[q].event,
        matcher: listed[q].matcher,
        command: listed[q].command,
        agent: a.name,
    })
}

spec fn hook_step(h: HookEntryView, config: Seq<char>, agent: Seq<char>) -> RemovalView {
    RemovalView::Hook { config, event: h.event, matcher: h.matcher, command: h.command, agent }
}

proof fn lemma_hook_steps_in(
    hooks: Seq<HookEntryView>,
    config: Seq<char>,
    agent: Seq<char>,
    scope: ConfigScopeView,
    id: Seq<char>,
    x: RemovalView,
)
    ensures
        removal::hook_steps_in(hooks, config, agent, scope, id).contains(x) <==> exists|q: int|
            0 <= q < hooks.len() && ids::scoped_id(
                scanner::hook_name(#[trigger] hooks[q]),
                "hook"@,
                agent,
                scope,
            ) == id && x == hook_step(hooks[q], config, agent),
    decreases hooks.len(),
{
    if hooks.len() > 0 {
        let t = hooks.drop_last();
        let last = hooks.last();
        let before = removal::hook_steps_in(t, config, agent, scope, id);
        lemma_hook_steps_in(t, config, agent, scope, id, x);
        lists::lemma_push_contains(before, hook_step(last, config, agent), x);
        let all = removal::hook_steps_in(hooks, config, agent, scope, id);
        if all.contains(x) {
            if before.contains(x) {
                let q = choose|q: int|
                    0 <= q < t.len() && ids::scoped_id(
                        scanner::hook_name(#[trigger] t[q]),
                        "hook"@,
                        agent,
                        scope,
                    ) == id && x == hook_step(t[q], config, agent);
                assert(hooks[q] == t[q]);
            } else {
                assert(hooks[hooks.len() - 1] == last);
            }
        }
        if exists|q: int|
            0 <= q < hooks.len() && ids::scoped_id(
                scanner::hook_name(#[trigger] hooks[q]),
                "hook"@,
                agent,
                scope,
            ) == id && x == hook_step(hooks[q], config, agent) {
            let q = choose|q: int|
                0 <= q < hooks.len() && ids::scoped_id(
                    scanner::hook_name(#[trigger] hooks[q]),
                    "hook"@,
                    agent,
                    scope,
                ) == id && x == hook_step(hooks[q], config, agent);
            if q < t.len() {
                assert(t[q] == hooks[q]);
            }
        }
    } else {
        assert(!removal::hook_steps_in(hooks, config, agent, scope, id).contains(x));
    }
}

spec fn is_hook_step_of(
    a: AgentView,
    scope: ConfigScopeView,
    id: Seq<char>,
    file: Seq<char>,
    q: int,
    x: RemovalView,
) -> bool {
    let listed = agents::hooks_at(a.hook_files, file);
    0 <= q < listed.len() && ids::scoped_id(
        scanner::hook_name(listed[q]),
        "hook"@,
        a.name,
        scope,
    ) == id && x == hook_step(listed[q], file, a.name)
}

proof fn lemma_hook_steps_at(
    a: AgentView,
    files: Seq<Seq<char>>,
    scope: ConfigScopeView,
    id: Seq<char>,
    x: RemovalView,
)
    ensures
        removal::hook_steps_at(a, files, scope, id).contains(x) <==> exists|f: Seq<char>, q: int|
            files.contains(f) && #[trigger] is_hook_step_of(a, scope, id, f, q, x),
    decreases files.len(),
{
    if files.len() > 0 {
        let t = files.drop_last();
        let f = files.last();
        let before = removal::hook_steps_at(a, t, scope, id);
        let listed = agents::hooks_at(a.hook_files, f);
        let here = removal::hook_steps_in(listed, f, a.name, scope, id);
        lemma_hook_steps_at(a, t, scope, id, x);
        lemma_hook_steps_in(listed, f, a.name, scope, id, x);
        lists::lemma_sum_contains(before, here, x);
        if before.contains(x) {
            let (g, q) = choose|g: Seq<char>, q: int|
                t.contains(g) && #[trigger] is_hook_step_of(a, scope, id, g, q, x);
            lists::lemma_last_contains(files, g);
            assert(files.contains(g));
        }
        if here.contains(x) {
            let q = choose|q: int|
                0 <= q < listed.len() && ids::scoped_id(
                    scanner::hook_name(#[trigger] listed[q]),
                    "hook"@,
                    a.name,
                    scope,
                ) == id && x == hook_step(listed[q], f, a.name);
            lists::lemma_last_contains(files, f);
            assert(is_hook_step_of(a, scope, id, f, q, x));
        }
        if exists|g: Seq<char>, q: int|
            files.contains(g) && #[trigger] is_hook_step_of(a, scope, id, g, q, x) {
            let (g, q) = choose|g: Seq<char>, q: int|
                files.contains(g) && #[trigger] is_hook_step_of(a, scope, id, g, q, x);
            lists::lemma_last_contains(files, g);
            if !t.contains(g) {
                assert(ids::scoped_id(scanner::hook_name(listed[q]), "hook"@, a.name, scope) == id);
            }
        }
    } else {
        assert(!removal::hook_steps_at(a, files, scope, id).contains(x));
    }
}

proof fn lemma_hook_steps(agents: Seq<AgentView>, e: ExtensionView, id: Seq<char>, x: RemovalView)
    ensures
        removal::hook_steps(agents, e, id).contains(x) <==> exists|k: int, f: Seq<char>, q: int|
            0 <= k < agents.len() && #[trigger] takes_out_hook(agents[k], e, id, f, q, x),
    decreases agents.len(),
{
    if agents.len() > 0 {
        let t = agents.drop_last();
        let a = agents.last();
        let before = removal::hook_steps(t, e, id);
        let files = deploy::hook_files_of(a, e);
        let here = removal::hook_steps_at(a, files, e.scope, id);
        lemma_hook_steps(t, e, id, x);
        lemma_hook_steps_at(a, files, e.scope, id, x);
        lists::lemma_sum_contains(before, here, x);
        assert(forall|f: Seq<char>| #[trigger]
            files.contains(f) <==> (match e.source_path {
                Some(p) => f == p,
                None => a.hook_configs_in(e.scope).contains(f),
            })) by {
            if let Some(p) = e.source_path {
                assert(seq![p][0] == p);
            }
        }
        if before.contains(x) {
            let (k, f, q) = choose|k: int, f: Seq<char>, q: int|
                0 <= k < t.len() && #[trigger] takes_out_hook(t[k], e, id, f, q, x);
            assert(takes_out_hook(agents[k], e, id, f, q, x));
        }
        if here.contains(x) && e.agents.contains(a.name) {
            let (f, q) = choose|f: Seq<char>, q: int|
                files.contains(f) && #[trigger] is_hook_step_of(a, e.scope, id, f, q, x);
            assert(takes_out_hook(agents[agents.len() - 1], e, id, f, q, x));
        }
        if exists|k: int, f: Seq<char>, q: int|
            0 <= k < agents.len() && #[trigger] takes_out_hook(agents[k], e, id, f, q, x) {
            let (k, f, q) = choose|k: int, f: Seq<char>, q: int|
                0 <= k < agents.len() && #[trigger] takes_out_hook(agents[k], e, id, f, q, x);
            if k < t.len() {
                assert(takes_out_hook(t[k], e, id, f, q, x));
            } else {
                assert(files.contains(f));
                assert(is_hook_step_of(a, e.scope, id, f, q, x));
            }
        }
    } else {
        assert(!removal::hook_steps(agents, e, id).contains(x));
    }
}

/// A hook is taken out of exactly the files that list it: for each of its agents, out
/// of the file that it was found in, or else out of any that may list hooks of its
/// scope; and it is told from the others by its event, its matcher and its command.
pub proof fn hook_is_taken_out_of_its_files(
    s: StoreView,
    fs: FileTreeView,
    agents: Seq<AgentView>,
    id: Seq<char>,
    x: RemovalView,
)
    ensures
        removal::removal_of(s, fs, agents, id) matches Some(plan) ==> {
            let e = store::row_with(s.rows, id)->0;
            e.kind == ExtensionKind::Hook ==> (plan.steps.contains(x) <==> exists|
                k: int,
                f: Seq<char>,
                q: int,
            |
                0 <= k < agents.len() && #[trigger] takes_out_hook(agents[k], e, id, f, q, x))
        },
{
    if let Some(e) = store::row_with(s.rows, id) {
        lemma_hook_steps(agents, e, id, x);
    }
}

// ---------------------------------------------------------------------------
// Plugins
// ---------------------------------------------------------------------------

/// The directory around a plugin of `codex`, which goes with it unless it is shared.
pub open spec fn goes_with_plugin(p: Seq<char>, dir: Seq<char>) -> bool {
    let up = path::parent_of(p);
    let shared = up is None || path::file_name_of(up->0) is None || path::file_name_of(up->0)
        == Some("cache"@) || path::file_name_of(up->0) == Some("plugins"@);
    dir == (if shared {
        p
    } else {
        up->0
    })
}

/// Whether a step is one that takes a plugin from an agent. An agent that lists its
/// plugins in a file has the entry taken out, and nothing else. With any other agent
/// the files of the plugin go; with some, an entry goes as well.
pub open spec fn takes_plugin(a: AgentView, p: PluginEntryView, x: RemovalView) -> bool {
    let key = if p.source.len() == 0 {
        p.name
    } else {
        p.name + "@"@ + p.source
    };
    match x {
        RemovalView::PluginEntry { config, key: k } => a.plugins_are_entries && config
            == a.plugin_config_path && k == key,
        RemovalView::Path(q) => !a.plugins_are_entries && p.path is Some && (if a.name
            == "codex"@ {
            goes_with_plugin(p.path->0, q)
        } else {
            q == p.path->0
        }),
        RemovalView::CodexPlugin { config, key: k } => !a.plugins_are_entries && a.name == "codex"@
            && config == a.mcp_config_path && k == key,
        RemovalView::GeminiExtension { dir, name } => !a.plugins_are_entries && a.name
            == "gemini"@ && dir == path::extended(a.base_dir, "extensions"@) && name == p.name,
        RemovalView::VscodePlugin { dir, uri } => !a.plugins_are_entries && a.name == "copilot"@
            && p.uri == Some(uri) && a.vscode_user_dir == Some(dir),
        RemovalView::HermesPlugin { config, name } => !a.plugins_are_entries && a.name == "hermes"@
            && config == a.plugin_config_path && name == p.name,
        _ => false,
    }
}

proof fn lemma_steps_of_plugin(a: AgentView, p: PluginEntryView, x: RemovalView)
    ensures
        removal::steps_of_plugin(a, p).contains(x) <==> takes_plugin(a, p, x),
{
    reveal_strlit("codex");
    reveal_strlit("gemini");
    reveal_strlit("copilot");
    reveal_strlit("hermes");
    reveal_strlit("cache");
    reveal_strlit("plugins");
    assert("codex"@[0] == 'c' && "gemini"@[0] == 'g' && "hermes"@[0] == 'h');
    assert("copilot"@.len() == 7 && "codex"@.len() == 5 && "gemini"@.len() == 6
        && "hermes"@.len() == 6);
    let all = removal::steps_of_plugin(a, p);
    let none = Seq::<RemovalView>::empty();
    let here = match p.path {
        Some(q) => Some(
            if a.name == "codex"@ {
                removal::codex_dir(q)
            } else {
                q
            },
        ),
        None => None,
    };
    let files = removal::path_step(here);
    assert(files.contains(x) <==> here is Some && x == RemovalView::Path(here->0)) by {
        if let Some(q) = here {
            assert(seq![RemovalView::Path(q)][0] == RemovalView::Path(q));
        }
    }
    if let Some(q) = p.path {
        assert(forall|d: Seq<char>| goes_with_plugin(q, d) <==> d == removal::codex_dir(q));
    }
    if a.plugins_are_entries {
        let step = RemovalView::PluginEntry {
            config: a.plugin_config_path,
            key: removal::entry_key(p),
        };
        assert(all =~= seq![step]);
        assert(seq![step][0] == step);
    } else if a.name == "codex"@ {
        let step = RemovalView::CodexPlugin {
            config: a.mcp_config_path,
            key: removal::entry_key(p),
        };
        lists::lemma_push_contains(files, step, x);
    } else if a.name == "gemini"@ {
        let step = RemovalView::GeminiExtension {
            dir: path::extended(a.base_dir, "extensions"@),
            name: p.name,
        };
        lists::lemma_push_contains(files, step, x);
    } else if a.name == "copilot"@ {
        if p.uri is Some && a.vscode_user_dir is Some {
            let step = RemovalView::VscodePlugin { dir: a.vscode_user_dir->0, uri: p.uri->0 };
            lists::lemma_push_contains(files, step, x);
        }
    } else if a.name == "hermes"@ {
        let step = RemovalView::HermesPlugin { config: a.plugin_config_path, name: p.name };
        lists::lemma_push_contains(files, step, x);
    }
}

/// Whether a step takes from an agent the plugin `q` that it has, which has the
/// identifier of a plugin of that agent.
pub open spec fn takes_plugin_of(
    a: AgentView,
    names: Seq<Seq<char>>,
    id: Seq<char>,
    q: int,
    x: RemovalView,
) -> bool {
    &&& names.contains(a.name)
    &&& 0 <= q < a.plugins.len()
    &&& ids::global_id(a.plugins[q].name + ":"@ + a.plugins[q].source, "plugin"@, a.name) == id
    &&& takes_plugin(a, a.plugins[q], x)
}

proof fn lemma_plugin_steps_in(
    a: AgentView,
    plugins: Seq<PluginEntryView>,
    id: Seq<char>,
    x: RemovalView,
)
    ensures
        removal::plugin_steps_in(a, plugins, id).contains(x) <==> exists|q: int|
            0 <= q < plugins.len() && content::is_plugin(#[trigger] plugins[q], a.name, id)
                && takes_plugin(a, plugins[q], x),
    decreases plugins.len(),
{
    if plugins.len() > 0 {
        let t = plugins.drop_last();
        let last = plugins.last();
        let before = removal::plugin_steps_in(a, t, id);
        lemma_plugin_steps_in(a, t, id, x);
        lemma_steps_of_plugin(a, last, x);
        lists::lemma_sum_contains(before, removal::steps_of_plugin(a, last), x);
        let all = removal::plugin_steps_in(a, plugins, id);
        if all.contains(x) {
            if before.contains(x) {
                let q = choose|q: int|
                    0 <= q < t.len() && content::is_plugin(#[trigger] t[q], a.name, id)
                        && takes_plugin(a, t[q], x);
                assert(plugins[q] == t[q]);
            } else {
                assert(plugins[plugins.len() - 1] == last);
            }
        }
        if exists|q: int|
            0 <= q < plugins.len() && content::is_plugin(#[trigger] plugins[q], a.name, id)
                && takes_plugin(a, plugins[q], x) {
            let q = choose|q: int|
                0 <= q < plugins.len() && content::is_plugin(#[trigger] plugins[q], a.name, id)
                    && takes_plugin(a, plugins[q], x);
            if q < t.len() {
                assert(t[q] == plugins[q]);
            }
        }
    } else {
        assert(!removal::plugin_steps_in(a, plugins, id).contains(x));
    }
}

proof fn lemma_plugin_steps(
    agents: Seq<AgentView>,
    names: Seq<Seq<char>>,
    id: Seq<char>,
    x: RemovalView,
)
    ensures
        removal::plugin_steps(agents, names, id).contains(x) <==> exists|k: int, q: int|
            0 <= k < agents.len() && #[trigger] takes_plugin_of(agents[k], names, id, q, x),
    decreases agents.len(),
{
    if agents.len() > 0 {
        let t = agents.drop_last();
        let a = agents.last();
        let before = removal::plugin_steps(t, names, id);
        let here = removal::plugin_steps_in(a, a.plugins, id);
        lemma_plugin_steps(t, names, id, x);
        lemma_plugin_steps_in(a, a.plugins, id, x);
        lists::lemma_sum_contains(before, here, x);
        if before.contains(x) {
            let (k, q) = choose|k: int, q: int|
                0 <= k < t.len() && #[trigger] takes_plugin_of(t[k], names, id, q, x);
            assert(takes_plugin_of(agents[k], names, id, q, x));
        }
        if here.contains(x) && names.contains(a.name) {
            let q = choose|q: int|
                0 <= q < a.plugins.len() && content::is_plugin(
                    #[trigger] a.plugins[q],
                    a.name,
                    id,
                ) && takes_plugin(a, a.plugins[q], x);
            assert(takes_plugin_of(agents[agents.len() - 1], names, id, q, x));
        }
        if exists|k: int, q: int|
            0 <= k < agents.len() && #[trigger] takes_plugin_of(agents[k], names, id, q, x) {
            let (k, q) = choose|k: int, q: int|
                0 <= k < agents.len() && #[trigger] takes_plugin_of(agents[k], names, id, q, x);
            if k < t.len() {
                assert(takes_plugin_of(t[k], names, id, q, x));
            } else {
                assert(content::is_plugin(a.plugins[q], a.name, id));
            }
        }
    } else {
        assert(!removal::plugin_steps(agents, names, id).contains(x));
    }
}

/// A plugin is taken from each of its agents that has it, in the way of that agent, and
/// nothing else is touched.
pub proof fn plugin_is_taken_from_its_agents(
    s: StoreView,
    fs: FileTreeView,
    agents: Seq<AgentView>,
    id: Seq<char>,
    x: RemovalView,
)
    ensures
        removal::removal_of(s, fs, agents, id) matches Some(plan) ==> {
            let e = store::row_with(s.rows, id)->0;
            e.kind == ExtensionKind::Plugin ==> (plan.steps.contains(x) <==> exists|
                k: int,
                q: int,
            |
                0 <= k < agents.len() && #[trigger] takes_plugin_of(agents[k], e.agents, id, q, x))
        },
{
    if let Some(e) = store::row_with(s.rows, id) {
        lemma_plugin_steps(agents, e.agents, id, x);
    }
}

/// The files of a plugin go before its entry does, and there are no more than these two
/// steps for an agent. The agents take their turns in order.
pub proof fn files_of_a_plugin_go_first(
    a: AgentView,
    p: PluginEntryView,
    agents: Seq<AgentView>,
    names: Seq<Seq<char>>,
    id: Seq<char>,
)
    ensures
        removal::steps_of_plugin(a, p).len() <= 2,
        removal::steps_of_plugin(a, p).len() == 2 ==> removal::steps_of_plugin(a, p)[0] is Path
            && !(removal::steps_of_plugin(a, p)[1] is Path),
        agents.len() > 0 ==> {
            let before = removal::plugin_steps(agents.drop_last(), names, id);
            let all = removal::plugin_steps(agents, names, id);
            before.len() <= all.len() && all.take(before.len() as int) == before
        },
{
    if agents.len() > 0 {
        let before = removal::plugin_steps(agents.drop_last(), names, id);
        let all = removal::plugin_steps(agents, names, id);
        assert(all.take(before.len() as int) =~= before);
    }
}

// ---------------------------------------------------------------------------
// Replies
// ---------------------------------------------------------------------------

/// A step that fails stops a removal, unless it is the one that asks the editor.
pub proof fn only_the_editor_may_refuse(
    steps: Seq<RemovalView>,
    replies: Seq<Result<(), HkError>>,
    before: StoreView,
    gone: StoreView,
    after: StoreView,
    r: Result<(), HkError>,
)
    requires
        removal::replies_handled(steps, replies, before, gone, after, r),
        replies.len() > 0,
        replies.len() <= steps.len(),
    ensures
        ({
            let last = replies.last();
            let asked_editor = steps[replies.len() - 1] is VscodePlugin;
            &&& last is Err && !asked_editor ==> r == last && after == before
            &&& last is Ok || asked_editor ==> r is Ok && after == gone && replies.len()
                == steps.len()
        }),
{
}

/// What leaves with a skill are skills of the same name under other identifiers whose
/// path leads to the same file.
pub proof fn copies_are_skills_of_the_same_file(
    s: StoreView,
    fs: FileTreeView,
    agents: Seq<AgentView>,
    id: Seq<char>,
    x: Seq<char>,
)
    requires
        store::ids_distinct(s.rows),
    ensures
        removal::removal_of(s, fs, agents, id) matches Some(plan) ==> {
            let e = store::row_with(s.rows, id)->0;
            plan.copies.contains(x) <==> {
                &&& e.kind == ExtensionKind::Skill
                &&& x != id
                &&& store::row_with(s.rows, x) matches Some(c) && c.kind == ExtensionKind::Skill
                    && c.name == e.name && e.source_path is Some && c.source_path is Some && fs.at(
                    e.source_path->0,
                ).canonical is Some && fs.at(c.source_path->0).canonical is Some
                    && path::same_path(
                    fs.at(c.source_path->0).canonical->0,
                    fs.at(e.source_path->0).canonical->0,
                )
            }
        },
{
    if let Some(e) = store::row_with(s.rows, id) {
        let i = store::merging::found_rows_stand_in_the_table(s.rows, id);
        if e.kind == ExtensionKind::Skill {
            if let Some(p) = e.source_path {
                if let Some(target) = fs.at(p).canonical {
                    let found = store::ids_named(s.rows, e.name, "skill"@);
                    assert(ExtensionKind::Skill.text() == "skill"@);
                    lemma_ids_leading_to(s, fs, found, e.id, target, x);
                    store::merging::named_ids_are_found(s.rows, e.name, ExtensionKind::Skill, x);
                    if found.contains(x) {
                        let k = choose|k: int|
                            0 <= k < s.rows.len() && (#[trigger] s.rows[k]).ext.id == x
                                && s.rows[k].ext.name == e.name && s.rows[k].ext.kind.text()
                                == "skill"@;
                        store::merging::rows_are_found_by_id(s.rows, k);
                        lemma_skill_text(s.rows[k].ext.kind);
                    }
                    if store::row_with(s.rows, x) is Some {
                        let k = store::merging::found_rows_stand_in_the_table(s.rows, x);
                    }
                }
            }
        }
    }
}

proof fn lemma_skill_text(kind: ExtensionKind)
    ensures
        kind.text() == "skill"@ <==> kind == ExtensionKind::Skill,
{
    reveal_strlit("skill");
    reveal_strlit("mcp");
    reveal_strlit("plugin");
    reveal_strlit("hook");
    reveal_strlit("cli");
    reveal_strlit("subagent");
    reveal_strlit("command");
    assert("skill"@.len() == 5);
}

proof fn lemma_ids_leading_to(
    s: StoreView,
    fs: FileTreeView,
    found: Seq<Seq<char>>,
    id: Seq<char>,
    target: Seq<char>,
    x: Seq<char>,
)
    ensures
        removal::ids_leading_to(s, fs, found, id, target).contains(x) <==> found.contains(x) && x
            != id && (store::row_with(s.rows, x) matches Some(c) && removal::leads_to(
            fs,
            c,
            target,
        )),
    decreases found.len(),
{
    if found.len() > 0 {
        lemma_ids_leading_to(s, fs, found.drop_last(), id, target, x);
        lists::lemma_last_contains(found, x);
        lists::lemma_push_contains(
            removal::ids_leading_to(s, fs, found.drop_last(), id, target),
            found.last(),
            x,
        );
    } else {
        assert(!removal::ids_leading_to(s, fs, found, id, target).contains(x));
    }
}

} // verus!
