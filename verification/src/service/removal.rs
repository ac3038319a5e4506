//! Removing an extension: first from the disk and the configuration files, then
//! from the table.

use vstd::prelude::*;

use crate::agents;
use crate::agents::{Agent, AgentView};
use crate::files::{FileTree, FileTreeView};
use crate::models;
use crate::models::{
    ConfigScope, ConfigScopeView, Extension, ExtensionKind, ExtensionView, HkError, HkErrorView,
    HookEntry, HookEntryView, McpServerEntryView, PluginEntry, PluginEntryView,
};
use crate::path;
use crate::service::content;
use crate::service::deploy;
use crate::service::lookup;
use crate::skills;
use crate::store;
use crate::store::laws;
use crate::store::{RowView, Store, StoreView};
use crate::text;

verus! {

// ---------------------------------------------------------------------------
// Steps
// ---------------------------------------------------------------------------

/// Something to be removed.
#[derive(Debug)]
pub enum Removal {
    /// A directory with all that is in it.
    Dir(String),
    /// A file.
    File(String),
    /// A file, or a directory with all that is in it; nothing where neither is
    /// there.
    Path(String),
    /// A server, out of a configuration file of an agent.
    Server { config: String, name: String, agent: String },
    /// A hook, out of a configuration file of an agent.
    Hook {
        config: String,
        event: String,
        matcher: Option<String>,
        command: String,
        agent: String,
    },
    /// The entry of a plugin, out of a list of plugins.
    PluginEntry { config: String, key: String },
    /// The entry of a plugin, out of the configuration of `codex`.
    CodexPlugin { config: String, key: String },
    /// The entry of an extension, out of the list of `gemini`.
    GeminiExtension { dir: String, name: String },
    /// The entry of a plugin, out of the state of an editor. The editor may hold a
    /// lock on it, so that this may fail.
    VscodePlugin { dir: String, uri: String },
    /// The name of a plugin, out of those that `hermes` loads.
    HermesPlugin { config: String, name: String },
}

/// The mathematical value of a [`Removal`].
#[verifier::ext_equal]
pub enum RemovalView {
    Dir(Seq<char>),
    File(Seq<char>),
    Path(Seq<char>),
    Server { config: Seq<char>, name: Seq<char>, agent: Seq<char> },
    Hook {
        config: Seq<char>,
        event: Seq<char>,
        matcher: Option<Seq<char>>,
        command: Seq<char>,
        agent: Seq<char>,
    },
    PluginEntry { config: Seq<char>, key: Seq<char> },
    CodexPlugin { config: Seq<char>, key: Seq<char> },
    GeminiExtension { dir: Seq<char>, name: Seq<char> },
    VscodePlugin { dir: Seq<char>, uri: Seq<char> },
    HermesPlugin { config: Seq<char>, name: Seq<char> },
}

impl View for Removal {
    type V = RemovalView;

    open spec fn view(&self) -> RemovalView {
        match self {
            Removal::Dir(p) => RemovalView::Dir(p@),
            Removal::File(p) => RemovalView::File(p@),
            Removal::Path(p) => RemovalView::Path(p@),
            Removal::Server { config, name, agent } => RemovalView::Server {
                config: config@,
                name: name@,
                agent: agent@,
            },
            Removal::Hook { config, event, matcher, command, agent } => RemovalView::Hook {
                config: config@,
                event: event@,
                matcher: text::ostr(*matcher),
                command: command@,
                agent: agent@,
            },
            Removal::PluginEntry { config, key } => RemovalView::PluginEntry {
                config: config@,
                key: key@,
            },
            Removal::CodexPlugin { config, key } => RemovalView::CodexPlugin {
                config: config@,
                key: key@,
            },
            Removal::GeminiExtension { dir, name } => RemovalView::GeminiExtension {
                dir: dir@,
                name: name@,
            },
            Removal::VscodePlugin { dir, uri } => RemovalView::VscodePlugin {
                dir: dir@,
                uri: uri@,
            },
            Removal::HermesPlugin { config, name } => RemovalView::HermesPlugin {
                config: config@,
                name: name@,
            },
        }
    }
}

/// The steps for a skill: its directory or its file, if it is found.
pub open spec fn skill_steps(
    fs: FileTreeView,
    agents: Seq<AgentView>,
    e: ExtensionView,
    projects: Seq<(Seq<char>, Seq<char>)>,
    id: Seq<char>,
) -> Seq<RemovalView> {
    match skills::location_of(fs, agents, id, e.agents, projects) {
        None => Seq::<RemovalView>::empty(),
        Some(loc) => seq![
            if fs.at(loc.entry_path).is_dir {
                RemovalView::Dir(loc.entry_path)
            } else {
                RemovalView::File(loc.entry_path)
            },
        ],
    }
}

/// The steps for the servers of a file that have an identifier.
pub open spec fn server_steps_in(
    servers: Seq<McpServerEntryView>,
    config: Seq<char>,
    agent: Seq<char>,
    scope: ConfigScopeView,
    id: Seq<char>,
) -> Seq<RemovalView>
    decreases servers.len(),
{
    if servers.len() == 0 {
        Seq::<RemovalView>::empty()
    } else {
        let before = server_steps_in(servers.drop_last(), config, agent, scope, id);
        if lookup::is_server(servers.last(), agent, scope, id) {
            before.push(RemovalView::Server { config, name: servers.last().name, agent })
        } else {
            before
        }
    }
}

/// The steps for a server.
pub open spec fn server_steps(
    agents: Seq<AgentView>,
    e: ExtensionView,
    id: Seq<char>,
) -> Seq<RemovalView>
    decreases agents.len(),
{
    if agents.len() == 0 {
        Seq::<RemovalView>::empty()
    } else {
        let before = server_steps(agents.drop_last(), e, id);
        let a = agents.last();
        if e.agents.contains(a.name) {
            match a.mcp_config_in(e.scope) {
                None => before,
                Some(p) => before + server_steps_in(
                    agents::servers_at(a.mcp_files, p),
                    p,
                    a.name,
                    e.scope,
                    id,
                ),
            }
        } else {
            before
        }
    }
}

/// The steps for the hooks of a file that have an identifier.
pub open spec fn hook_steps_in(
    hooks: Seq<HookEntryView>,
    config: Seq<char>,
    agent: Seq<char>,
    scope: ConfigScopeView,
    id: Seq<char>,
) -> Seq<RemovalView>
    decreases hooks.len(),
{
    if hooks.len() == 0 {
        Seq::<RemovalView>::empty()
    } else {
        let before = hook_steps_in(hooks.drop_last(), config, agent, scope, id);
        let h = hooks.last();
        if lookup::is_hook(h, agent, scope, id) {
            before.push(
                RemovalView::Hook {
                    config,
                    event: h.event,
                    matcher: h.matcher,
                    command: h.command,
                    agent,
                },
            )
        } else {
            before
        }
    }
}

/// The steps for the hooks of some files of an agent.
pub open spec fn hook_steps_at(
    agent: AgentView,
    files: Seq<Seq<char>>,
    scope: ConfigScopeView,
    id: Seq<char>,
) -> Seq<RemovalView>
    decreases files.len(),
{
    if files.len() == 0 {
        Seq::<RemovalView>::empty()
    } else {
        hook_steps_at(agent, files.drop_last(), scope, id) + hook_steps_in(
            agents::hooks_at(agent.hook_files, files.last()),
            files.last(),
            agent.name,
            scope,
            id,
        )
    }
}

/// The steps for a hook.
pub open spec fn hook_steps(
    agents: Seq<AgentView>,
    e: ExtensionView,
    id: Seq<char>,
) -> Seq<RemovalView>
    decreases agents.len(),
{
    if agents.len() == 0 {
        Seq::<RemovalView>::empty()
    } else {
        let before = hook_steps(agents.drop_last(), e, id);
        let a = agents.last();
        if e.agents.contains(a.name) {
            before + hook_steps_at(a, deploy::hook_files_of(a, e), e.scope, id)
        } else {
            before
        }
    }
}

/// The key under which a plugin is listed.
pub open spec fn entry_key(p: PluginEntryView) -> Seq<char> {
    if p.source.len() == 0 {
        p.name
    } else {
        p.name + "@"@ + p.source
    }
}

/// What `codex` keeps of a plugin: the directory around it, unless that is a shared
/// one.
pub open spec fn codex_dir(p: Seq<char>) -> Seq<char> {
    match path::parent_of(p) {
        None => p,
        Some(q) => match path::file_name_of(q) {
            None => p,
            Some(n) => if n == "cache"@ || n == "plugins"@ {
                p
            } else {
                q
            },
        },
    }
}

/// The step for the files of a plugin, if it has any.
pub open spec fn path_step(p: Option<Seq<char>>) -> Seq<RemovalView> {
    match p {
        Some(q) => seq![RemovalView::Path(q)],
        None => Seq::<RemovalView>::empty(),
    }
}

/// The steps for a plugin of an agent. Agents differ in where they list plugins.
pub open spec fn steps_of_plugin(a: AgentView, p: PluginEntryView) -> Seq<RemovalView> {
    if a.plugins_are_entries {
        seq![RemovalView::PluginEntry { config: a.plugin_config_path, key: entry_key(p) }]
    } else if a.name == "codex"@ {
        path_step(
            match p.path {
                Some(q) => Some(codex_dir(q)),
                None => None,
            },
        ).push(RemovalView::CodexPlugin { config: a.mcp_config_path, key: entry_key(p) })
    } else if a.name == "gemini"@ {
        path_step(p.path).push(
            RemovalView::GeminiExtension {
                dir: path::extended(a.base_dir, "extensions"@),
                name: p.name,
            },
        )
    } else if a.name == "copilot"@ {
        match (p.uri, a.vscode_user_dir) {
            (Some(uri), Some(dir)) => path_step(p.path).push(RemovalView::VscodePlugin { dir, uri }),
            _ => path_step(p.path),
        }
    } else if a.name == "hermes"@ {
        path_step(p.path).push(
            RemovalView::HermesPlugin { config: a.plugin_config_path, name: p.name },
        )
    } else {
        path_step(p.path)
    }
}

/// The steps for the plugins of an agent that have an identifier.
pub open spec fn plugin_steps_in(
    a: AgentView,
    plugins: Seq<PluginEntryView>,
    id: Seq<char>,
) -> Seq<RemovalView>
    decreases plugins.len(),
{
    if plugins.len() == 0 {
        Seq::<RemovalView>::empty()
    } else {
        let before = plugin_steps_in(a, plugins.drop_last(), id);
        if content::is_plugin(plugins.last(), a.name, id) {
            before + steps_of_plugin(a, plugins.last())
        } else {
            before
        }
    }
}

/// The steps for a plugin.
pub open spec fn plugin_steps(
    agents: Seq<AgentView>,
    names: Seq<Seq<char>>,
    id: Seq<char>,
) -> Seq<RemovalView>
    decreases agents.len(),
{
    if agents.len() == 0 {
        Seq::<RemovalView>::empty()
    } else {
        let before = plugin_steps(agents.drop_last(), names, id);
        let a = agents.last();
        if names.contains(a.name) {
            before + plugin_steps_in(a, a.plugins, id)
        } else {
            before
        }
    }
}

/// The steps for the file of a subagent or a command, which may be disabled.
pub open spec fn file_steps(fs: FileTreeView, p: Option<Seq<char>>) -> Seq<RemovalView> {
    match p {
        None => Seq::<RemovalView>::empty(),
        Some(q) => if fs.at(q).exists {
            seq![RemovalView::File(q)]
        } else if fs.at(q + ".disabled"@).exists {
            seq![RemovalView::File(q + ".disabled"@)]
        } else {
            Seq::<RemovalView>::empty()
        },
    }
}

/// The steps for an extension. A command-line tool needs none: the skills and
/// servers that belong to it are removed by themselves.
pub open spec fn steps_for(
    fs: FileTreeView,
    agents: Seq<AgentView>,
    e: ExtensionView,
    projects: Seq<(Seq<char>, Seq<char>)>,
    id: Seq<char>,
) -> Seq<RemovalView> {
    match e.kind {
        ExtensionKind::Skill => skill_steps(fs, agents, e, projects, id),
        ExtensionKind::Mcp => server_steps(agents, e, id),
        ExtensionKind::Hook => hook_steps(agents, e, id),
        ExtensionKind::Cli => Seq::<RemovalView>::empty(),
        ExtensionKind::Plugin => plugin_steps(agents, e.agents, id),
        _ => file_steps(fs, e.source_path),
    }
}

// ---------------------------------------------------------------------------
// Finding the steps
// ---------------------------------------------------------------------------

fn push_step(v: &mut Vec<Removal>, x: Removal)
    ensures
        models::list_view(final(v)@) == models::list_view(old(v)@).push(x@),
{
    v.push(x);
    assert(models::list_view(v@) =~= models::list_view(old(v)@).push(x@));
}

fn no_steps() -> (r: Vec<Removal>)
    ensures
        models::list_view(r@) == Seq::<RemovalView>::empty(),
{
    let r: Vec<Removal> = Vec::new();
    assert(models::list_view(r@) =~= Seq::<RemovalView>::empty());
    r
}

fn one_step(x: Removal) -> (r: Vec<Removal>)
    ensures
        models::list_view(r@) == seq![x@],
{
    let mut r: Vec<Removal> = Vec::new();
    r.push(x);
    assert(models::list_view(r@) =~= seq![x@]);
    r
}

fn find_skill_steps(
    fs: &FileTree,
    agents: &Vec<Agent>,
    e: &Extension,
    projects: &Vec<(String, String)>,
    id: &str,
) -> (r: Vec<Removal>)
    ensures
        models::list_view(r@) == skill_steps(
            fs@,
            models::list_view(agents@),
            e@,
            models::pairs_view(projects@),
            id@,
        ),
{
    match skills::find_skill_by_id(fs, agents, id, &e.agents, projects) {
        None => no_steps(),
        Some(loc) => if fs.is_dir(&loc.entry_path) {
            one_step(Removal::Dir(loc.entry_path))
        } else {
            one_step(Removal::File(loc.entry_path))
        },
    }
}

fn push_server_steps(
    out: &mut Vec<Removal>,
    agent: &Agent,
    config: &str,
    scope: &ConfigScope,
    id: &str,
)
    ensures
        models::list_view(final(out)@) == models::list_view(old(out)@) + server_steps_in(
            agents::servers_at(agent@.mcp_files, config@),
            config@,
            agent@.name,
            scope@,
            id@,
        ),
{
    let ghost start = models::list_view(out@);
    match agent.servers_from(config) {
        None => {
            assert(start + Seq::<RemovalView>::empty() =~= start);
        },
        Some(servers) => {
            let ghost v = models::list_view(servers@);
            let mut i: usize = 0;
            assert(v.take(0) =~= Seq::<McpServerEntryView>::empty());
            assert(start + Seq::<RemovalView>::empty() =~= start);
            while i < servers.len()
                invariant
                    v == models::list_view(servers@),
                    i <= servers.len(),
                    models::list_view(out@) == start + server_steps_in(
                        v.take(i as int),
                        config@,
                        agent@.name,
                        scope@,
                        id@,
                    ),
                decreases servers.len() - i,
            {
                assert(v.take(i + 1).drop_last() =~= v.take(i as int));
                assert(v.take(i + 1).last() == servers@[i as int]@);
                if lookup::has_server_id(&servers[i], &agent.name, scope, id) {
                    push_step(
                        out,
                        Removal::Server {
                            config: config.to_owned(),
                            name: servers[i].name.clone(),
                            agent: agent.name.clone(),
                        },
                    );
                }
                assert(models::list_view(out@) =~= start + server_steps_in(
                    v.take(i + 1),
                    config@,
                    agent@.name,
                    scope@,
                    id@,
                ));
                i += 1;
            }
            assert(v.take(i as int) =~= v);
        },
    }
}

fn find_server_steps(agents: &Vec<Agent>, e: &Extension, id: &str) -> (r: Vec<Removal>)
    ensures
        models::list_view(r@) == server_steps(models::list_view(agents@), e@, id@),
{
    let ghost v = models::list_view(agents@);
    let mut out = no_steps();
    let mut i: usize = 0;
    assert(v.take(0) =~= Seq::<AgentView>::empty());
    while i < agents.len()
        invariant
            v == models::list_view(agents@),
            i <= agents.len(),
            models::list_view(out@) == server_steps(v.take(i as int), e@, id@),
        decreases agents.len() - i,
    {
        assert(v.take(i + 1).drop_last() =~= v.take(i as int));
        assert(v.take(i + 1).last() == agents@[i as int]@);
        if text::list_has(&e.agents, &agents[i].name) {
            if let Some(p) = agents[i].mcp_config_path_for(&e.scope) {
                push_server_steps(&mut out, &agents[i], &p, &e.scope, id);
            }
        }
        i += 1;
    }
    assert(v.take(i as int) =~= v);
    out
}

fn push_hook_steps(
    out: &mut Vec<Removal>,
    agent: &Agent,
    config: &str,
    scope: &ConfigScope,
    id: &str,
)
    ensures
        models::list_view(final(out)@) == models::list_view(old(out)@) + hook_steps_in(
            agents::hooks_at(agent@.hook_files, config@),
            config@,
            agent@.name,
            scope@,
            id@,
        ),
{
    let ghost start = models::list_view(out@);
    match agent.hooks_from(config) {
        None => {
            assert(start + Seq::<RemovalView>::empty() =~= start);
        },
        Some(hooks) => {
            let ghost v = models::list_view(hooks@);
            let mut i: usize = 0;
            assert(v.take(0) =~= Seq::<HookEntryView>::empty());
            assert(start + Seq::<RemovalView>::empty() =~= start);
            while i < hooks.len()
                invariant
                    v == models::list_view(hooks@),
                    i <= hooks.len(),
                    models::list_view(out@) == start + hook_steps_in(
                        v.take(i as int),
                        config@,
                        agent@.name,
                        scope@,
                        id@,
                    ),
                decreases hooks.len() - i,
            {
                assert(v.take(i + 1).drop_last() =~= v.take(i as int));
                assert(v.take(i + 1).last() == hooks@[i as int]@);
                let h: &HookEntry = &hooks[i];
                if lookup::has_hook_id(h, &agent.name, scope, id) {
                    push_step(
                        out,
                        Removal::Hook {
                            config: config.to_owned(),
                            event: h.event.clone(),
                            matcher: text::clone_opt(&h.matcher),
                            command: h.command.clone(),
                            agent: agent.name.clone(),
                        },
                    );
                }
                assert(models::list_view(out@) =~= start + hook_steps_in(
                    v.take(i + 1),
                    config@,
                    agent@.name,
                    scope@,
                    id@,
                ));
                i += 1;
            }
            assert(v.take(i as int) =~= v);
        },
    }
}

fn push_hook_steps_of(out: &mut Vec<Removal>, agent: &Agent, e: &Extension, id: &str)
    ensures
        models::list_view(final(out)@) == models::list_view(old(out)@) + hook_steps_at(
            agent@,
            deploy::hook_files_of(agent@, e@),
            e@.scope,
            id@,
        ),
{
    let files = deploy::find_hook_files(agent, e);
    let ghost start = models::list_view(out@);
    let ghost v = text::strs(files@);
    let mut i: usize = 0;
    assert(v.take(0) =~= Seq::<Seq<char>>::empty());
    assert(start + Seq::<RemovalView>::empty() =~= start);
    while i < files.len()
        invariant
            v == text::strs(files@),
            i <= files.len(),
            models::list_view(out@) == start + hook_steps_at(
                agent@,
                v.take(i as int),
                e@.scope,
                id@,
            ),
        decreases files.len() - i,
    {
        assert(v.take(i + 1).drop_last() =~= v.take(i as int));
        assert(v.take(i + 1).last() == files@[i as int]@);
        push_hook_steps(out, agent, &files[i], &e.scope, id);
        assert(models::list_view(out@) =~= start + hook_steps_at(
            agent@,
            v.take(i + 1),
            e@.scope,
            id@,
        ));
        i += 1;
    }
    assert(v.take(i as int) =~= v);
}

fn find_hook_steps(agents: &Vec<Agent>, e: &Extension, id: &str) -> (r: Vec<Removal>)
    ensures
        models::list_view(r@) == hook_steps(models::list_view(agents@), e@, id@),
{
    let ghost v = models::list_view(agents@);
    let mut out = no_steps();
    let mut i: usize = 0;
    assert(v.take(0) =~= Seq::<AgentView>::empty());
    while i < agents.len()
        invariant
            v == models::list_view(agents@),
            i <= agents.len(),
            models::list_view(out@) == hook_steps(v.take(i as int), e@, id@),
        decreases agents.len() - i,
    {
        assert(v.take(i + 1).drop_last() =~= v.take(i as int));
        assert(v.take(i + 1).last() == agents@[i as int]@);
        if text::list_has(&e.agents, &agents[i].name) {
            push_hook_steps_of(&mut out, &agents[i], e, id);
        }
        i += 1;
    }
    assert(v.take(i as int) =~= v);
    out
}

fn find_entry_key(p: &PluginEntry) -> (r: String)
    ensures
        r@ == entry_key(p@),
{
    if p.source.as_str().is_empty() {
        p.name.clone()
    } else {
        text::cat3(&p.name, "@", &p.source)
    }
}

/// What `codex` keeps of a plugin: the directory around it, unless that is a shared
/// one.
pub fn find_codex_dir(p: &str) -> (r: String)
    ensures
        r@ == codex_dir(p@),
{
    match path::parent(p) {
        None => p.to_owned(),
        Some(q) => match path::file_name(&q) {
            None => p.to_owned(),
            Some(n) => if text::str_eq(&n, "cache") || text::str_eq(&n, "plugins") {
                p.to_owned()
            } else {
                q
            },
        },
    }
}

fn make_path_step(p: &Option<String>) -> (r: Vec<Removal>)
    ensures
        models::list_view(r@) == path_step(text::ostr(*p)),
{
    match p {
        Some(q) => one_step(Removal::Path(q.clone())),
        None => no_steps(),
    }
}

fn find_steps_of_plugin(a: &Agent, p: &PluginEntry) -> (r: Vec<Removal>)
    ensures
        models::list_view(r@) == steps_of_plugin(a@, p@),
{
    if a.plugins_are_entries {
        one_step(
            Removal::PluginEntry { config: a.plugin_config_path.clone(), key: find_entry_key(p) },
        )
    } else if text::str_eq(&a.name, "codex") {
        let target = match &p.path {
            Some(q) => Some(find_codex_dir(q)),
            None => None,
        };
        let mut out = make_path_step(&target);
        push_step(
            &mut out,
            Removal::CodexPlugin { config: a.mcp_config_path.clone(), key: find_entry_key(p) },
        );
        out
    } else if text::str_eq(&a.name, "gemini") {
        let mut out = make_path_step(&p.path);
        push_step(
            &mut out,
            Removal::GeminiExtension {
                dir: path::join(&a.base_dir, "extensions"),
                name: p.name.clone(),
            },
        );
        out
    } else if text::str_eq(&a.name, "copilot") {
        let mut out = make_path_step(&p.path);
        if let Some(uri) = &p.uri {
            if let Some(dir) = &a.vscode_user_dir {
                push_step(
                    &mut out,
                    Removal::VscodePlugin { dir: dir.clone(), uri: uri.clone() },
                );
            }
        }
        out
    } else if text::str_eq(&a.name, "hermes") {
        let mut out = make_path_step(&p.path);
        push_step(
            &mut out,
            Removal::HermesPlugin { config: a.plugin_config_path.clone(), name: p.name.clone() },
        );
        out
    } else {
        make_path_step(&p.path)
    }
}

fn append_steps(v: &mut Vec<Removal>, more: Vec<Removal>)
    ensures
        models::list_view(final(v)@) == models::list_view(old(v)@) + models::list_view(more@),
{
    let mut more = more;
    let ghost m = more@;
    v.append(&mut more);
    assert(models::list_view(v@) =~= models::list_view(old(v)@) + models::list_view(m));
}

fn push_plugin_steps(out: &mut Vec<Removal>, agent: &Agent, id: &str)
    ensures
        models::list_view(final(out)@) == models::list_view(old(out)@) + plugin_steps_in(
            agent@,
            agent@.plugins,
            id@,
        ),
{
    let ghost start = models::list_view(out@);
    let ghost v = models::list_view(agent.plugins@);
    let mut i: usize = 0;
    assert(v.take(0) =~= Seq::<PluginEntryView>::empty());
    assert(start + Seq::<RemovalView>::empty() =~= start);
    while i < agent.plugins.len()
        invariant
            v == models::list_view(agent.plugins@),
            v == agent@.plugins,
            i <= agent.plugins.len(),
            models::list_view(out@) == start + plugin_steps_in(agent@, v.take(i as int), id@),
        decreases agent.plugins.len() - i,
    {
        assert(v.take(i + 1).drop_last() =~= v.take(i as int));
        assert(v.take(i + 1).last() == agent.plugins@[i as int]@);
        if content::has_plugin_id(&agent.plugins[i], &agent.name, id) {
            let steps = find_steps_of_plugin(agent, &agent.plugins[i]);
            append_steps(out, steps);
        }
        assert(models::list_view(out@) =~= start + plugin_steps_in(agent@, v.take(i + 1), id@));
        i += 1;
    }
    assert(v.take(i as int) =~= v);
}

fn find_plugin_steps(agents: &Vec<Agent>, names: &Vec<String>, id: &str) -> (r: Vec<Removal>)
    ensures
        models::list_view(r@) == plugin_steps(models::list_view(agents@), text::strs(names@), id@),
{
    let ghost v = models::list_view(agents@);
    let mut out = no_steps();
    let mut i: usize = 0;
    assert(v.take(0) =~= Seq::<AgentView>::empty());
    while i < agents.len()
        invariant
            v == models::list_view(agents@),
            i <= agents.len(),
            models::list_view(out@) == plugin_steps(v.take(i as int), text::strs(names@), id@),
        decreases agents.len() - i,
    {
        assert(v.take(i + 1).drop_last() =~= v.take(i as int));
        assert(v.take(i + 1).last() == agents@[i as int]@);
        if text::list_has(names, &agents[i].name) {
            push_plugin_steps(&mut out, &agents[i], id);
        }
        i += 1;
    }
    assert(v.take(i as int) =~= v);
    out
}

fn find_file_steps(fs: &FileTree, p: &Option<String>) -> (r: Vec<Removal>)
    ensures
        models::list_view(r@) == file_steps(fs@, text::ostr(*p)),
{
    match p {
        None => no_steps(),
        Some(q) => {
            if fs.has(q) {
                return one_step(Removal::File(q.clone()));
            }
            let disabled = text::cat2(q, ".disabled");
            if fs.has(&disabled) {
                one_step(Removal::File(disabled))
            } else {
                no_steps()
            }
        },
    }
}

/// The steps for an extension.
pub fn plan_removal(
    fs: &FileTree,
    agents: &Vec<Agent>,
    e: &Extension,
    projects: &Vec<(String, String)>,
    id: &str,
) -> (r: Vec<Removal>)
    ensures
        models::list_view(r@) == steps_for(
            fs@,
            models::list_view(agents@),
            e@,
            models::pairs_view(projects@),
            id@,
        ),
{
    match e.kind {
        ExtensionKind::Skill => find_skill_steps(fs, agents, e, projects, id),
        ExtensionKind::Mcp => find_server_steps(agents, e, id),
        ExtensionKind::Hook => find_hook_steps(agents, e, id),
        ExtensionKind::Cli => no_steps(),
        ExtensionKind::Plugin => find_plugin_steps(agents, &e.agents, id),
        _ => find_file_steps(fs, &e.source_path),
    }
}

// ---------------------------------------------------------------------------
// Copies that lead to the same file
// ---------------------------------------------------------------------------

/// Whether `x` leads to the file that really lies at `target`.
pub open spec fn leads_to(fs: FileTreeView, x: ExtensionView, target: Seq<char>) -> bool {
    x.source_path matches Some(p) && (fs.at(p).canonical matches Some(q) && path::same_path(
        q,
        target,
    ))
}

/// The identifiers of those extensions that lead to a file, but for one.
pub open spec fn ids_leading_to(
    s: StoreView,
    fs: FileTreeView,
    found: Seq<Seq<char>>,
    id: Seq<char>,
    target: Seq<char>,
) -> Seq<Seq<char>>
    decreases found.len(),
{
    if found.len() == 0 {
        Seq::<Seq<char>>::empty()
    } else {
        let before = ids_leading_to(s, fs, found.drop_last(), id, target);
        let x = store::row_with(s.rows, found.last());
        if found.last() != id && x is Some && leads_to(fs, x->0, target) {
            before.push(found.last())
        } else {
            before
        }
    }
}

/// The other skills with the name of `e` that lead to the same file, by links.
pub open spec fn siblings_of(s: StoreView, fs: FileTreeView, e: ExtensionView) -> Seq<Seq<char>> {
    match e.source_path {
        None => Seq::<Seq<char>>::empty(),
        Some(p) => match fs.at(p).canonical {
            None => Seq::<Seq<char>>::empty(),
            Some(target) => ids_leading_to(
                s,
                fs,
                store::ids_named(s.rows, e.name, "skill"@),
                e.id,
                target,
            ),
        },
    }
}

/// The other skills with the name of `target` that lead to the same file. Removing
/// that file removes them too.
pub fn find_canonical_skill_siblings(store: &Store, fs: &FileTree, target: &Extension) -> (r: Vec<
    String,
>)
    ensures
        text::strs(r@) == siblings_of(store@, fs@, target@),
{
    let canonical = match &target.source_path {
        None => {
            return text::no_strings();
        },
        Some(p) => match fs.canonicalize(p) {
            None => {
                return text::no_strings();
            },
            Some(q) => q,
        },
    };
    let found = store.find_ids_by_name_and_kind(&target.name, "skill");
    let ghost v = text::strs(found@);
    let mut out = text::no_strings();
    let mut i: usize = 0;
    assert(v.take(0) =~= Seq::<Seq<char>>::empty());
    while i < found.len()
        invariant
            v == text::strs(found@),
            i <= found.len(),
            text::strs(out@) == ids_leading_to(
                store@,
                fs@,
                v.take(i as int),
                target@.id,
                canonical@,
            ),
        decreases found.len() - i,
    {
        assert(v.take(i + 1).drop_last() =~= v.take(i as int));
        assert(v.take(i + 1).last() == found@[i as int]@);
        let ghost before = text::strs(out@);
        if !text::str_eq(&found[i], &target.id) {
            if let Some(x) = store.get_extension(&found[i]) {
                if let Some(p) = &x.source_path {
                    if let Some(q) = fs.canonicalize(p) {
                        if path::path_eq(&q, &canonical) {
                            out.push(found[i].clone());
                            assert(text::strs(out@) =~= before.push(found@[i as int]@));
                        }
                    }
                }
            }
        }
        i += 1;
    }
    assert(v.take(i as int) =~= v);
    out
}

// ---------------------------------------------------------------------------
// The whole
// ---------------------------------------------------------------------------

/// What is to be done to remove an extension: the steps, and the rows that leave the
/// table with it.
#[derive(Debug)]
pub struct RemovalPlan {
    pub id: String,
    pub steps: Vec<Removal>,
    pub copies: Vec<String>,
}

/// The mathematical value of a [`RemovalPlan`].
#[verifier::ext_equal]
pub struct RemovalPlanView {
    pub id: Seq<char>,
    pub steps: Seq<RemovalView>,
    pub copies: Seq<Seq<char>>,
}

impl View for RemovalPlan {
    type V = RemovalPlanView;

    open spec fn view(&self) -> RemovalPlanView {
        RemovalPlanView {
            id: self.id@,
            steps: models::list_view(self.steps@),
            copies: text::strs(self.copies@),
        }
    }
}

/// The plan to remove the extension with an identifier; none where there is no such
/// extension.
pub open spec fn removal_of(
    s: StoreView,
    fs: FileTreeView,
    agents: Seq<AgentView>,
    id: Seq<char>,
) -> Option<RemovalPlanView> {
    match store::row_with(s.rows, id) {
        None => None,
        Some(e) => Some(
            RemovalPlanView {
                id,
                steps: steps_for(fs, agents, e, store::project_tuples(s.projects), id),
                copies: leaving_with(s, fs, e),
            },
        ),
    }
}

/// Whether a removal may go on after the reply to a step. Only the editor may
/// refuse.
pub open spec fn passes(step: RemovalView, reply: Result<(), HkError>) -> bool {
    reply is Ok || step is VscodePlugin
}

/// Whether the steps up to the last one that was tried were performed in order:
/// each order is a step, each reply is the one to its order, and all but the last
/// one let the removal go on.
pub open spec fn performed<P: Fn(Removal) -> Result<(), HkError>>(
    perform: P,
    steps: Seq<RemovalView>,
    orders: Seq<Removal>,
    replies: Seq<Result<(), HkError>>,
) -> bool {
    &&& orders.len() == replies.len()
    &&& replies.len() <= steps.len()
    &&& forall|i: int|
        #![trigger orders[i]]
        #![trigger replies[i]]
        0 <= i < replies.len() ==> orders[i]@ == steps[i] && call_ensures(
            perform,
            (orders[i],),
            replies[i],
        )
    &&& forall|i: int| 0 <= i < replies.len() - 1 ==> passes(steps[i], #[trigger] replies[i])
}

/// A store without some extensions.
pub open spec fn without_all(s: StoreView, ids: Seq<Seq<char>>) -> StoreView
    decreases ids.len(),
{
    if ids.len() == 0 {
        s
    } else {
        store::without_extension(without_all(s, ids.drop_last()), ids.last())
    }
}

/// The extensions that leave the table with `e`: for a skill, those that lead to
/// the same file.
pub open spec fn leaving_with(s: StoreView, fs: FileTreeView, e: ExtensionView) -> Seq<Seq<char>> {
    if e.kind == ExtensionKind::Skill {
        siblings_of(s, fs, e)
    } else {
        Seq::<Seq<char>>::empty()
    }
}

/// A store after a plan was carried out.
pub open spec fn carried_out(s: StoreView, plan: RemovalPlanView) -> StoreView {
    without_all(store::without_extension(s, plan.id), plan.copies)
}

/// A store after an extension was removed.
pub open spec fn removed(
    s: StoreView,
    fs: FileTreeView,
    e: ExtensionView,
    id: Seq<char>,
) -> StoreView {
    without_all(store::without_extension(s, id), leaving_with(s, fs, e))
}

/// Whether a reply is the first one that does not let the removal go on.
pub open spec fn fails_first(
    steps: Seq<RemovalView>,
    replies: Seq<Result<(), HkError>>,
    i: int,
) -> bool {
    &&& 0 <= i < replies.len()
    &&& i < steps.len()
    &&& !passes(steps[i], replies[i])
    &&& forall|j: int| 0 <= j < i ==> passes(steps[j], #[trigger] replies[j])
}

/// Whether there is a reply to every step, and each lets the removal go on.
pub open spec fn all_pass(steps: Seq<RemovalView>, replies: Seq<Result<(), HkError>>) -> bool {
    replies.len() >= steps.len() && forall|j: int|
        0 <= j < steps.len() ==> passes(steps[j], #[trigger] replies[j])
}

/// Whether a result and a store are what follows the replies to the steps: if all
/// let the removal go on, the extension leaves the table; else the error of the
/// last one is returned, and the table stays as it was.
pub open spec fn replies_handled(
    steps: Seq<RemovalView>,
    replies: Seq<Result<(), HkError>>,
    before: StoreView,
    gone: StoreView,
    after: StoreView,
    r: Result<(), HkError>,
) -> bool {
    match r {
        Ok(_) => replies.len() == steps.len() && (replies.len() > 0 ==> passes(
            steps.last(),
            replies.last(),
        )) && after == gone,
        Err(_) => replies.len() > 0 && !passes(steps[replies.len() - 1], replies.last())
            && replies.last() == r && after == before,
    }
}

fn remove_all(store: &mut Store, ids: &Vec<String>)
    ensures
        final(store)@ == without_all(old(store)@, text::strs(ids@)),
{
    let ghost v = text::strs(ids@);
    let mut i: usize = 0;
    assert(v.take(0) =~= Seq::<Seq<char>>::empty());
    while i < ids.len()
        invariant
            v == text::strs(ids@),
            i <= ids.len(),
            store@ == without_all(old(store)@, v.take(i as int)),
        decreases ids.len() - i,
    {
        assert(v.take(i + 1).drop_last() =~= v.take(i as int));
        assert(v.take(i + 1).last() == ids@[i as int]@);
        store.delete_extension(&ids[i]);
        i += 1;
    }
    assert(v.take(i as int) =~= v);
}

/// Whether a removal may go on after the reply to a step. Only the editor may
/// refuse.
pub fn may_go_on(step: &Removal, reply: &Result<(), HkError>) -> (r: bool)
    ensures
        r == passes(step@, *reply),
{
    match step {
        Removal::VscodePlugin { .. } => true,
        _ => reply.is_ok(),
    }
}

/// What is to be done to remove the extension with an identifier; none where there is
/// no such extension.
pub fn begin_removal(store: &Store, fs: &FileTree, agents: &Vec<Agent>, id: &str) -> (r: Option<
    RemovalPlan,
>)
    ensures
        models::opt_view(r) == removal_of(store@, fs@, models::list_view(agents@), id@),
{
    let e = match store.get_extension(id) {
        None => {
            return None;
        },
        Some(e) => e,
    };
    let projects = store.list_project_tuples();
    let copies = if e.kind == ExtensionKind::Skill {
        find_canonical_skill_siblings(store, fs, &e)
    } else {
        text::no_strings()
    };
    let steps = plan_removal(fs, agents, &e, &projects, id);
    Some(RemovalPlan { id: id.to_owned(), steps, copies })
}

/// Takes an extension out of the table once the steps of its removal were tried, in
/// order, and `replies` came back. If one of them does not let the removal go on, its
/// error is returned and the table stays as it was, so that a scan can set it right;
/// so it does where some step has no reply.
pub fn finish_removal(
    store: &mut Store,
    plan: &RemovalPlan,
    replies: Vec<Result<(), HkError>>,
) -> (r: Result<(), HkError>)
    ensures
        forall|i: int|
            #[trigger] fails_first(plan@.steps, replies@, i) ==> r == replies@[i] && final(store)@
                == old(store)@,
        all_pass(plan@.steps, replies@) ==> r is Ok && final(store)@ == carried_out(
            old(store)@,
            plan@,
        ),
        !all_pass(plan@.steps, replies@) && (forall|i: int|
            !#[trigger] fails_first(plan@.steps, replies@, i)) ==> r is Err && r->Err_0@
            == HkErrorView::Internal("A step of the removal has no reply"@) && final(store)@ == old(
            store,
        )@,
{
    let ghost all = replies@;
    let mut given = replies;
    let ghost steps = plan@.steps;
    let mut i: usize = 0;
    while i < plan.steps.len()
        invariant
            steps == plan@.steps,
            all == replies@,
            all == given@,
            i <= plan.steps.len(),
            i <= given.len(),
            store@ == old(store)@,
            forall|j: int| 0 <= j < i ==> passes(steps[j], #[trigger] all[j]),
        decreases plan.steps.len() - i,
    {
        assert(steps[i as int] == plan.steps@[i as int]@);
        if i >= given.len() {
            assert(!all_pass(steps, all));
            assert forall|k: int| !#[trigger] fails_first(steps, all, k) by {
                if fails_first(steps, all, k) {
                    assert(passes(steps[k], all[k]));
                }
            }
            return Err(HkError::Internal("A step of the removal has no reply".to_owned()));
        }
        if !may_go_on(&plan.steps[i], &given[i]) {
            assert(fails_first(steps, all, i as int));
            assert forall|k: int| #[trigger] fails_first(steps, all, k) implies k == i by {
                if k < i {
                    assert(passes(steps[k], all[k]));
                } else if k > i {
                    assert(passes(steps[i as int], all[i as int]));
                }
            }
            return given.remove(i);
        }
        i += 1;
    }
    assert(all_pass(steps, all));
    assert forall|k: int| !#[trigger] fails_first(steps, all, k) by {
        if fails_first(steps, all, k) {
            assert(passes(steps[k], all[k]));
        }
    }
    store.delete_extension(&plan.id);
    remove_all(store, &plan.copies);
    Ok(())
}

fn copy_step(step: &Removal) -> (r: Removal)
    ensures
        r@ == step@,
{
    match step {
        Removal::Dir(p) => Removal::Dir(p.clone()),
        Removal::File(p) => Removal::File(p.clone()),
        Removal::Path(p) => Removal::Path(p.clone()),
        Removal::Server { config, name, agent } => Removal::Server {
            config: config.clone(),
            name: name.clone(),
            agent: agent.clone(),
        },
        Removal::Hook { config, event, matcher, command, agent } => Removal::Hook {
            config: config.clone(),
            event: event.clone(),
            matcher: text::clone_opt(matcher),
            command: command.clone(),
            agent: agent.clone(),
        },
        Removal::PluginEntry { config, key } => Removal::PluginEntry {
            config: config.clone(),
            key: key.clone(),
        },
        Removal::CodexPlugin { config, key } => Removal::CodexPlugin {
            config: config.clone(),
            key: key.clone(),
        },
        Removal::GeminiExtension { dir, name } => Removal::GeminiExtension {
            dir: dir.clone(),
            name: name.clone(),
        },
        Removal::VscodePlugin { dir, uri } => Removal::VscodePlugin {
            dir: dir.clone(),
            uri: uri.clone(),
        },
        Removal::HermesPlugin { config, name } => Removal::HermesPlugin {
            config: config.clone(),
            name: name.clone(),
        },
    }
}

/// Performs steps in order, up to the first one that does not let the removal go on,
/// and tells the replies.
fn perform_all<P: Fn(Removal) -> Result<(), HkError>>(steps: &Vec<Removal>, perform: P) -> (r: Vec<
    Result<(), HkError>,
>)
    requires
        forall|x: Removal|
            models::list_view(steps@).contains(x@) ==> #[trigger] call_requires(perform, (x,)),
    ensures
        exists|orders: Seq<Removal>|
            #[trigger] performed(perform, models::list_view(steps@), orders, r@),
        all_pass(models::list_view(steps@), r@) || fails_first(
            models::list_view(steps@),
            r@,
            r@.len() - 1,
        ),
{
    let ghost v = models::list_view(steps@);
    let ghost mut orders = Seq::<Removal>::empty();
    let mut replies: Vec<Result<(), HkError>> = Vec::new();
    let mut i: usize = 0;
    assert(performed(perform, v, orders, replies@));
    while i < steps.len()
        invariant
            i <= steps.len(),
            v == models::list_view(steps@),
            forall|x: Removal| v.contains(x@) ==> #[trigger] call_requires(perform, (x,)),
            replies.len() == i,
            performed(perform, v, orders, replies@),
            forall|j: int| 0 <= j < i ==> passes(v[j], #[trigger] replies@[j]),
        decreases steps.len() - i,
    {
        assert(v[i as int] == steps@[i as int]@);
        let step = copy_step(&steps[i]);
        let ghost order = step;
        let reply = perform(step);
        assert(call_ensures(perform, (order,), reply));
        let goes_on = may_go_on(&steps[i], &reply);
        let ghost old_replies = replies@;
        replies.push(reply);
        proof {
            let o = orders.push(order);
            let q = replies@;
            assert(performed(perform, v, o, q)) by {
                assert forall|k: int|
                    #![trigger o[k]]
                    #![trigger q[k]]
                    0 <= k < q.len() implies o[k]@ == v[k] && call_ensures(
                    perform,
                    (o[k],),
                    q[k],
                ) by {
                    if k < old_replies.len() {
                        assert(o[k] == orders[k] && q[k] == old_replies[k]);
                    }
                }
                assert forall|k: int| 0 <= k < q.len() - 1 implies passes(
                    v[k],
                    #[trigger] q[k],
                ) by {
                    assert(q[k] == old_replies[k]);
                }
            }
            assert forall|k: int| 0 <= k < i implies passes(v[k], #[trigger] q[k]) by {
                assert(q[k] == old_replies[k]);
            }
            orders = o;
        }
        if !goes_on {
            assert(fails_first(v, replies@, replies@.len() - 1));
            return replies;
        }
        i += 1;
    }
    replies
}

/// Removes an extension: `perform` takes the steps on the disk and in the
/// configuration files, in order; only if they succeed does the extension leave the
/// table, with the skills that led to the same file. An unknown extension counts as
/// removed. `perform` need only be ready for the steps of the plan, and gets no others.
pub fn delete_extension<P: Fn(Removal) -> Result<(), HkError>>(
    store: &mut Store,
    fs: &FileTree,
    agents: &Vec<Agent>,
    id: &str,
    perform: P,
) -> (r: Result<(), HkError>)
    requires
        removal_of(old(store)@, fs@, models::list_view(agents@), id@) matches Some(p) ==> forall|
            x: Removal,
        |
            p.steps.contains(x@) ==> #[trigger] call_requires(perform, (x,)),
    ensures
        match store::row_with(old(store)@.rows, id@) {
            None => r is Ok && final(store)@ == old(store)@,
            Some(e) => {
                let steps = steps_for(
                    fs@,
                    models::list_view(agents@),
                    e,
                    store::project_tuples(old(store)@.projects),
                    id@,
                );
                exists|orders: Seq<Removal>, replies: Seq<Result<(), HkError>>|
                    #[trigger] performed(perform, steps, orders, replies) && replies_handled(
                        steps,
                        replies,
                        old(store)@,
                        removed(old(store)@, fs@, e, id@),
                        final(store)@,
                        r,
                    )
            },
        },
{
    let plan = match begin_removal(store, fs, agents, id) {
        None => {
            return Ok(());
        },
        Some(plan) => plan,
    };
    let replies = perform_all(&plan.steps, perform);
    let ghost steps = plan@.steps;
    let ghost heard = replies@;
    let ghost orders = choose|orders: Seq<Removal>|
        #[trigger] performed(perform, steps, orders, heard);
    let r = finish_removal(store, &plan, replies);
    proof {
        assert(performed(perform, steps, orders, heard));
        if fails_first(steps, heard, heard.len() - 1) {
            assert(r == heard.last());
        } else {
            assert(all_pass(steps, heard));
            if steps.len() > 0 {
                assert(passes(steps[steps.len() - 1], heard[steps.len() - 1]));
            }
        }
    }
    r
}

// ---------------------------------------------------------------------------
// Laws
// ---------------------------------------------------------------------------

proof fn lemma_without_all(s: StoreView, ids: Seq<Seq<char>>, x: Seq<char>)
    ensures
        ids.contains(x) ==> store::row_with(without_all(s, ids).rows, x) is None,
        !ids.contains(x) ==> store::row_with(without_all(s, ids).rows, x) == store::row_with(
            s.rows,
            x,
        ),
    decreases ids.len(),
{
    if ids.len() > 0 {
        let t = ids.drop_last();
        lemma_without_all(s, t, x);
        laws::removed_extension_is_gone(without_all(s, t), ids.last(), x);
        if t.contains(x) {
            let k = choose|k: int| 0 <= k < t.len() && t[k] == x;
            assert(ids[k] == x);
        }
        if ids.contains(x) {
            let k = choose|k: int| 0 <= k < ids.len() && ids[k] == x;
            if k < t.len() {
                assert(t[k] == x);
            }
        }
        if ids.last() == x {
            assert(ids[ids.len() - 1] == x);
        }
    }
}

/// After a removal the extension is gone, and so are those that leave with it; no
/// other extension changes.
pub proof fn removal_takes_exactly_the_copies(
    s: StoreView,
    fs: FileTreeView,
    e: ExtensionView,
    id: Seq<char>,
    x: Seq<char>,
)
    ensures
        store::row_with(removed(s, fs, e, id).rows, id) is None,
        leaving_with(s, fs, e).contains(x) ==> store::row_with(
            removed(s, fs, e, id).rows,
            x,
        ) is None,
        x != id && !leaving_with(s, fs, e).contains(x) ==> store::row_with(
            removed(s, fs, e, id).rows,
            x,
        ) == store::row_with(s.rows, x),
{
    let a = store::without_extension(s, id);
    laws::removed_extension_is_gone(s, id, x);
    lemma_without_all(a, leaving_with(s, fs, e), id);
    lemma_without_all(a, leaving_with(s, fs, e), x);
}

/// What leaves the table with a skill is another skill of the same name that leads to
/// the same file.
pub proof fn copies_lead_to_the_same_file(
    s: StoreView,
    fs: FileTreeView,
    e: ExtensionView,
    x: Seq<char>,
)
    requires
        store::ids_distinct(s.rows),
        siblings_of(s, fs, e).contains(x),
    ensures
        x != e.id,
        e.source_path is Some,
        fs.at(e.source_path->0).canonical is Some,
        store::row_with(s.rows, x) matches Some(y) && y.kind == ExtensionKind::Skill && y.name
            == e.name && leads_to(fs, y, fs.at(e.source_path->0).canonical->0),
{
    let target = fs.at(e.source_path->0).canonical->0;
    let named = store::ids_named(s.rows, e.name, "skill"@);
    lemma_leading(s, fs, named, e.id, target, x);
    let i = lemma_named_row(s.rows, e.name, "skill"@, x);
    let y = store::row_with(s.rows, x)->0;
    lemma_row_id(s.rows, x);
    let k = lemma_row_at(s.rows, y);
    assert(s.rows[i].ext.id == s.rows[k].ext.id);
    lemma_skill_text(y.kind);
}

proof fn lemma_row_id(rows: Seq<RowView>, id: Seq<char>)
    ensures
        store::row_with(rows, id) matches Some(y) ==> y.id == id,
    decreases rows.len(),
{
    if rows.len() > 0 && rows[0].ext.id != id {
        lemma_row_id(rows.drop_first(), id);
    }
}

proof fn lemma_named_row(rows: Seq<RowView>, name: Seq<char>, kind: Seq<char>, id: Seq<char>) -> (i:
    int)
    requires
        store::ids_named(rows, name, kind).contains(id),
    ensures
        0 <= i < rows.len(),
        rows[i].ext.id == id,
        rows[i].ext.name == name,
        rows[i].ext.kind.text() == kind,
    decreases rows.len(),
{
    let all = store::ids_named(rows, name, kind);
    let before = store::ids_named(rows.drop_last(), name, kind);
    let k = choose|k: int| 0 <= k < all.len() && all[k] == id;
    if k < before.len() {
        assert(before[k] == id);
        lemma_named_row(rows.drop_last(), name, kind, id)
    } else {
        rows.len() - 1
    }
}

proof fn lemma_skill_text(kind: ExtensionKind)
    requires
        kind.text() == "skill"@,
    ensures
        kind == ExtensionKind::Skill,
{
    reveal_strlit("skill");
    reveal_strlit("mcp");
    reveal_strlit("plugin");
    reveal_strlit("hook");
    reveal_strlit("cli");
    reveal_strlit("subagent");
    reveal_strlit("command");
    assert(kind.text().len() == 5);
}

proof fn lemma_leading(
    s: StoreView,
    fs: FileTreeView,
    found: Seq<Seq<char>>,
    id: Seq<char>,
    target: Seq<char>,
    x: Seq<char>,
)
    requires
        ids_leading_to(s, fs, found, id, target).contains(x),
    ensures
        x != id,
        found.contains(x),
        store::row_with(s.rows, x) matches Some(y) && leads_to(fs, y, target),
    decreases found.len(),
{
    let r = ids_leading_to(s, fs, found, id, target);
    let k = choose|k: int| 0 <= k < r.len() && r[k] == x;
    assert(r[k] == x);
    let q = ids_leading_to(s, fs, found.drop_last(), id, target);
    if k < q.len() {
        assert(q[k] == x);
        assert(q.contains(x));
        lemma_leading(s, fs, found.drop_last(), id, target, x);
        let j = choose|j: int| 0 <= j < found.drop_last().len() && found.drop_last()[j] == x;
        assert(found[j] == x);
    } else {
        assert(found[found.len() - 1] == x);
    }
}

/// Every other skill with the name of a skill that leads to the same file leaves
/// the table with it.
pub proof fn every_copy_leaves(
    s: StoreView,
    fs: FileTreeView,
    e: ExtensionView,
    y: ExtensionView,
)
    requires
        e.kind == ExtensionKind::Skill,
        e.source_path is Some,
        fs.at(e.source_path->0).canonical is Some,
        store::row_with(s.rows, y.id) == Some(y),
        y.id != e.id,
        y.name == e.name,
        y.kind == ExtensionKind::Skill,
        leads_to(fs, y, fs.at(e.source_path->0).canonical->0),
    ensures
        leaving_with(s, fs, e).contains(y.id),
{
    let target = fs.at(e.source_path->0).canonical->0;
    lemma_named(s.rows, y);
    lemma_led(s, fs, store::ids_named(s.rows, e.name, "skill"@), e.id, target, y.id);
}

proof fn lemma_named(rows: Seq<RowView>, y: ExtensionView)
    requires
        store::row_with(rows, y.id) == Some(y),
    ensures
        store::ids_named(rows, y.name, y.kind.text()).contains(y.id),
{
    let i = lemma_row_at(rows, y);
    lemma_named_at(rows, i);
}

proof fn lemma_row_at(rows: Seq<RowView>, y: ExtensionView) -> (i: int)
    requires
        store::row_with(rows, y.id) == Some(y),
    ensures
        0 <= i < rows.len(),
        rows[i].ext == y,
    decreases rows.len(),
{
    if rows[0].ext.id == y.id {
        0
    } else {
        lemma_row_at(rows.drop_first(), y) + 1
    }
}

proof fn lemma_named_at(rows: Seq<RowView>, i: int)
    requires
        0 <= i < rows.len(),
    ensures
        store::ids_named(rows, rows[i].ext.name, rows[i].ext.kind.text()).contains(
            rows[i].ext.id,
        ),
    decreases rows.len(),
{
    let e = rows[i].ext;
    let all = store::ids_named(rows, e.name, e.kind.text());
    let before = store::ids_named(rows.drop_last(), e.name, e.kind.text());
    if i == rows.len() - 1 {
        assert(all[before.len() as int] == e.id);
    } else {
        lemma_named_at(rows.drop_last(), i);
        let k = choose|k: int| 0 <= k < before.len() && before[k] == e.id;
        assert(all[k] == e.id);
    }
}

proof fn lemma_led(
    s: StoreView,
    fs: FileTreeView,
    found: Seq<Seq<char>>,
    id: Seq<char>,
    target: Seq<char>,
    x: Seq<char>,
)
    requires
        found.contains(x),
        x != id,
        store::row_with(s.rows, x) matches Some(y) && leads_to(fs, y, target),
    ensures
        ids_leading_to(s, fs, found, id, target).contains(x),
    decreases found.len(),
{
    let all = ids_leading_to(s, fs, found, id, target);
    let before = ids_leading_to(s, fs, found.drop_last(), id, target);
    let k = choose|k: int| 0 <= k < found.len() && found[k] == x;
    if k == found.len() - 1 {
        assert(all[before.len() as int] == x);
    } else {
        assert(found.drop_last()[k] == x);
        lemma_led(s, fs, found.drop_last(), id, target, x);
        let j = choose|j: int| 0 <= j < before.len() && before[j] == x;
        assert(all[j] == x);
    }
}

/// An extension without files of its own has no copies that leave with it.
pub proof fn no_path_means_no_copies(s: StoreView, fs: FileTreeView, e: ExtensionView)
    requires
        e.source_path is None,
    ensures
        leaving_with(s, fs, e) == Seq::<Seq<char>>::empty(),
{
}

/// Whether a step takes a server out of a configuration file of one of some
/// agents.
pub open spec fn is_server_step(step: RemovalView, names: Seq<Seq<char>>) -> bool {
    step matches RemovalView::Server { agent, .. } && names.contains(agent)
}

/// Only the configuration files of agents that have a server are touched when it is
/// removed.
pub proof fn server_steps_name_its_agents(agents: Seq<AgentView>, e: ExtensionView, id: Seq<char>)
    ensures
        forall|i: int|
            0 <= i < server_steps(agents, e, id).len() ==> is_server_step(
                #[trigger] server_steps(agents, e, id)[i],
                e.agents,
            ),
    decreases agents.len(),
{
    if agents.len() > 0 {
        let before = server_steps(agents.drop_last(), e, id);
        let all = server_steps(agents, e, id);
        let a = agents.last();
        server_steps_name_its_agents(agents.drop_last(), e, id);
        if e.agents.contains(a.name) && a.mcp_config_in(e.scope) is Some {
            let p = a.mcp_config_in(e.scope)->0;
            let servers = agents::servers_at(a.mcp_files, p);
            let here = server_steps_in(servers, p, a.name, e.scope, id);
            lemma_server_steps_in(servers, p, a.name, e.scope, id, e.agents);
            assert forall|i: int| 0 <= i < all.len() implies is_server_step(
                #[trigger] all[i],
                e.agents,
            ) by {
                if i < before.len() {
                    assert(all[i] == before[i]);
                } else {
                    assert(all[i] == here[i - before.len()]);
                }
            }
        }
    }
}

proof fn lemma_server_steps_in(
    servers: Seq<McpServerEntryView>,
    config: Seq<char>,
    agent: Seq<char>,
    scope: ConfigScopeView,
    id: Seq<char>,
    names: Seq<Seq<char>>,
)
    requires
        names.contains(agent),
    ensures
        forall|i: int|
            0 <= i < server_steps_in(servers, config, agent, scope, id).len() ==> is_server_step(
                #[trigger] server_steps_in(servers, config, agent, scope, id)[i],
                names,
            ),
    decreases servers.len(),
{
    if servers.len() > 0 {
        lemma_server_steps_in(servers.drop_last(), config, agent, scope, id, names);
        let before = server_steps_in(servers.drop_last(), config, agent, scope, id);
        let all = server_steps_in(servers, config, agent, scope, id);
        assert forall|i: int| 0 <= i < all.len() implies is_server_step(
            #[trigger] all[i],
            names,
        ) by {
            if i < before.len() {
                assert(all[i] == before[i]);
            }
        }
    }
}

} // verus!
