//! What is shown of an extension of each kind.

use vstd::prelude::*;

use crate::agents;
use crate::agents::AgentView;
use crate::files::FileTreeView;
use crate::ids;
use crate::models::{
    ExtensionContentView, ExtensionKind, ExtensionView, HkErrorView, HookEntryView,
    McpServerEntryView, PluginEntryView,
};
use crate::path;
use crate::service::content;
use crate::service::content::ReadingView;
use crate::service::deploy_laws;
use crate::service::lookup;
use crate::skills;
use crate::sources;
use crate::split;
use crate::store;
use crate::store::StoreView;

verus! {

/// What is not known is not shown.
pub proof fn unknown_extensions_are_not_shown(
    s: StoreView,
    fs: FileTreeView,
    agents: Seq<AgentView>,
    id: Seq<char>,
)
    ensures
        store::row_with(s.rows, id) is None ==> content::reading_of(s, fs, agents, id) == Err::<
            ReadingView,
            HkErrorView,
        >(HkErrorView::NotFound("Extension not found"@)),
        store::row_with(s.rows, id) matches Some(e) ==> (content::reading_of(s, fs, agents, id)
            is Err <==> match e.kind {
            ExtensionKind::Skill => skills::location_of(
                fs,
                agents,
                id,
                e.agents,
                store::project_tuples(s.projects),
            ) is None,
            ExtensionKind::Subagent => e.source_path is None,
            ExtensionKind::Command => e.source_path is None,
            _ => false,
        }),
{
}

/// Of a subagent or a command the live file is shown: the file itself where it is
/// there, and only where it is not, the one that is disabled. The path that is shown is
/// that of the file that is read.
pub proof fn live_file_is_shown(
    s: StoreView,
    fs: FileTreeView,
    agents: Seq<AgentView>,
    id: Seq<char>,
)
    ensures
        store::row_with(s.rows, id) matches Some(e) ==> ((e.kind == ExtensionKind::Subagent
            || e.kind == ExtensionKind::Command) && e.source_path is Some ==> {
            let p = e.source_path->0;
            content::reading_of(s, fs, agents, id) matches Ok(
                ReadingView::File { file, path, symlink_target },
            ) && symlink_target is None && path == file && (fs.at(p).exists ==> file == p) && (!fs.at(
                p,
            ).exists ==> file == p + ".disabled"@)
        }),
{
}

/// Of a skill the file with its text is shown, and its directory: the entry itself, if
/// that is a directory, else the one that its file lies in. Where the entry is a link,
/// so is shown where that leads; where the directory of skills is one, where the entry
/// lies beyond it; and nothing where neither is.
pub proof fn skill_is_shown_where_it_lies(
    s: StoreView,
    fs: FileTreeView,
    agents: Seq<AgentView>,
    id: Seq<char>,
)
    ensures
        store::row_with(s.rows, id) matches Some(e) ==> (e.kind == ExtensionKind::Skill ==> (
        skills::location_of(
            fs,
            agents,
            id,
            e.agents,
            store::project_tuples(s.projects),
        ) matches Some(l) ==> (content::reading_of(s, fs, agents, id) matches Ok(
            ReadingView::File { file, path: shown, symlink_target },
        ) && {
            &&& file == l.skill_file
            &&& fs.at(l.entry_path).is_dir ==> shown == l.entry_path
            &&& !fs.at(l.entry_path).is_dir && path::parent_of(l.skill_file) is Some ==> Some(shown)
                == path::parent_of(l.skill_file)
            &&& fs.at(l.entry_path).is_symlink ==> symlink_target == fs.at(l.entry_path).link_target
            &&& !fs.at(l.entry_path).is_symlink && !fs.at(l.skill_dir).is_symlink
                ==> symlink_target is None
            &&& !fs.at(l.entry_path).is_symlink && fs.at(l.skill_dir).is_symlink ==> (match fs.at(
                l.skill_dir,
            ).link_target {
                None => symlink_target is None,
                Some(d) => symlink_target == Some(path::extended(d, path::base_name(l.entry_path))),
            })
        }))),
{
}

// ---------------------------------------------------------------------------
// Servers and hooks
// ---------------------------------------------------------------------------

/// The lines that are shown of a server: its command; its arguments, if it has any;
/// and its variables, if it has any, each by its name.
pub open spec fn describes_server(s: McpServerEntryView, lines: Seq<Seq<char>>) -> bool {
    let n: int = if s.args.len() == 0 {
        1
    } else {
        2
    };
    &&& lines.len() == n + (if s.env.len() == 0 {
        0
    } else {
        1 + s.env.len()
    })
    &&& lines[0] == "Command: "@ + s.command
    &&& s.args.len() > 0 ==> lines[1] == "Args: "@ + split::joined(s.args, " "@)
    &&& s.env.len() > 0 ==> lines[n] == "Environment:"@
    &&& forall|i: int|
        0 <= i < s.env.len() ==> lines[n + 1 + i] == "  "@ + (#[trigger] s.env[i]).0 + " = ****"@
}

/// The lines that are shown of a hook: its event, its matcher if it has one, and its
/// command.
pub open spec fn describes_hook(h: HookEntryView, lines: Seq<Seq<char>>) -> bool {
    &&& lines[0] == "Event: "@ + h.event
    &&& match h.matcher {
        None => lines.len() == 2,
        Some(m) => lines.len() == 3 && lines[1] == "Matcher: "@ + m,
    }
    &&& lines.last() == "Command: "@ + h.command
}

proof fn lemma_server_text(s: McpServerEntryView) -> (lines: Seq<Seq<char>>)
    ensures
        describes_server(s, lines),
        content::server_text(s) == split::joined(lines, "\n"@),
{
    let first = seq!["Command: "@ + s.command];
    let args = if s.args.len() == 0 {
        first
    } else {
        first.push("Args: "@ + split::joined(s.args, " "@))
    };
    if s.env.len() == 0 {
        args
    } else {
        args.push("Environment:"@) + content::env_lines(s.env)
    }
}

proof fn lemma_hook_text(h: HookEntryView) -> (lines: Seq<Seq<char>>)
    ensures
        describes_hook(h, lines),
        content::hook_text(h) == split::joined(lines, "\n"@),
{
    let first = seq!["Event: "@ + h.event];
    match h.matcher {
        Some(m) => first.push("Matcher: "@ + m).push("Command: "@ + h.command),
        None => first.push("Command: "@ + h.command),
    }
}

/// Whether what is shown is a server as one of its agents lists it, with the file that
/// lists it.
pub open spec fn shows_server(
    a: AgentView,
    e: ExtensionView,
    id: Seq<char>,
    c: ExtensionContentView,
) -> bool {
    exists|s: McpServerEntryView, lines: Seq<Seq<char>>| #[trigger]
        deploy_laws::lists_server(a, e, id, s) && #[trigger] describes_server(s, lines) && c.content
            == split::joined(lines, "\n"@) && c.path == a.mcp_config_in(e.scope)
            && c.symlink_target is None
}

proof fn lemma_server_content(
    agents: Seq<AgentView>,
    e: ExtensionView,
    id: Seq<char>,
    fallback: Option<Seq<char>>,
)
    ensures
        ({
            let c = content::server_content(agents, e, id, fallback);
            &&& deploy_laws::server_is_listed(agents, e, id) ==> exists|k: int|
                0 <= k < agents.len() && shows_server(#[trigger] agents[k], e, id, c)
            &&& !deploy_laws::server_is_listed(agents, e, id) ==> c.content == e.description
                && c.symlink_target is None && (fallback is Some ==> c.path == fallback)
        }),
    decreases agents.len(),
{
    if agents.len() > 0 {
        let t = agents.drop_first();
        let a = agents[0];
        let c = content::server_content(agents, e, id, fallback);
        let next = if e.agents.contains(a.name) && a.mcp_config_in(e.scope) is Some {
            content::path_or(fallback, a.mcp_config_in(e.scope)->0)
        } else {
            fallback
        };
        lemma_server_content(t, e, id, next);
        let here = if e.agents.contains(a.name) && a.mcp_config_in(e.scope) is Some {
            lookup::server_at(a, a.mcp_config_in(e.scope)->0, e.scope, id)
        } else {
            None
        };
        if let Some(p) = a.mcp_config_in(e.scope) {
            deploy_laws::lemma_server_in(
                agents::servers_at(a.mcp_files, p),
                a.name,
                e.scope,
                id,
            );
        }
        if let Some(s) = here {
            let lines = lemma_server_text(s);
            assert(deploy_laws::lists_server(a, e, id, s));
            assert(describes_server(s, lines));
            assert(shows_server(agents[0], e, id, c));
            assert(deploy_laws::lists_server(agents[0], e, id, s));
            assert(deploy_laws::server_is_listed(agents, e, id));
        } else {
            assert(c == content::server_content(t, e, id, next));
            if deploy_laws::server_is_listed(t, e, id) {
                let (k, s) = choose|k: int, s: McpServerEntryView|
                    0 <= k < t.len() && #[trigger] deploy_laws::lists_server(t[k], e, id, s);
                assert(deploy_laws::lists_server(agents[k + 1], e, id, s));
                let m = choose|m: int| 0 <= m < t.len() && shows_server(#[trigger] t[m], e, id, c);
                assert(agents[m + 1] == t[m]);
            }
            if deploy_laws::server_is_listed(agents, e, id) {
                let (k, s) = choose|k: int, s: McpServerEntryView|
                    0 <= k < agents.len() && #[trigger] deploy_laws::lists_server(
                        agents[k],
                        e,
                        id,
                        s,
                    );
                if k > 0 {
                    assert(deploy_laws::lists_server(t[k - 1], e, id, s));
                } else {
                    let p = a.mcp_config_in(e.scope)->0;
                    let listed = agents::servers_at(a.mcp_files, p);
                    let q = choose|q: int| 0 <= q < listed.len() && listed[q] == s;
                    assert(ids::scoped_id(listed[q].name, "mcp"@, a.name, e.scope) != id);
                }
            }
        }
    }
}

/// Of a server is shown what one of its agents lists: the command, the arguments, and
/// the names of the variables, with the file that lists it. Where none lists it, its
/// description is shown, with the file that it was found in.
pub proof fn server_is_shown_as_listed(
    s: StoreView,
    fs: FileTreeView,
    agents: Seq<AgentView>,
    id: Seq<char>,
)
    ensures
        store::row_with(s.rows, id) matches Some(e) ==> (e.kind == ExtensionKind::Mcp ==> (
        content::reading_of(s, fs, agents, id) matches Ok(ReadingView::Known(c)) && {
            &&& deploy_laws::server_is_listed(agents, e, id) ==> exists|k: int|
                0 <= k < agents.len() && shows_server(#[trigger] agents[k], e, id, c)
            &&& !deploy_laws::server_is_listed(agents, e, id) ==> c.content == e.description
                && c.symlink_target is None && (e.source_path is Some ==> c.path == e.source_path)
        })),
{
    if let Some(e) = store::row_with(s.rows, id) {
        lemma_server_content(agents, e, id, e.source_path);
    }
}

/// Whether what is shown is a hook as an agent lists it in the file to which it adds
/// hooks of the scope, with that file.
pub open spec fn shows_hook(
    a: AgentView,
    e: ExtensionView,
    id: Seq<char>,
    c: ExtensionContentView,
) -> bool {
    exists|h: HookEntryView, lines: Seq<Seq<char>>| #[trigger]
        adds_hook(a, e, id, h) && #[trigger] describes_hook(h, lines) && c.content == split::joined(
            lines,
            "\n"@,
        ) && c.path == a.hook_config_in(e.scope) && c.symlink_target is None
}

/// Whether an agent of an extension lists a hook with an identifier in the file to
/// which it adds hooks of the scope.
pub open spec fn adds_hook(
    a: AgentView,
    e: ExtensionView,
    id: Seq<char>,
    h: HookEntryView,
) -> bool {
    &&& e.agents.contains(a.name)
    &&& a.hook_config_in(e.scope) matches Some(p) && agents::hooks_at(a.hook_files, p).contains(h)
    &&& ids::scoped_id(crate::scanner::hook_name(h), "hook"@, a.name, e.scope) == id
}

/// Whether some agent lists the hook of an extension there.
pub open spec fn hook_is_added(agents: Seq<AgentView>, e: ExtensionView, id: Seq<char>) -> bool {
    exists|k: int, h: HookEntryView|
        0 <= k < agents.len() && #[trigger] adds_hook(agents[k], e, id, h)
}

proof fn lemma_hook_content(
    agents: Seq<AgentView>,
    e: ExtensionView,
    id: Seq<char>,
    fallback: Option<Seq<char>>,
)
    ensures
        ({
            let c = content::hook_content(agents, e, id, fallback);
            &&& hook_is_added(agents, e, id) ==> exists|k: int|
                0 <= k < agents.len() && shows_hook(#[trigger] agents[k], e, id, c)
            &&& !hook_is_added(agents, e, id) ==> c.content == e.description
                && c.symlink_target is None && (fallback is Some ==> c.path == fallback)
        }),
    decreases agents.len(),
{
    if agents.len() > 0 {
        let t = agents.drop_first();
        let a = agents[0];
        let c = content::hook_content(agents, e, id, fallback);
        let next = if e.agents.contains(a.name) && a.hook_config_in(e.scope) is Some {
            content::path_or(fallback, a.hook_config_in(e.scope)->0)
        } else {
            fallback
        };
        lemma_hook_content(t, e, id, next);
        let here = if e.agents.contains(a.name) && a.hook_config_in(e.scope) is Some {
            lookup::hook_at(a, a.hook_config_in(e.scope)->0, e.scope, id)
        } else {
            None
        };
        if let Some(p) = a.hook_config_in(e.scope) {
            deploy_laws::lemma_hook_in(agents::hooks_at(a.hook_files, p), a.name, e.scope, id);
        }
        if let Some(h) = here {
            let lines = lemma_hook_text(h);
            assert(adds_hook(a, e, id, h));
            assert(describes_hook(h, lines));
            assert(shows_hook(agents[0], e, id, c));
            assert(adds_hook(agents[0], e, id, h));
        } else {
            assert(c == content::hook_content(t, e, id, next));
            if hook_is_added(t, e, id) {
                let (k, h) = choose|k: int, h: HookEntryView|
                    0 <= k < t.len() && #[trigger] adds_hook(t[k], e, id, h);
                assert(adds_hook(agents[k + 1], e, id, h));
                let m = choose|m: int| 0 <= m < t.len() && shows_hook(#[trigger] t[m], e, id, c);
                assert(agents[m + 1] == t[m]);
            }
            if hook_is_added(agents, e, id) {
                let (k, h) = choose|k: int, h: HookEntryView|
                    0 <= k < agents.len() && #[trigger] adds_hook(agents[k], e, id, h);
                if k > 0 {
                    assert(adds_hook(t[k - 1], e, id, h));
                } else {
                    let p = a.hook_config_in(e.scope)->0;
                    let listed = agents::hooks_at(a.hook_files, p);
                    let q = choose|q: int| 0 <= q < listed.len() && listed[q] == h;
                    assert(ids::scoped_id(
                        crate::scanner::hook_name(listed[q]),
                        "hook"@,
                        a.name,
                        e.scope,
                    ) != id);
                }
            }
        }
    }
}

/// Of a hook is shown what one of its agents lists: the event, the matcher if there is
/// one, and the command, with the file that lists it. Where none lists it, its
/// description is shown, with the file that it was found in.
pub proof fn hook_is_shown_as_listed(
    s: StoreView,
    fs: FileTreeView,
    agents: Seq<AgentView>,
    id: Seq<char>,
)
    ensures
        store::row_with(s.rows, id) matches Some(e) ==> (e.kind == ExtensionKind::Hook ==> (
        content::reading_of(s, fs, agents, id) matches Ok(ReadingView::Known(c)) && {
            &&& hook_is_added(agents, e, id) ==> exists|k: int|
                0 <= k < agents.len() && shows_hook(#[trigger] agents[k], e, id, c)
            &&& !hook_is_added(agents, e, id) ==> c.content == e.description
                && c.symlink_target is None && (e.source_path is Some ==> c.path == e.source_path)
        })),
{
    if let Some(e) = store::row_with(s.rows, id) {
        lemma_hook_content(agents, e, id, e.source_path);
    }
}

// ---------------------------------------------------------------------------
// Plugins and tools
// ---------------------------------------------------------------------------

/// Whether an agent of an extension has a plugin with an identifier.
pub open spec fn has_plugin(
    a: AgentView,
    names: Seq<Seq<char>>,
    id: Seq<char>,
    p: PluginEntryView,
) -> bool {
    &&& names.contains(a.name)
    &&& a.plugins.contains(p)
    &&& ids::global_id(p.name + ":"@ + p.source, "plugin"@, a.name) == id
}

proof fn lemma_plugin_in(plugins: Seq<PluginEntryView>, agent: Seq<char>, id: Seq<char>)
    ensures
        content::plugin_in(plugins, agent, id) matches Some(p) ==> plugins.contains(p)
            && ids::global_id(p.name + ":"@ + p.source, "plugin"@, agent) == id,
        content::plugin_in(plugins, agent, id) is None ==> forall|q: int|
            0 <= q < plugins.len() ==> ids::global_id(
                (#[trigger] plugins[q]).name + ":"@ + plugins[q].source,
                "plugin"@,
                agent,
            ) != id,
    decreases plugins.len(),
{
    if plugins.len() > 0 {
        let t = plugins.drop_first();
        lemma_plugin_in(t, agent, id);
        assert(plugins[0] == plugins.first());
        if content::plugin_in(plugins, agent, id) is None {
            assert forall|q: int| 0 <= q < plugins.len() implies ids::global_id(
                (#[trigger] plugins[q]).name + ":"@ + plugins[q].source,
                "plugin"@,
                agent,
            ) != id by {
                if q > 0 {
                    assert(t[q - 1] == plugins[q]);
                }
            }
        } else if !content::is_plugin(plugins[0], agent, id) {
            let p = content::plugin_in(t, agent, id)->0;
            let q = choose|q: int| 0 <= q < t.len() && t[q] == p;
            assert(plugins[q + 1] == p);
        }
    }
}

proof fn lemma_plugin_of(agents: Seq<AgentView>, names: Seq<Seq<char>>, id: Seq<char>)
    ensures
        content::plugin_of(agents, names, id) matches Some(p) ==> exists|k: int|
            0 <= k < agents.len() && has_plugin(#[trigger] agents[k], names, id, p),
        content::plugin_of(agents, names, id) is None ==> forall|k: int, p: PluginEntryView|
            0 <= k < agents.len() ==> !#[trigger] has_plugin(agents[k], names, id, p),
    decreases agents.len(),
{
    if agents.len() > 0 {
        let t = agents.drop_first();
        let a = agents[0];
        lemma_plugin_of(t, names, id);
        lemma_plugin_in(a.plugins, a.name, id);
        let here = if names.contains(a.name) {
            content::plugin_in(a.plugins, a.name, id)
        } else {
            None
        };
        if here is Some {
            assert(has_plugin(agents[0], names, id, here->0));
        } else if content::plugin_of(agents, names, id) is Some {
            let p = content::plugin_of(t, names, id)->0;
            let k = choose|k: int| 0 <= k < t.len() && has_plugin(#[trigger] t[k], names, id, p);
            assert(agents[k + 1] == t[k]);
        } else {
            assert forall|k: int, p: PluginEntryView|
                0 <= k < agents.len() implies !#[trigger] has_plugin(agents[k], names, id, p) by {
                if k > 0 {
                    assert(!has_plugin(t[k - 1], names, id, p));
                } else if has_plugin(agents[k], names, id, p) {
                    let q = choose|q: int| 0 <= q < a.plugins.len() && a.plugins[q] == p;
                    assert(ids::global_id(
                        a.plugins[q].name + ":"@ + a.plugins[q].source,
                        "plugin"@,
                        a.name,
                    ) != id);
                }
            }
        }
    }
}

/// Whether a text introduces the plugin at `p`: the text of its file; else the
/// introduction in its directory; else the one of the repository around it.
pub open spec fn introduces(fs: FileTreeView, p: Seq<char>, c: Seq<char>) -> bool {
    if fs.at(p).is_file {
        fs.at(p).content == Some(c)
    } else {
        let upper = fs.at(path::extended(p, "README.md"@)).content;
        let lower = fs.at(path::extended(p, "readme.md"@)).content;
        if upper is Some {
            upper == Some(c)
        } else if lower is Some {
            lower == Some(c)
        } else {
            path::parent_of(p) matches Some(up) && (sources::repository_of(fs, up) matches Some(
                root,
            ) && {
                let there = fs.at(path::extended(root, "README.md"@)).content;
                if there is Some {
                    there == Some(c)
                } else {
                    fs.at(path::extended(root, "readme.md"@)).content == Some(c)
                }
            })
        }
    }
}

/// Of a plugin that one of its agents has is shown what introduces it, with its path;
/// its description where nothing does, or where no agent has it any more. Of a tool its
/// description is shown.
pub proof fn plugin_is_shown_by_its_introduction(
    s: StoreView,
    fs: FileTreeView,
    agents: Seq<AgentView>,
    id: Seq<char>,
)
    ensures
        store::row_with(s.rows, id) matches Some(e) ==> {
            let r = content::reading_of(s, fs, agents, id);
            &&& e.kind == ExtensionKind::Cli ==> (r matches Ok(ReadingView::Known(c)) && c.content
                == e.description && c.path is None && c.symlink_target is None)
            &&& e.kind == ExtensionKind::Plugin ==> (r matches Ok(ReadingView::Known(c))
                && c.symlink_target is None && {
                ||| (forall|k: int, p: PluginEntryView|
                    0 <= k < agents.len() ==> !#[trigger] has_plugin(agents[k], e.agents, id, p))
                    && c.content == e.description && c.path is None
                ||| exists|k: int, p: PluginEntryView|
                    0 <= k < agents.len() && #[trigger] has_plugin(agents[k], e.agents, id, p)
                        && c.path == p.path && (match p.path {
                        None => c.content == e.description,
                        Some(q) => introduces(fs, q, c.content) || (c.content == e.description
                            && forall|x: Seq<char>| !#[trigger] introduces(fs, q, x)),
                    })
            })
        },
{
    if let Some(e) = store::row_with(s.rows, id) {
        if e.kind == ExtensionKind::Plugin {
            lemma_plugin_of(agents, e.agents, id);
            if let Some(p) = content::plugin_of(agents, e.agents, id) {
                let k = choose|k: int|
                    0 <= k < agents.len() && has_plugin(#[trigger] agents[k], e.agents, id, p);
                assert(has_plugin(agents[k], e.agents, id, p));
            }
        }
    }
}

} // verus!
