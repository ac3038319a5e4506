//! What an audit is told of an extension of each kind.

use vstd::prelude::*;

use crate::agents::AgentView;
use crate::files::FileTreeView;
use crate::ids;
use crate::lists;
use crate::models::{AuditInputView, ExtensionKind, ExtensionView, McpServerEntryView};
use crate::plugins;
use crate::service::audit;
use crate::skills;
use crate::text_laws;

verus! {

/// An audit is told who an extension is: its identifier, kind, name, source, times,
/// permissions, tool and pack.
pub proof fn audit_is_told_who_it_is(fs: FileTreeView, agents: Seq<AgentView>, e: ExtensionView)
    ensures
        ({
            let x = audit::audit_input(fs, agents, e);
            &&& x.extension_id == e.id && x.kind == e.kind && x.name == e.name
            &&& x.source == e.source && x.pack == e.pack
            &&& x.installed_at == e.installed_at && x.updated_at == e.updated_at
            &&& x.permissions == e.permissions && x.child_permissions.len() == 0
            &&& x.cli_parent_id == e.cli_parent_id && x.cli_meta == e.cli_meta
        }),
{
}

/// An audit of several extensions is told of each of them, in their order.
pub proof fn audit_is_told_of_each(
    fs: FileTreeView,
    agents: Seq<AgentView>,
    exts: Seq<ExtensionView>,
    i: int,
)
    requires
        0 <= i < exts.len(),
    ensures
        audit::audit_inputs(fs, agents, exts).len() == exts.len(),
        audit::audit_inputs(fs, agents, exts)[i].extension_id == exts[i].id,
        audit::audit_inputs(fs, agents, exts)[i] == audit::audit_input(fs, agents, exts[i]),
{
}

/// What an audit reads of a skill is the text of the file in which it is found among
/// the global directories of its agents, under the path of that file; of a skill that
/// is not found there, nothing, under its name.
pub proof fn audit_reads_the_skill(fs: FileTreeView, agents: Seq<AgentView>, e: ExtensionView)
    requires
        e.kind == ExtensionKind::Skill,
    ensures
        ({
            let x = audit::audit_input(fs, agents, e);
            match skills::location_of(
                fs,
                agents,
                e.id,
                e.agents,
                Seq::<(Seq<char>, Seq<char>)>::empty(),
            ) {
                None => x.content.len() == 0 && x.file_path == e.name,
                Some(l) => x.file_path == l.skill_file && (match fs.at(l.skill_file).content {
                    Some(c) => x.content == c,
                    None => x.content.len() == 0,
                }),
            }
        }),
{
}

/// What an audit reads of a subagent or a command is the text of its live file: of the
/// file itself where it is there, and only where it is not, of the one that is
/// disabled.
pub proof fn audit_reads_the_live_file(fs: FileTreeView, agents: Seq<AgentView>, e: ExtensionView)
    requires
        e.kind == ExtensionKind::Subagent || e.kind == ExtensionKind::Command,
        e.source_path is Some,
    ensures
        ({
            let x = audit::audit_input(fs, agents, e);
            let p = e.source_path->0;
            let live = if fs.at(p).exists {
                p
            } else {
                p + ".disabled"@
            };
            &&& x.file_path == live
            &&& match fs.at(live).content {
                Some(c) => x.content == c,
                None => x.content.len() == 0,
            }
        }),
{
}

/// What an audit reads of a plugin is its code, under its path; of a hook its command;
/// of servers and tools nothing. These go by their names.
pub proof fn audit_reads_code_and_commands(
    fs: FileTreeView,
    agents: Seq<AgentView>,
    e: ExtensionView,
)
    ensures
        ({
            let x = audit::audit_input(fs, agents, e);
            &&& e.kind == ExtensionKind::Plugin && e.source_path is Some ==> x.file_path
                == e.source_path->0 && x.content == plugins::audit_text(fs, e.source_path->0)
            &&& e.kind == ExtensionKind::Hook ==> x.file_path == e.name && x.content
                == audit::command_of_hook(e.name)
            &&& e.kind == ExtensionKind::Mcp || e.kind == ExtensionKind::Cli ==> x.file_path
                == e.name && x.content.len() == 0
        }),
{
}

/// Whether an agent of an extension has a server with an identifier.
pub open spec fn has_server(
    a: AgentView,
    names: Seq<Seq<char>>,
    id: Seq<char>,
    s: McpServerEntryView,
) -> bool {
    &&& names.contains(a.name)
    &&& a.mcp_servers.contains(s)
    &&& ids::global_id(s.name, "mcp"@, a.name) == id
}

proof fn lemma_server_with_id(servers: Seq<McpServerEntryView>, agent: Seq<char>, id: Seq<char>)
    ensures
        audit::server_with_id(servers, agent, id) matches Some(s) ==> servers.contains(s)
            && ids::global_id(s.name, "mcp"@, agent) == id,
        audit::server_with_id(servers, agent, id) is None ==> forall|q: int|
            0 <= q < servers.len() ==> ids::global_id((#[trigger] servers[q]).name, "mcp"@, agent)
                != id,
    decreases servers.len(),
{
    if servers.len() > 0 {
        let t = servers.drop_first();
        lemma_server_with_id(t, agent, id);
        assert(servers[0] == servers.first());
        if audit::server_with_id(servers, agent, id) is None {
            assert forall|q: int| 0 <= q < servers.len() implies ids::global_id(
                (#[trigger] servers[q]).name,
                "mcp"@,
                agent,
            ) != id by {
                if q > 0 {
                    assert(t[q - 1] == servers[q]);
                }
            }
        } else if ids::global_id(servers[0].name, "mcp"@, agent) != id {
            let s = audit::server_with_id(t, agent, id)->0;
            let q = choose|q: int| 0 <= q < t.len() && t[q] == s;
            assert(servers[q + 1] == s);
        }
    }
}

proof fn lemma_audited_server(agents: Seq<AgentView>, names: Seq<Seq<char>>, id: Seq<char>)
    ensures
        audit::audited_server(agents, names, id) matches Some(s) ==> exists|k: int|
            0 <= k < agents.len() && has_server(#[trigger] agents[k], names, id, s),
        audit::audited_server(agents, names, id) is None ==> forall|k: int, s: McpServerEntryView|
            0 <= k < agents.len() ==> !#[trigger] has_server(agents[k], names, id, s),
    decreases agents.len(),
{
    if agents.len() > 0 {
        let t = agents.drop_last();
        let a = agents.last();
        lemma_audited_server(t, names, id);
        lemma_server_with_id(a.mcp_servers, a.name, id);
        let here = if names.contains(a.name) {
            audit::server_with_id(a.mcp_servers, a.name, id)
        } else {
            None
        };
        if here is Some {
            assert(has_server(agents[agents.len() - 1], names, id, here->0));
        } else if audit::audited_server(agents, names, id) is Some {
            let s = audit::audited_server(t, names, id)->0;
            let k = choose|k: int| 0 <= k < t.len() && has_server(#[trigger] t[k], names, id, s);
            assert(agents[k] == t[k]);
        } else {
            assert forall|k: int, s: McpServerEntryView|
                0 <= k < agents.len() implies !#[trigger] has_server(agents[k], names, id, s) by {
                if k < t.len() {
                    assert(!has_server(t[k], names, id, s));
                } else if has_server(agents[k], names, id, s) {
                    let q = choose|q: int| 0 <= q < a.mcp_servers.len() && a.mcp_servers[q] == s;
                    assert(ids::global_id(a.mcp_servers[q].name, "mcp"@, a.name) != id);
                }
            }
        }
    }
}

/// An audit of a server is told the command, the arguments and the variables of an
/// entry with its identifier that one of its agents has; of all else, and of a server
/// that no agent has any more, it is told of none.
pub proof fn audit_is_told_what_a_server_runs(
    fs: FileTreeView,
    agents: Seq<AgentView>,
    e: ExtensionView,
)
    ensures
        ({
            let x = audit::audit_input(fs, agents, e);
            let none = x.mcp_command is None && x.mcp_args.len() == 0 && x.mcp_env.len() == 0;
            &&& e.kind != ExtensionKind::Mcp ==> none
            &&& e.kind == ExtensionKind::Mcp ==> {
                ||| none && forall|k: int, s: McpServerEntryView|
                    0 <= k < agents.len() ==> !#[trigger] has_server(agents[k], e.agents, e.id, s)
                ||| exists|k: int, s: McpServerEntryView|
                    0 <= k < agents.len() && #[trigger] has_server(agents[k], e.agents, e.id, s)
                        && x.mcp_command == Some(s.command) && x.mcp_args == s.args && x.mcp_env
                        == s.env
            }
        }),
{
    lemma_audited_server(agents, e.agents, e.id);
    if let Some(s) = audit::audited_server(agents, e.agents, e.id) {
        let k = choose|k: int|
            0 <= k < agents.len() && has_server(#[trigger] agents[k], e.agents, e.id, s);
        assert(has_server(agents[k], e.agents, e.id, s));
    }
}

/// An audit by name is told of each skill with that name, and of nothing else.
pub proof fn audit_by_name_is_told_of_the_skills(
    fs: FileTreeView,
    agents: Seq<AgentView>,
    exts: Seq<ExtensionView>,
    name: Seq<char>,
    x: AuditInputView,
)
    ensures
        audit::named_inputs(fs, agents, exts, name).contains(x) <==> exists|i: int|
            0 <= i < exts.len() && (#[trigger] exts[i]).name == name && exts[i].kind
                == ExtensionKind::Skill && x == audit::audit_input(fs, agents, exts[i]),
    decreases exts.len(),
{
    if exts.len() > 0 {
        let t = exts.drop_last();
        let before = audit::named_inputs(fs, agents, t, name);
        audit_by_name_is_told_of_the_skills(fs, agents, t, name, x);
        lists::lemma_push_contains(before, audit::audit_input(fs, agents, exts.last()), x);
        if before.contains(x) {
            let i = choose|i: int|
                0 <= i < t.len() && (#[trigger] t[i]).name == name && t[i].kind
                    == ExtensionKind::Skill && x == audit::audit_input(fs, agents, t[i]);
            assert(exts[i] == t[i]);
        }
        if audit::named_inputs(fs, agents, exts, name).contains(x) && !before.contains(x) {
            assert(exts[exts.len() - 1] == exts.last());
        }
        if exists|i: int|
            0 <= i < exts.len() && (#[trigger] exts[i]).name == name && exts[i].kind
                == ExtensionKind::Skill && x == audit::audit_input(fs, agents, exts[i]) {
            let i = choose|i: int|
                0 <= i < exts.len() && (#[trigger] exts[i]).name == name && exts[i].kind
                    == ExtensionKind::Skill && x == audit::audit_input(fs, agents, exts[i]);
            if i < t.len() {
                assert(t[i] == exts[i]);
            }
        }
    } else {
        assert(!audit::named_inputs(fs, agents, exts, name).contains(x));
    }
}

/// What an audit takes for the command of a hook stands behind the second colon of its
/// name; a name with fewer colons is taken as a whole.
pub proof fn command_stands_behind_the_second_colon(a: Seq<char>, b: Seq<char>, c: Seq<char>)
    requires
        !a.contains(':'),
        !b.contains(':'),
    ensures
        audit::command_of_hook(a + seq![':'] + b + seq![':'] + c) == c,
        audit::command_of_hook(a + seq![':'] + b) == a + seq![':'] + b,
        audit::command_of_hook(a) == a,
{
    let rest = b + seq![':'] + c;
    assert(a + seq![':'] + b + seq![':'] + c =~= a + seq![':'] + rest);
    text_laws::text_follows_the_first(a, ':', rest);
    text_laws::text_follows_the_first(b, ':', c);
    text_laws::text_follows_the_first(a, ':', b);
}

} // verus!
