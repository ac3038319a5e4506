//! The scan of everything: all agents, all projects, and the command line tools
//! that belong to what was found.

use vstd::prelude::*;

use crate::agents::{Agent, AgentView};
use crate::binaries;
use crate::binaries::{Machine, MachineView};
use crate::cli;
use crate::cli::{CliLink, CliLinkView, CliScanView};
use crate::files::{FileTree, FileTreeView};
use crate::ids;
use crate::models;
use crate::models::{
    CliMetaView, Extension, ExtensionKind, ExtensionView, PermissionView, Timestamp,
};
use crate::permissions;
use crate::plugins;
use crate::scanner;
use crate::skills;
use crate::text;

verus! {

/// The extensions of an agent in some projects.
pub open spec fn in_projects(
    fs: FileTreeView,
    agent: AgentView,
    projects: Seq<(Seq<char>, Seq<char>)>,
    now: Timestamp,
) -> Seq<ExtensionView>
    decreases projects.len(),
{
    if projects.len() == 0 {
        Seq::<ExtensionView>::empty()
    } else {
        in_projects(fs, agent, projects.drop_last(), now) + scanner::project_exts(
            fs,
            agent,
            projects.last().0,
            projects.last().1,
            now,
        )
    }
}

/// The extensions of the agents that are installed, globally and in the known
/// projects.
pub open spec fn of_agents(
    fs: FileTreeView,
    agents: Seq<AgentView>,
    projects: Seq<(Seq<char>, Seq<char>)>,
    now: Timestamp,
) -> Seq<ExtensionView>
    decreases agents.len(),
{
    if agents.len() == 0 {
        Seq::<ExtensionView>::empty()
    } else {
        let before = of_agents(fs, agents.drop_last(), projects, now);
        let a = agents.last();
        if a.detected {
            before + scanner::agent_exts(fs, a, now) + in_projects(fs, a, projects, now)
        } else {
            before
        }
    }
}

/// The tool that a skill belongs to: the first one whose links hold it.
pub open spec fn skill_parent(links: Seq<CliLinkView>, id: Seq<char>) -> Option<Seq<char>>
    decreases links.len(),
{
    if links.len() == 0 {
        None
    } else if links[0].skill_ids.contains(id) {
        Some(links[0].cli_id)
    } else {
        skill_parent(links.drop_first(), id)
    }
}

/// Whether a server belongs to a tool: it bears the name of the binary, or runs
/// it by name or by path.
pub open spec fn serves(e: ExtensionView, meta: CliMetaView) -> bool {
    e.name == meta.binary_name || (match meta.binary_path {
        Some(p) => cli::runs(e.permissions, meta.binary_name) || cli::runs(e.permissions, p),
        None => false,
    })
}

/// The tool that a server belongs to: the first one that it serves.
pub open spec fn server_parent(tools: Seq<ExtensionView>, e: ExtensionView) -> Option<Seq<char>>
    decreases tools.len(),
{
    if tools.len() == 0 {
        None
    } else if tools[0].cli_meta is Some && serves(e, tools[0].cli_meta->0) {
        Some(tools[0].id)
    } else {
        server_parent(tools.drop_first(), e)
    }
}

/// The tool that an extension belongs to, if any.
pub open spec fn parent_of(scan: CliScanView, e: ExtensionView) -> Option<Seq<char>> {
    if e.kind == ExtensionKind::Skill {
        skill_parent(scan.links, e.id)
    } else if e.kind == ExtensionKind::Mcp {
        server_parent(scan.exts, e)
    } else {
        None
    }
}

/// An extension with the tool that it belongs to on record.
pub open spec fn with_parent(scan: CliScanView, e: ExtensionView) -> ExtensionView {
    match parent_of(scan, e) {
        Some(p) => ExtensionView { cli_parent_id: Some(p), ..e },
        None => e,
    }
}

/// Everything: what the agents have, each with the tool that it belongs to, and
/// then the tools.
pub open spec fn everything(
    fs: FileTreeView,
    m: MachineView,
    agents: Seq<AgentView>,
    projects: Seq<(Seq<char>, Seq<char>)>,
    now: Timestamp,
) -> Seq<ExtensionView> {
    let found = of_agents(fs, agents, projects, now);
    let scan = cli::cli_scan(fs, m, found, now);
    found.map_values(|e: ExtensionView| with_parent(scan, e)) + scan.exts
}

fn scan_projects(
    fs: &FileTree,
    agent: &Agent,
    projects: &Vec<(String, String)>,
    now: Timestamp,
) -> (r: Vec<Extension>)
    ensures
        models::list_view(r@) == in_projects(fs@, agent@, models::pairs_view(projects@), now),
{
    let mut out = skills::no_exts();
    let ghost all = models::pairs_view(projects@);
    let mut i: usize = 0;
    assert(all.take(0) =~= Seq::<(Seq<char>, Seq<char>)>::empty());
    while i < projects.len()
        invariant
            all == models::pairs_view(projects@),
            i <= projects.len(),
            models::list_view(out@) == in_projects(fs@, agent@, all.take(i as int), now),
        decreases projects.len() - i,
    {
        assert(all.take(i + 1).drop_last() =~= all.take(i as int));
        assert(all.take(i + 1).last() == (projects@[i as int].0@, projects@[i as int].1@));
        let more = scanner::scan_project_extensions(
            fs,
            agent,
            &projects[i].0,
            &projects[i].1,
            now,
        );
        skills::append_exts(&mut out, more);
        i += 1;
    }
    assert(all.take(i as int) =~= all);
    out
}

/// The extensions of the agents that are installed, globally and in the known
/// projects.
pub fn scan_agents(
    fs: &FileTree,
    agents: &Vec<Agent>,
    projects: &Vec<(String, String)>,
    now: Timestamp,
) -> (r: Vec<Extension>)
    ensures
        models::list_view(r@) == of_agents(
            fs@,
            models::list_view(agents@),
            models::pairs_view(projects@),
            now,
        ),
{
    let mut out = skills::no_exts();
    let ghost all = models::list_view(agents@);
    let ghost known = models::pairs_view(projects@);
    let mut i: usize = 0;
    assert(all.take(0) =~= Seq::<AgentView>::empty());
    while i < agents.len()
        invariant
            all == models::list_view(agents@),
            known == models::pairs_view(projects@),
            i <= agents.len(),
            models::list_view(out@) == of_agents(fs@, all.take(i as int), known, now),
        decreases agents.len() - i,
    {
        assert(all.take(i + 1).drop_last() =~= all.take(i as int));
        assert(all.take(i + 1).last() == agents@[i as int]@);
        if agents[i].detected {
            let more = scanner::scan_adapter(fs, &agents[i], now);
            skills::append_exts(&mut out, more);
            let more = scan_projects(fs, &agents[i], projects, now);
            skills::append_exts(&mut out, more);
        }
        i += 1;
    }
    assert(all.take(i as int) =~= all);
    out
}

fn find_skill_parent(links: &Vec<CliLink>, id: &str) -> (r: Option<String>)
    ensures
        text::ostr(r) == skill_parent(models::list_view(links@), id@),
{
    let ghost v = models::list_view(links@);
    let mut i: usize = 0;
    assert(v.skip(0) =~= v);
    while i < links.len()
        invariant
            v == models::list_view(links@),
            i <= links.len(),
            skill_parent(v.skip(i as int), id@) == skill_parent(v, id@),
        decreases links.len() - i,
    {
        assert(v.skip(i as int)[0] == links@[i as int]@);
        assert(v.skip(i as int).drop_first() =~= v.skip(i + 1));
        if text::list_has(&links[i].skill_ids, id) {
            return Some(links[i].cli_id.clone());
        }
        i += 1;
    }
    None
}

fn find_server_parent(tools: &Vec<Extension>, e: &Extension) -> (r: Option<String>)
    ensures
        text::ostr(r) == server_parent(models::list_view(tools@), e@),
{
    let ghost v = models::list_view(tools@);
    let mut i: usize = 0;
    assert(v.skip(0) =~= v);
    while i < tools.len()
        invariant
            v == models::list_view(tools@),
            i <= tools.len(),
            server_parent(v.skip(i as int), e@) == server_parent(v, e@),
        decreases tools.len() - i,
    {
        assert(v.skip(i as int)[0] == tools@[i as int]@);
        assert(v.skip(i as int).drop_first() =~= v.skip(i + 1));
        if let Some(meta) = &tools[i].cli_meta {
            let by_command = match &meta.binary_path {
                Some(p) => cli::names_command(&e.permissions, &meta.binary_name)
                    || cli::names_command(&e.permissions, p),
                None => false,
            };
            if text::str_eq(&e.name, &meta.binary_name) || by_command {
                return Some(tools[i].id.clone());
            }
        }
        i += 1;
    }
    None
}

fn set_parent(e: &mut Extension, scan: &cli::CliScan)
    ensures
        final(e)@ == with_parent(scan@, old(e)@),
{
    let parent = if e.kind == ExtensionKind::Skill {
        find_skill_parent(&scan.links, &e.id)
    } else if e.kind == ExtensionKind::Mcp {
        find_server_parent(&scan.exts, e)
    } else {
        None
    };
    if parent.is_some() {
        e.cli_parent_id = parent;
    }
}

/// Everything: what the agents have, each with the tool that it belongs to, and
/// then the tools.
pub fn scan_all(
    fs: &FileTree,
    m: &Machine,
    agents: &Vec<Agent>,
    projects: &Vec<(String, String)>,
    now: Timestamp,
) -> (r: Vec<Extension>)
    ensures
        models::list_view(r@) == everything(
            fs@,
            m@,
            models::list_view(agents@),
            models::pairs_view(projects@),
            now,
        ),
{
    let found = scan_agents(fs, agents, projects, now);
    let scan = cli::scan_cli_binaries(fs, m, &found, now);
    let ghost list = models::list_view(found@);
    let ghost sv = scan@;
    let mut out: Vec<Extension> = Vec::new();
    let mut i: usize = 0;
    while i < found.len()
        invariant
            i <= found.len(),
            out.len() == i,
            forall|j: int|
                0 <= j < i ==> (#[trigger] out@[j])@ == with_parent(scan@, found@[j]@),
        decreases found.len() - i,
    {
        let mut e = found[i].clone();
        set_parent(&mut e, &scan);
        out.push(e);
        i += 1;
    }
    assert(models::list_view(out@) =~= list.map_values(|e: ExtensionView| with_parent(sv, e)));
    skills::append_exts(&mut out, scan.exts);
    out
}

// ---------------------------------------------------------------------------
// Laws
// ---------------------------------------------------------------------------

/// A tool always lists access to files.
pub proof fn tool_lists_files(
    meta: CliMetaView,
    exts: Seq<ExtensionView>,
    ids: Seq<Seq<char>>,
)
    ensures
        plugins::has_files(cli::cli_perms(meta, exts, ids)),
{
    let p = cli::with_servers(
        cli::with_children(cli::own_perms(meta), exts, ids),
        exts,
        meta.binary_name,
    );
    if !plugins::has_files(p) {
        assert(plugins::with_files(p)[p.len() as int] is FileSystem);
    }
}

/// A tool lists no dimension of permissions twice.
pub proof fn tool_lists_no_dimension_twice(
    meta: CliMetaView,
    exts: Seq<ExtensionView>,
    ids: Seq<Seq<char>>,
)
    ensures
        permissions::dimensions_differ(cli::cli_perms(meta, exts, ids)),
{
    let own = cli::own_perms(meta);
    assert(permissions::dimensions_differ(own));
    lemma_children_apart(own, exts, ids);
    let with = cli::with_children(own, exts, ids);
    lemma_servers_apart(with, exts, meta.binary_name);
}

proof fn lemma_children_apart(
    perms: Seq<PermissionView>,
    exts: Seq<ExtensionView>,
    ids: Seq<Seq<char>>,
)
    requires
        permissions::dimensions_differ(perms),
    ensures
        permissions::dimensions_differ(cli::with_children(perms, exts, ids)),
    decreases exts.len(),
{
    if exts.len() > 0 {
        lemma_children_apart(perms, exts.drop_last(), ids);
        permissions::merging_keeps_dimensions_apart(
            cli::with_children(perms, exts.drop_last(), ids),
            exts.last().permissions,
        );
    }
}

proof fn lemma_servers_apart(
    perms: Seq<PermissionView>,
    exts: Seq<ExtensionView>,
    bin: Seq<char>,
)
    requires
        permissions::dimensions_differ(perms),
    ensures
        permissions::dimensions_differ(cli::with_servers(perms, exts, bin)),
    decreases exts.len(),
{
    if exts.len() > 0 {
        lemma_servers_apart(perms, exts.drop_last(), bin);
        permissions::merging_keeps_dimensions_apart(
            cli::with_servers(perms, exts.drop_last(), bin),
            exts.last().permissions,
        );
    }
}

/// Every tool that is found is installed: it has a binary that lies somewhere,
/// its identifier goes by the name of that binary, and each link leads to one of
/// the tools.
pub proof fn found_tools_are_installed(
    fs: FileTreeView,
    m: MachineView,
    bins: Seq<Seq<char>>,
    exts: Seq<ExtensionView>,
    now: Timestamp,
)
    ensures
        ({
            let scan = cli::with_bins(fs, m, bins, exts, now);
            &&& forall|i: int|
                0 <= i < scan.exts.len() ==> ({
                    let e = #[trigger] scan.exts[i];
                    &&& e.kind == ExtensionKind::Cli
                    &&& e.enabled
                    &&& e.cli_meta is Some
                    &&& e.id == ids::cli_id(e.cli_meta->0.binary_name)
                    &&& e.source_path == binaries::binary_path(
                        fs,
                        m,
                        e.cli_meta->0.binary_name,
                    )
                    &&& e.source_path is Some
                })
            &&& forall|k: int|
                0 <= k < scan.links.len() ==> is_tool(
                    scan.exts,
                    (#[trigger] scan.links[k]).cli_id,
                )
        }),
    decreases bins.len(),
{
    if bins.len() > 0 {
        let before = cli::with_bins(fs, m, bins.drop_last(), exts, now);
        found_tools_are_installed(fs, m, bins.drop_last(), exts, now);
        let after = cli::with_bins(fs, m, bins, exts, now);
        let bin = bins.last();
        match binaries::binary_path(fs, m, bin) {
            None => {},
            Some(at) => {
                let n = before.exts.len() as int;
                assert(after.exts[n].id == ids::cli_id(bin));
                assert forall|i: int| 0 <= i < n implies after.exts[i] == before.exts[i] by {}
                assert forall|x: Seq<char>| is_tool(before.exts, x) implies is_tool(
                    after.exts,
                    x,
                ) by {
                    let i = choose|i: int|
                        0 <= i < before.exts.len() && (#[trigger] before.exts[i]).id == x;
                    assert(after.exts[i].id == x);
                }
                assert(is_tool(after.exts, ids::cli_id(bin)));
                let found = cli::ids_for(cli::bin_pairs(fs, exts), bin);
                lemma_links(before.links, ids::cli_id(bin), found, after.exts);
            },
        }
    }
}

/// Whether an identifier is that of one of some tools.
pub open spec fn is_tool(tools: Seq<ExtensionView>, id: Seq<char>) -> bool {
    exists|i: int| 0 <= i < tools.len() && (#[trigger] tools[i]).id == id
}

proof fn lemma_links(
    links: Seq<CliLinkView>,
    id: Seq<char>,
    ids: Seq<Seq<char>>,
    tools: Seq<ExtensionView>,
)
    requires
        forall|k: int| 0 <= k < links.len() ==> is_tool(tools, (#[trigger] links[k]).cli_id),
        is_tool(tools, id),
    ensures
        forall|k: int|
            0 <= k < cli::with_link(links, id, ids).len() ==> is_tool(
                tools,
                (#[trigger] cli::with_link(links, id, ids)[k]).cli_id,
            ),
    decreases links.len(),
{
    let r = cli::with_link(links, id, ids);
    if links.len() > 0 {
        let rest = links.drop_first();
        if links[0].cli_id != id {
            lemma_links(rest, id, ids, tools);
        }
        assert forall|k: int| 0 <= k < r.len() implies is_tool(
            tools,
            (#[trigger] r[k]).cli_id,
        ) by {
            if k > 0 {
                if links[0].cli_id == id {
                    assert(r[k] == links[k]);
                } else {
                    assert(r[k] == cli::with_link(rest, id, ids)[k - 1]);
                }
            } else {
                assert(is_tool(tools, links[0].cli_id));
            }
        }
    }
}

/// What an extension is put down as belonging to is one of the tools that were
/// found.
pub proof fn parents_are_tools(
    fs: FileTreeView,
    m: MachineView,
    exts: Seq<ExtensionView>,
    now: Timestamp,
    e: ExtensionView,
)
    ensures
        parent_of(cli::cli_scan(fs, m, exts, now), e) matches Some(p) ==> is_tool(
            cli::cli_scan(fs, m, exts, now).exts,
            p,
        ),
{
    let scan = cli::cli_scan(fs, m, exts, now);
    found_tools_are_installed(fs, m, cli::candidate_bins(fs, exts), exts, now);
    lemma_skill_parent(scan.links, e.id);
    lemma_server_parent(scan.exts, e);
    if e.kind == ExtensionKind::Skill && skill_parent(scan.links, e.id) is Some {
        let p = skill_parent(scan.links, e.id)->0;
        let k = choose|k: int| 0 <= k < scan.links.len() && (#[trigger] scan.links[k]).cli_id == p;
        assert(is_tool(scan.exts, scan.links[k].cli_id));
    }
}

proof fn lemma_skill_parent(links: Seq<CliLinkView>, id: Seq<char>)
    ensures
        skill_parent(links, id) matches Some(p) ==> exists|k: int|
            0 <= k < links.len() && (#[trigger] links[k]).cli_id == p,
    decreases links.len(),
{
    if links.len() > 0 {
        if links[0].skill_ids.contains(id) {
            assert(links[0].cli_id == skill_parent(links, id)->0);
        } else {
            let rest = links.drop_first();
            lemma_skill_parent(rest, id);
            if skill_parent(rest, id) is Some {
                let p = skill_parent(rest, id)->0;
                let k = choose|k: int| 0 <= k < rest.len() && (#[trigger] rest[k]).cli_id == p;
                assert(links[k + 1] == rest[k]);
            }
        }
    }
}

proof fn lemma_server_parent(tools: Seq<ExtensionView>, e: ExtensionView)
    ensures
        server_parent(tools, e) matches Some(p) ==> is_tool(tools, p),
    decreases tools.len(),
{
    if tools.len() > 0 {
        if tools[0].cli_meta is Some && serves(e, tools[0].cli_meta->0) {
            assert(tools[0].id == server_parent(tools, e)->0);
        } else {
            let rest = tools.drop_first();
            lemma_server_parent(rest, e);
            if server_parent(rest, e) is Some {
                let p = server_parent(rest, e)->0;
                let k = choose|k: int| 0 <= k < rest.len() && (#[trigger] rest[k]).id == p;
                assert(tools[k + 1] == rest[k]);
            }
        }
    }
}

} // verus!
