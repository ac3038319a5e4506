//! What an audit looks at, and what becomes of its results.

use vstd::prelude::*;

use crate::agents::{Agent, AgentView};
use crate::files::{FileTree, FileTreeView};
use crate::ids;
use crate::models;
use crate::models::{
    AuditInput, AuditInputView, AuditResult, AuditResultView, Extension, ExtensionKind,
    ExtensionView, HookEntryView, McpServerEntry, McpServerEntryView, Permission, PermissionView,
};
use crate::plugins;
use crate::scanner;
use crate::skills;
use crate::split;
use crate::store;
use crate::store::{RowView, Store, StoreView};
use crate::text;

verus! {

// ---------------------------------------------------------------------------
// Inputs
// ---------------------------------------------------------------------------

/// The first server with an identifier.
pub open spec fn server_with_id(
    servers: Seq<McpServerEntryView>,
    agent: Seq<char>,
    id: Seq<char>,
) -> Option<McpServerEntryView>
    decreases servers.len(),
{
    if servers.len() == 0 {
        None
    } else if ids::global_id(servers[0].name, "mcp"@, agent) == id {
        Some(servers[0])
    } else {
        server_with_id(servers.drop_first(), agent, id)
    }
}

/// The server with an identifier of the last of some agents that has one.
pub open spec fn audited_server(
    agents: Seq<AgentView>,
    names: Seq<Seq<char>>,
    id: Seq<char>,
) -> Option<McpServerEntryView>
    decreases agents.len(),
{
    if agents.len() == 0 {
        None
    } else {
        let before = audited_server(agents.drop_last(), names, id);
        let a = agents.last();
        if names.contains(a.name) {
            match server_with_id(a.mcp_servers, a.name, id) {
                Some(s) => Some(s),
                None => before,
            }
        } else {
            before
        }
    }
}

/// The command of a hook, by its name `event:matcher:command`: what follows the
/// second colon, or the whole name where there are fewer.
pub open spec fn command_of_hook(name: Seq<char>) -> Seq<char> {
    match split::after_first(name, ':') {
        None => name,
        Some(rest) => match split::after_first(rest, ':') {
            None => name,
            Some(command) => command,
        },
    }
}

/// Where the files of an extension lie, or its name.
pub open spec fn path_or_name(e: ExtensionView) -> Seq<char> {
    match e.source_path {
        Some(p) => p,
        None => e.name,
    }
}

/// The file at `p`, or what it is called while it is disabled.
pub open spec fn live_path(fs: FileTreeView, p: Seq<char>) -> Seq<char> {
    if fs.at(p).exists {
        p
    } else {
        p + ".disabled"@
    }
}

/// The text of the file at `p`, empty where it cannot be read.
pub open spec fn text_or_empty(fs: FileTreeView, p: Seq<char>) -> Seq<char> {
    match fs.at(p).content {
        Some(c) => c,
        None => Seq::<char>::empty(),
    }
}

/// What an audit looks at of an extension: the text, and the path that findings
/// are reported for.
pub open spec fn audited_text(
    fs: FileTreeView,
    agents: Seq<AgentView>,
    e: ExtensionView,
) -> (Seq<char>, Seq<char>) {
    match e.kind {
        ExtensionKind::Skill => {
            let found = skills::content_of(fs, agents, e.id, e.agents);
            (
                found.0,
                match found.1 {
                    Some(p) => p,
                    None => e.name,
                },
            )
        },
        ExtensionKind::Mcp => (Seq::<char>::empty(), e.name),
        ExtensionKind::Hook => (command_of_hook(e.name), e.name),
        ExtensionKind::Plugin => (plugins::audit_text(fs, path_or_name(e)), path_or_name(e)),
        ExtensionKind::Cli => (Seq::<char>::empty(), e.name),
        _ => {
            let p = live_path(fs, path_or_name(e));
            (text_or_empty(fs, p), p)
        },
    }
}

/// The server that an audit looks at, of an extension that is one.
pub open spec fn audited_entry(agents: Seq<AgentView>, e: ExtensionView) -> Option<
    McpServerEntryView,
> {
    if e.kind == ExtensionKind::Mcp {
        audited_server(agents, e.agents, e.id)
    } else {
        None
    }
}

/// What an audit is told of an extension.
pub open spec fn input_with(
    e: ExtensionView,
    found: (Seq<char>, Seq<char>),
    server: Option<McpServerEntryView>,
) -> AuditInputView {
    AuditInputView {
        extension_id: e.id,
        kind: e.kind,
        name: e.name,
        content: found.0,
        source: e.source,
        file_path: found.1,
        mcp_command: match server {
            Some(s) => Some(s.command),
            None => None,
        },
        mcp_args: match server {
            Some(s) => s.args,
            None => Seq::<Seq<char>>::empty(),
        },
        mcp_env: match server {
            Some(s) => s.env,
            None => Seq::<(Seq<char>, Seq<char>)>::empty(),
        },
        installed_at: e.installed_at,
        updated_at: e.updated_at,
        permissions: e.permissions,
        cli_parent_id: e.cli_parent_id,
        cli_meta: e.cli_meta,
        child_permissions: Seq::<PermissionView>::empty(),
        pack: e.pack,
    }
}

/// What an audit is told of an extension.
pub open spec fn audit_input(
    fs: FileTreeView,
    agents: Seq<AgentView>,
    e: ExtensionView,
) -> AuditInputView {
    input_with(e, audited_text(fs, agents, e), audited_entry(agents, e))
}

/// What an audit is told of some extensions.
pub open spec fn audit_inputs(
    fs: FileTreeView,
    agents: Seq<AgentView>,
    exts: Seq<ExtensionView>,
) -> Seq<AuditInputView> {
    exts.map_values(|e: ExtensionView| audit_input(fs, agents, e))
}

fn find_server(agent: &Agent, id: &str) -> (r: Option<McpServerEntry>)
    ensures
        models::opt_view(r) == server_with_id(agent@.mcp_servers, agent@.name, id@),
{
    let ghost v = models::list_view(agent.mcp_servers@);
    let mut i: usize = 0;
    assert(v.skip(0) =~= v);
    while i < agent.mcp_servers.len()
        invariant
            v == models::list_view(agent.mcp_servers@),
            v == agent@.mcp_servers,
            i <= agent.mcp_servers.len(),
            server_with_id(v.skip(i as int), agent@.name, id@) == server_with_id(
                v,
                agent@.name,
                id@,
            ),
        decreases agent.mcp_servers.len() - i,
    {
        assert(v.skip(i as int)[0] == agent.mcp_servers@[i as int]@);
        assert(v.skip(i as int).drop_first() =~= v.skip(i + 1));
        let here = ids::stable_id_for(&agent.mcp_servers[i].name, "mcp", &agent.name);
        if text::str_eq(&here, id) {
            return Some(agent.mcp_servers[i].clone());
        }
        i += 1;
    }
    None
}

fn find_audited_server(agents: &Vec<Agent>, names: &Vec<String>, id: &str) -> (r: Option<
    McpServerEntry,
>)
    ensures
        models::opt_view(r) == audited_server(models::list_view(agents@), text::strs(names@), id@),
{
    let ghost v = models::list_view(agents@);
    let mut found: Option<McpServerEntry> = None;
    let mut i: usize = 0;
    assert(v.take(0) =~= Seq::<AgentView>::empty());
    while i < agents.len()
        invariant
            v == models::list_view(agents@),
            i <= agents.len(),
            models::opt_view(found) == audited_server(
                v.take(i as int),
                text::strs(names@),
                id@,
            ),
        decreases agents.len() - i,
    {
        assert(v.take(i + 1).drop_last() =~= v.take(i as int));
        assert(v.take(i + 1).last() == agents@[i as int]@);
        if text::list_has(names, &agents[i].name) {
            if let Some(s) = find_server(&agents[i], id) {
                found = Some(s);
            }
        }
        i += 1;
    }
    assert(v.take(i as int) =~= v);
    found
}

fn find_hook_command(name: &str) -> (r: String)
    ensures
        r@ == command_of_hook(name@),
{
    match split::rest_after(name, ':') {
        None => name.to_owned(),
        Some(rest) => match split::rest_after(rest, ':') {
            None => name.to_owned(),
            Some(command) => command.to_owned(),
        },
    }
}

fn find_path_or_name(e: &Extension) -> (r: String)
    ensures
        r@ == path_or_name(e@),
{
    match &e.source_path {
        Some(p) => p.clone(),
        None => e.name.clone(),
    }
}

/// The file at `p`, or what it is called while it is disabled.
pub fn find_live_path(fs: &FileTree, p: &str) -> (r: String)
    ensures
        r@ == live_path(fs@, p@),
{
    if fs.has(p) {
        p.to_owned()
    } else {
        text::cat2(p, ".disabled")
    }
}

fn read_or_empty(fs: &FileTree, p: &str) -> (r: String)
    ensures
        r@ == text_or_empty(fs@, p@),
{
    match fs.read(p) {
        Some(c) => c,
        None => String::new(),
    }
}

fn find_audited_text(fs: &FileTree, agents: &Vec<Agent>, e: &Extension) -> (r: (String, String))
    ensures
        (r.0@, r.1@) == audited_text(fs@, models::list_view(agents@), e@),
{
    match e.kind {
        ExtensionKind::Skill => {
            let found = skills::find_skill_content(fs, agents, &e.id, &e.agents);
            let file = match found.1 {
                Some(p) => p,
                None => e.name.clone(),
            };
            (found.0, file)
        },
        ExtensionKind::Mcp => (String::new(), e.name.clone()),
        ExtensionKind::Hook => (find_hook_command(&e.name), e.name.clone()),
        ExtensionKind::Plugin => {
            let p = find_path_or_name(e);
            (plugins::read_plugin_content(fs, &p), p)
        },
        ExtensionKind::Cli => (String::new(), e.name.clone()),
        _ => {
            let p = find_live_path(fs, &find_path_or_name(e));
            (read_or_empty(fs, &p), p)
        },
    }
}

fn make_input(e: &Extension, found: (String, String), server: Option<McpServerEntry>) -> (r:
    AuditInput)
    ensures
        r@ == input_with(e@, (found.0@, found.1@), models::opt_view(server)),
{
    let (content, file_path) = found;
    let (mcp_command, mcp_args, mcp_env): (Option<String>, Vec<String>, Vec<(String, String)>) =
        match server {
        Some(s) => (Some(s.command), s.args, s.env),
        None => (None, Vec::new(), Vec::new()),
    };
    let no_permissions: Vec<Permission> = Vec::new();
    let r = AuditInput {
        extension_id: e.id.clone(),
        kind: e.kind,
        name: e.name.clone(),
        content,
        source: e.source.clone(),
        file_path,
        mcp_command,
        mcp_args,
        mcp_env,
        installed_at: e.installed_at,
        updated_at: e.updated_at,
        permissions: models::clone_permissions(&e.permissions),
        cli_parent_id: text::clone_opt(&e.cli_parent_id),
        cli_meta: match &e.cli_meta {
            Some(m) => Some(m.clone()),
            None => None,
        },
        child_permissions: no_permissions,
        pack: text::clone_opt(&e.pack),
    };
    proof {
        let want = input_with(e@, (found.0@, found.1@), models::opt_view(server));
        assert(r@.child_permissions =~= want.child_permissions);
        assert(r@.mcp_args =~= want.mcp_args);
        assert(r@.mcp_env =~= want.mcp_env);
    }
    r
}

/// What an audit is told of an extension.
pub fn input_for(fs: &FileTree, agents: &Vec<Agent>, e: &Extension) -> (r: AuditInput)
    ensures
        r@ == audit_input(fs@, models::list_view(agents@), e@),
{
    let found = find_audited_text(fs, agents, e);
    let server = if e.kind == ExtensionKind::Mcp {
        find_audited_server(agents, &e.agents, &e.id)
    } else {
        None
    };
    make_input(e, found, server)
}

/// What an audit is told of some extensions.
pub fn inputs_for(fs: &FileTree, agents: &Vec<Agent>, extensions: &Vec<Extension>) -> (r: Vec<
    AuditInput,
>)
    ensures
        models::list_view(r@) == audit_inputs(
            fs@,
            models::list_view(agents@),
            models::list_view(extensions@),
        ),
{
    let mut out: Vec<AuditInput> = Vec::new();
    let mut i: usize = 0;
    while i < extensions.len()
        invariant
            i <= extensions.len(),
            out.len() == i,
            forall|j: int|
                0 <= j < i ==> (#[trigger] out@[j])@ == audit_input(
                    fs@,
                    models::list_view(agents@),
                    extensions@[j]@,
                ),
        decreases extensions.len() - i,
    {
        out.push(input_for(fs, agents, &extensions[i]));
        i += 1;
    }
    assert(models::list_view(out@) =~= audit_inputs(
        fs@,
        models::list_view(agents@),
        models::list_view(extensions@),
    ));
    out
}

/// Whether a list is what a judge said of some extensions, all at once.
pub open spec fn is_audit<A: FnOnce(Vec<AuditInput>) -> Vec<AuditResult>>(
    audit: A,
    fs: FileTreeView,
    agents: Seq<AgentView>,
    exts: Seq<ExtensionView>,
    results: Vec<AuditResult>,
) -> bool {
    exists|x: Vec<AuditInput>|
        models::list_view(x@) == audit_inputs(fs, agents, exts) && #[trigger] call_ensures(
            audit,
            (x,),
            results,
        )
}

/// Audits some extensions. `audit` judges all of them at once.
pub fn audit_extensions<A: FnOnce(Vec<AuditInput>) -> Vec<AuditResult>>(
    extensions: &Vec<Extension>,
    fs: &FileTree,
    agents: &Vec<Agent>,
    audit: A,
) -> (r: Vec<AuditResult>)
    requires
        forall|x: Vec<AuditInput>|
            models::list_view(x@) == audit_inputs(
                fs@,
                models::list_view(agents@),
                models::list_view(extensions@),
            ) ==> #[trigger] call_requires(audit, (x,)),
    ensures
        is_audit(
            audit,
            fs@,
            models::list_view(agents@),
            models::list_view(extensions@),
            r,
        ),
{
    let inputs = inputs_for(fs, agents, extensions);
    let ghost x = inputs;
    let r = audit(inputs);
    assert(call_ensures(audit, (x,), r));
    r
}

// ---------------------------------------------------------------------------
// Results
// ---------------------------------------------------------------------------

/// A store after one audit result was recorded; a result for an unknown extension
/// is dropped.
pub open spec fn with_result(s: StoreView, x: AuditResultView) -> StoreView {
    if store::has_id(s.rows, x.extension_id) {
        StoreView {
            rows: store::with_score(s.rows, x.extension_id, x.trust_score),
            audits: s.audits.push(x),
            ..s
        }
    } else {
        s
    }
}

/// A store after audit results were recorded.
pub open spec fn with_results(s: StoreView, results: Seq<AuditResultView>) -> StoreView
    decreases results.len(),
{
    if results.len() == 0 {
        s
    } else {
        with_result(with_results(s, results.drop_last()), results.last())
    }
}

/// Records audit results, with the scores that they give. A result for an unknown
/// extension is dropped.
pub fn record_results(store: &mut Store, results: &Vec<AuditResult>)
    ensures
        final(store)@ == with_results(old(store)@, models::list_view(results@)),
{
    let ghost v = models::list_view(results@);
    let mut i: usize = 0;
    assert(v.take(0) =~= Seq::<AuditResultView>::empty());
    while i < results.len()
        invariant
            v == models::list_view(results@),
            i <= results.len(),
            store@ == with_results(old(store)@, v.take(i as int)),
        decreases results.len() - i,
    {
        assert(v.take(i + 1).drop_last() =~= v.take(i as int));
        assert(v.take(i + 1).last() == results@[i as int]@);
        let _ = store.insert_audit_result(&results[i]);
        i += 1;
    }
    assert(v.take(i as int) =~= v);
}

/// Audits every known extension, in the order of the listing, and records the
/// results. `audit` judges all of them at once.
pub fn run_full_audit<A: FnOnce(Vec<AuditInput>) -> Vec<AuditResult>>(
    store: &mut Store,
    fs: &FileTree,
    agents: &Vec<Agent>,
    audit: A,
) -> (r: Vec<AuditResult>)
    requires
        forall|x: Vec<AuditInput>|
            models::list_view(x@) == audit_inputs(
                fs@,
                models::list_view(agents@),
                store::listed(old(store)@.rows, None, None),
            ) ==> #[trigger] call_requires(audit, (x,)),
    ensures
        is_audit(
            audit,
            fs@,
            models::list_view(agents@),
            store::listed(old(store)@.rows, None, None),
            r,
        ),
        final(store)@ == with_results(old(store)@, models::list_view(r@)),
{
    let extensions = store.list_extensions(None, None);
    let results = audit_extensions(&extensions, fs, agents, audit);
    record_results(store, &results);
    results
}

// ---------------------------------------------------------------------------
// One skill
// ---------------------------------------------------------------------------

/// What an audit is told of the skills with a name.
pub open spec fn named_inputs(
    fs: FileTreeView,
    agents: Seq<AgentView>,
    exts: Seq<ExtensionView>,
    name: Seq<char>,
) -> Seq<AuditInputView>
    decreases exts.len(),
{
    if exts.len() == 0 {
        Seq::<AuditInputView>::empty()
    } else {
        let before = named_inputs(fs, agents, exts.drop_last(), name);
        let e = exts.last();
        if e.name == name && e.kind == ExtensionKind::Skill {
            before.push(audit_input(fs, agents, e))
        } else {
            before
        }
    }
}

proof fn lemma_is_named_input(
    fs: FileTreeView,
    agents: Seq<AgentView>,
    exts: Seq<ExtensionView>,
    name: Seq<char>,
    i: int,
)
    requires
        0 <= i < exts.len(),
        exts[i].name == name,
        exts[i].kind == ExtensionKind::Skill,
    ensures
        named_inputs(fs, agents, exts, name).contains(audit_input(fs, agents, exts[i])),
    decreases exts.len(),
{
    let all = named_inputs(fs, agents, exts, name);
    let before = named_inputs(fs, agents, exts.drop_last(), name);
    if i == exts.len() - 1 {
        assert(all[before.len() as int] == audit_input(fs, agents, exts[i]));
    } else {
        lemma_is_named_input(fs, agents, exts.drop_last(), name, i);
        let k = choose|k: int|
            0 <= k < before.len() && before[k] == audit_input(fs, agents, exts[i]);
        assert(all[k] == before[k]);
    }
}

/// Whether a value is what a judge said of an input.
pub open spec fn is_answer<A: Fn(AuditInput) -> AuditResult>(
    audit: A,
    input: AuditInputView,
    r: AuditResult,
) -> bool {
    exists|x: AuditInput| x@ == input && #[trigger] call_ensures(audit, (x,), r)
}

/// Whether a list is what a judge said of each input.
pub open spec fn are_answers<A: Fn(AuditInput) -> AuditResult>(
    audit: A,
    inputs: Seq<AuditInputView>,
    results: Seq<AuditResult>,
) -> bool {
    results.len() == inputs.len() && forall|i: int|
        0 <= i < results.len() ==> is_answer(audit, inputs[i], #[trigger] results[i])
}

/// Audits the skills with a name, one at a time.
pub fn audit_extension_by_name<A: Fn(AuditInput) -> AuditResult>(
    name: &str,
    extensions: &Vec<Extension>,
    fs: &FileTree,
    agents: &Vec<Agent>,
    audit: A,
) -> (r: Vec<AuditResult>)
    requires
        forall|x: AuditInput|
            named_inputs(
                fs@,
                models::list_view(agents@),
                models::list_view(extensions@),
                name@,
            ).contains(x@) ==> #[trigger] call_requires(audit, (x,)),
    ensures
        are_answers(
            audit,
            named_inputs(
                fs@,
                models::list_view(agents@),
                models::list_view(extensions@),
                name@,
            ),
            r@,
        ),
{
    let ghost v = models::list_view(extensions@);
    let ghost a = models::list_view(agents@);
    let mut out: Vec<AuditResult> = Vec::new();
    let mut i: usize = 0;
    assert(v.take(0) =~= Seq::<ExtensionView>::empty());
    while i < extensions.len()
        invariant
            v == models::list_view(extensions@),
            a == models::list_view(agents@),
            i <= extensions.len(),
            forall|x: AuditInput|
                named_inputs(fs@, a, v, name@).contains(x@) ==> #[trigger] call_requires(
                    audit,
                    (x,),
                ),
            are_answers(audit, named_inputs(fs@, a, v.take(i as int), name@), out@),
        decreases extensions.len() - i,
    {
        assert(v.take(i + 1).drop_last() =~= v.take(i as int));
        assert(v.take(i + 1).last() == extensions@[i as int]@);
        if text::str_eq(&extensions[i].name, name) && extensions[i].kind == ExtensionKind::Skill {
            let ghost before = named_inputs(fs@, a, v.take(i as int), name@);
            let ghost done = out@;
            let input = input_for(fs, agents, &extensions[i]);
            let ghost x = input;
            proof {
                lemma_is_named_input(fs@, a, v, name@, i as int);
            }
            let answer = audit(input);
            assert(call_ensures(audit, (x,), answer));
            assert(is_answer(audit, x@, answer));
            out.push(answer);
            assert(are_answers(audit, before.push(x@), out@)) by {
                assert forall|j: int| 0 <= j < out@.len() implies is_answer(
                    audit,
                    before.push(x@)[j],
                    #[trigger] out@[j],
                ) by {
                    if j < done.len() {
                        assert(out@[j] == done[j]);
                    }
                }
            }
        }
        i += 1;
    }
    assert(v.take(i as int) =~= v);
    out
}

// ---------------------------------------------------------------------------
// Laws
// ---------------------------------------------------------------------------

/// An audit of some extensions is told of each of them once, in their order.
pub proof fn audit_covers_each_extension(
    fs: FileTreeView,
    agents: Seq<AgentView>,
    exts: Seq<ExtensionView>,
)
    ensures
        audit_inputs(fs, agents, exts).len() == exts.len(),
        forall|i: int|
            0 <= i < exts.len() ==> (#[trigger] audit_inputs(fs, agents, exts)[i]).extension_id
                == exts[i].id && audit_inputs(fs, agents, exts)[i].kind == exts[i].kind,
{
}

/// Recording audit results changes no row but its score, and no project.
pub proof fn results_change_only_scores(s: StoreView, results: Seq<AuditResultView>, i: int)
    requires
        0 <= i < s.rows.len(),
    ensures
        with_results(s, results).rows.len() == s.rows.len(),
        with_results(s, results).projects == s.projects,
        with_results(s, results).rows[i] == (RowView {
            ext: ExtensionView {
                trust_score: with_results(s, results).rows[i].ext.trust_score,
                ..s.rows[i].ext
            },
            ..s.rows[i]
        }),
    decreases results.len(),
{
    if results.len() > 0 {
        results_change_only_scores(s, results.drop_last(), i);
    }
}

/// After a result was recorded, the extension has its score, and the result is the
/// latest one.
pub proof fn recorded_result_reads_back(s: StoreView, x: AuditResultView, i: int)
    requires
        0 <= i < s.rows.len(),
        s.rows[i].ext.id == x.extension_id,
    ensures
        with_result(s, x).rows[i].ext.trust_score == Some(x.trust_score),
        with_result(s, x).audits.last() == x,
{
    assert(store::has_id(s.rows, x.extension_id));
}

/// Whether a judge answers once for each input, and says which extension it speaks of.
pub open spec fn answers_each<A: FnOnce(Vec<AuditInput>) -> Vec<AuditResult>>(audit: A) -> bool {
    forall|x: Vec<AuditInput>, r: Vec<AuditResult>| #[trigger]
        call_ensures(audit, (x,), r) ==> r@.len() == x@.len() && forall|i: int|
            0 <= i < r@.len() ==> (#[trigger] r@[i])@.extension_id == x@[i]@.extension_id
}

/// An audit by a judge that answers each input has one result for each extension, in
/// their order: for a full audit, for each known extension in the order of the listing,
/// and none for an empty table.
pub proof fn full_audit_answers_each_extension<
    A: FnOnce(Vec<AuditInput>) -> Vec<AuditResult>,
>(
    audit: A,
    fs: FileTreeView,
    agents: Seq<AgentView>,
    rows: Seq<RowView>,
    results: Vec<AuditResult>,
)
    requires
        answers_each(audit),
        is_audit(audit, fs, agents, store::listed(rows, None, None), results),
    ensures
        results@.len() == rows.len(),
        results@.len() == store::listed(rows, None, None).len(),
        forall|i: int|
            0 <= i < results@.len() ==> (#[trigger] results@[i])@.extension_id == store::listed(
                rows,
                None,
                None,
            )[i].id,
{
    let exts = store::listed(rows, None, None);
    let x = choose|x: Vec<AuditInput>|
        models::list_view(x@) == audit_inputs(fs, agents, exts) && #[trigger] call_ensures(
            audit,
            (x,),
            results,
        );
    audit_covers_each_extension(fs, agents, exts);
    lemma_all_listed(rows);
    assert(x@.len() == models::list_view(x@).len());
    assert forall|i: int| 0 <= i < results@.len() implies (#[trigger] results@[i])@.extension_id
        == exts[i].id by {
        assert(models::list_view(x@)[i] == x@[i]@);
        assert(audit_inputs(fs, agents, exts)[i].extension_id == exts[i].id);
    }
}

/// A full audit of an empty table hands over the empty list, whatever the judge makes
/// of it.
pub proof fn empty_table_is_audited_as_nothing<A: FnOnce(Vec<AuditInput>) -> Vec<AuditResult>>(
    audit: A,
    fs: FileTreeView,
    agents: Seq<AgentView>,
    rows: Seq<RowView>,
    results: Vec<AuditResult>,
)
    requires
        rows.len() == 0,
        is_audit(audit, fs, agents, store::listed(rows, None, None), results),
    ensures
        audit_inputs(fs, agents, store::listed(rows, None, None)).len() == 0,
        exists|x: Vec<AuditInput>|
            x@.len() == 0 && #[trigger] call_ensures(audit, (x,), results),
{
    let exts = store::listed(rows, None, None);
    let x = choose|x: Vec<AuditInput>|
        models::list_view(x@) == audit_inputs(fs, agents, exts) && #[trigger] call_ensures(
            audit,
            (x,),
            results,
        );
    assert(models::list_view(x@).len() == x@.len());
}

proof fn lemma_all_listed(rows: Seq<RowView>)
    ensures
        store::listed(rows, None, None).len() == rows.len(),
    decreases rows.len(),
{
    if rows.len() > 0 {
        lemma_all_listed(rows.drop_last());
        lemma_inserted_len(store::listed(rows.drop_last(), None, None), rows.last().ext);
    }
}

proof fn lemma_inserted_len(s: Seq<ExtensionView>, x: ExtensionView)
    ensures
        store::inserted_by_name(s, x).len() == s.len() + 1,
    decreases s.len(),
{
    if s.len() > 0 {
        lemma_inserted_len(s.drop_last(), x);
    }
}

/// Whether a store has an audit result behind its first `n` results.
pub open spec fn has_new_result(s: StoreView, n: nat, x: AuditResultView) -> bool {
    exists|j: int| n <= j < s.audits.len() && #[trigger] s.audits[j] == x
}

/// Each result for a known extension is recorded; results for unknown ones stand in the
/// way of none.
pub proof fn results_are_recorded(s: StoreView, results: Seq<AuditResultView>, k: int)
    requires
        0 <= k < results.len(),
        store::has_id(s.rows, results[k].extension_id),
    ensures
        has_new_result(with_results(s, results), s.audits.len(), results[k]),
    decreases results.len(),
{
    let t = results.drop_last();
    let before = with_results(s, t);
    let after = with_results(s, results);
    lemma_results_keep_ids(s, t, results[k].extension_id);
    if k == results.len() - 1 {
        assert(after.audits[before.audits.len() as int] == results[k]);
    } else {
        results_are_recorded(s, t, k);
        let j = choose|j: int|
            s.audits.len() <= j < before.audits.len() && #[trigger] before.audits[j] == results[k];
        assert(after.audits[j] == results[k]);
    }
}

proof fn lemma_results_keep_ids(s: StoreView, results: Seq<AuditResultView>, id: Seq<char>)
    requires
        store::has_id(s.rows, id),
    ensures
        store::has_id(with_results(s, results).rows, id),
        with_results(s, results).audits.len() >= s.audits.len(),
    decreases results.len(),
{
    if results.len() > 0 {
        lemma_results_keep_ids(s, results.drop_last(), id);
        let before = with_results(s, results.drop_last()).rows;
        let after = with_results(s, results).rows;
        let i = choose|i: int| 0 <= i < before.len() && (#[trigger] before[i]).ext.id == id;
        assert(after[i].ext.id == id);
    }
}

/// What an audit looks at of a hook is its command, unless its event or its matcher
/// holds a colon.
pub proof fn audited_hook_is_its_command(h: HookEntryView)
    requires
        !h.event.contains(':'),
        h.matcher matches Some(m) ==> !m.contains(':'),
    ensures
        command_of_hook(scanner::hook_name(h)) == h.command,
{
    let m = match h.matcher {
        Some(m) => m,
        None => "*"@,
    };
    reveal_strlit(":");
    reveal_strlit("*");
    let rest = m + seq![':'] + h.command;
    assert(":"@ =~= seq![':']);
    assert(scanner::hook_name(h) =~= h.event + seq![':'] + rest);
    lemma_after_colon(h.event, rest);
    lemma_after_colon(m, h.command);
}

proof fn lemma_after_colon(a: Seq<char>, b: Seq<char>)
    requires
        !a.contains(':'),
    ensures
        split::after_first(a + seq![':'] + b, ':') == Some(b),
    decreases a.len(),
{
    let s = a + seq![':'] + b;
    if a.len() == 0 {
        assert(s.drop_first() =~= b);
    } else {
        assert(a[0] != ':');
        assert forall|i: int| 0 <= i < a.drop_first().len() implies a.drop_first()[i] != ':' by {
            assert(a[i + 1] != ':');
        }
        lemma_after_colon(a.drop_first(), b);
        assert(s.drop_first() =~= a.drop_first() + seq![':'] + b);
    }
}

} // verus!
