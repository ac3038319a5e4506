//! What follows an installation: the agents that got a skill are scanned, the
//! install record is written, and so it is for the agents that load skills from
//! the same directory.

use vstd::prelude::*;

use crate::agents::{Agent, AgentView};
use crate::files::{FileTree, FileTreeView};
use crate::ids;
use crate::models;
use crate::models::{
    AuditInput, AuditResult, ConfigScope, ConfigScopeView, Extension,
    ExtensionKind, ExtensionView, InstallMeta, InstallMetaView, Timestamp,
};
use crate::path;
use crate::scanner;
use crate::service::audit;
use crate::skills;
use crate::store;
use crate::store::sync;
use crate::store::{RowView, Store, StoreView};
use crate::text;

verus! {

// ---------------------------------------------------------------------------
// Directories that are the same
// ---------------------------------------------------------------------------

/// Whether two paths name the same place: by their text, or because both lead to
/// the same file.
pub open spec fn paths_meet(fs: FileTreeView, a: Seq<char>, b: Seq<char>) -> bool {
    path::same_path(a, b) || (match (fs.at(a).canonical, fs.at(b).canonical) {
        (Some(x), Some(y)) => path::same_path(x, y),
        _ => false,
    })
}

/// Whether two paths name the same place. Links are followed where both paths
/// lead somewhere; paths that lead nowhere are compared by their text.
pub fn paths_equal(fs: &FileTree, a: &str, b: &str) -> (r: bool)
    ensures
        r == paths_meet(fs@, a@, b@),
{
    if path::path_eq(a, b) {
        return true;
    }
    match fs.canonicalize(a) {
        None => false,
        Some(x) => match fs.canonicalize(b) {
            None => false,
            Some(y) => path::path_eq(&x, &y),
        },
    }
}

/// The directories that an agent loads skills from in a scope.
pub open spec fn dirs_scanned(agent: AgentView, scope: ConfigScopeView) -> Seq<Seq<char>> {
    match scope {
        ConfigScopeView::Global => agent.skill_dirs,
        ConfigScopeView::Project { path: root, .. } => agent.project_skill_dirs.map_values(
            |rel: Seq<char>| path::extended(root, rel),
        ),
    }
}

/// Whether one of some directories is `dir`.
pub open spec fn any_meets(fs: FileTreeView, dirs: Seq<Seq<char>>, dir: Seq<char>) -> bool {
    exists|i: int| 0 <= i < dirs.len() && paths_meet(fs, #[trigger] dirs[i], dir)
}

/// Whether an agent loads skills from `dir` in a scope.
pub open spec fn scans_dir(
    fs: FileTreeView,
    agent: AgentView,
    dir: Seq<char>,
    scope: ConfigScopeView,
) -> bool {
    any_meets(fs, dirs_scanned(agent, scope), dir)
}

/// Whether an agent loads skills from `dir` in a scope.
pub fn adapter_scans_dir(fs: &FileTree, agent: &Agent, dir: &str, scope: &ConfigScope) -> (r: bool)
    ensures
        r == scans_dir(fs@, agent@, dir@, scope@),
{
    let ghost dirs = dirs_scanned(agent@, scope@);
    match scope {
        ConfigScope::Global => {
            let mut i: usize = 0;
            while i < agent.skill_dirs.len()
                invariant
                    dirs == text::strs(agent.skill_dirs@),
                    dirs == dirs_scanned(agent@, scope@),
                    i <= agent.skill_dirs.len(),
                    forall|j: int| 0 <= j < i ==> !paths_meet(fs@, #[trigger] dirs[j], dir@),
                decreases agent.skill_dirs.len() - i,
            {
                if paths_equal(fs, &agent.skill_dirs[i], dir) {
                    assert(paths_meet(fs@, dirs[i as int], dir@));
                    return true;
                }
                i += 1;
            }
            false
        },
        ConfigScope::Project { path: root, .. } => {
            let mut i: usize = 0;
            while i < agent.project_skill_dirs.len()
                invariant
                    dirs.len() == agent.project_skill_dirs.len(),
                    forall|j: int|
                        0 <= j < dirs.len() ==> #[trigger] dirs[j] == path::extended(
                            root@,
                            agent.project_skill_dirs@[j]@,
                        ),
                    dirs == dirs_scanned(agent@, scope@),
                    i <= agent.project_skill_dirs.len(),
                    forall|j: int| 0 <= j < i ==> !paths_meet(fs@, #[trigger] dirs[j], dir@),
                decreases agent.project_skill_dirs.len() - i,
            {
                let here = path::join(root, &agent.project_skill_dirs[i]);
                if paths_equal(fs, &here, dir) {
                    assert(paths_meet(fs@, dirs[i as int], dir@));
                    return true;
                }
                i += 1;
            }
            false
        },
    }
}

/// Naming the same place is reflexive and symmetric.
pub proof fn same_place_is_symmetric(fs: FileTreeView, a: Seq<char>, b: Seq<char>)
    ensures
        paths_meet(fs, a, a),
        paths_meet(fs, a, b) == paths_meet(fs, b, a),
{
}

// ---------------------------------------------------------------------------
// Scanning one agent in one scope
// ---------------------------------------------------------------------------

/// What an agent has in a scope.
pub open spec fn scope_exts(
    fs: FileTreeView,
    agent: AgentView,
    scope: ConfigScopeView,
    now: Timestamp,
) -> Seq<ExtensionView> {
    match scope {
        ConfigScopeView::Global => scanner::agent_exts(fs, agent, now),
        ConfigScopeView::Project { name, path: root } => scanner::project_exts(
            fs,
            agent,
            name,
            root,
            now,
        ),
    }
}

/// Rows after some extensions were recorded.
pub open spec fn all_inserted(rows: Seq<RowView>, exts: Seq<ExtensionView>) -> Seq<RowView>
    decreases exts.len(),
{
    if exts.len() == 0 {
        rows
    } else {
        store::upserted(all_inserted(rows, exts.drop_last()), exts.last(), true)
    }
}

/// A store after an agent was scanned in a scope. A scan of the global scope gives
/// up what is gone. A scan of a project must not: it does not see what the agent
/// has elsewhere.
pub open spec fn scan_stored(
    s: StoreView,
    fs: FileTreeView,
    agent: Seq<char>,
    exts: Seq<ExtensionView>,
    scope: ConfigScopeView,
) -> StoreView {
    if scope is Global {
        sync::synced(s, fs, agent, exts)
    } else {
        StoreView { rows: all_inserted(s.rows, exts), ..s }
    }
}

fn scan_scope(fs: &FileTree, agent: &Agent, scope: &ConfigScope, now: Timestamp) -> (r: Vec<
    Extension,
>)
    ensures
        models::list_view(r@) == scope_exts(fs@, agent@, scope@, now),
{
    match scope {
        ConfigScope::Global => scanner::scan_adapter(fs, agent, now),
        ConfigScope::Project { name, path } => scanner::scan_project_extensions(
            fs,
            agent,
            name,
            path,
            now,
        ),
    }
}

fn store_scan(
    store: &mut Store,
    fs: &FileTree,
    agent: &str,
    exts: &Vec<Extension>,
    scope: &ConfigScope,
)
    ensures
        final(store)@ == scan_stored(
            old(store)@,
            fs@,
            agent@,
            models::list_view(exts@),
            scope@,
        ),
{
    if scope.is_global() {
        store.sync_extensions_for_agent(fs, agent, exts);
        return ;
    }
    let ghost v = models::list_view(exts@);
    let mut i: usize = 0;
    assert(v.take(0) =~= Seq::<ExtensionView>::empty());
    while i < exts.len()
        invariant
            v == models::list_view(exts@),
            i <= exts.len(),
            store@ == (StoreView {
                rows: all_inserted(old(store)@.rows, v.take(i as int)),
                ..old(store)@
            }),
        decreases exts.len() - i,
    {
        assert(v.take(i + 1).drop_last() =~= v.take(i as int));
        assert(v.take(i + 1).last() == exts@[i as int]@);
        store.insert_extension(&exts[i]);
        i += 1;
    }
    assert(v.take(i as int) =~= v);
}

/// A store and the extensions found so far, after one more agent was scanned.
pub open spec fn after_scan(
    before: (StoreView, Seq<ExtensionView>),
    fs: FileTreeView,
    agent: AgentView,
    scope: ConfigScopeView,
    now: Timestamp,
) -> (StoreView, Seq<ExtensionView>) {
    let exts = scope_exts(fs, agent, scope, now);
    (scan_stored(before.0, fs, agent.name, exts, scope), before.1 + exts)
}

fn scan_and_store(
    store: &mut Store,
    found: &mut Vec<Extension>,
    fs: &FileTree,
    agent: &Agent,
    scope: &ConfigScope,
    now: Timestamp,
)
    ensures
        (final(store)@, models::list_view(final(found)@)) == after_scan(
            (old(store)@, models::list_view(old(found)@)),
            fs@,
            agent@,
            scope@,
            now,
        ),
{
    let exts = scan_scope(fs, agent, scope, now);
    store_scan(store, fs, &agent.name, &exts, scope);
    skills::append_exts(found, exts);
}

// ---------------------------------------------------------------------------
// The agents that were installed to
// ---------------------------------------------------------------------------

/// A store and what was found, after the agents with the given names were
/// scanned.
pub open spec fn targets_scanned(
    s: StoreView,
    fs: FileTreeView,
    agents: Seq<AgentView>,
    names: Seq<Seq<char>>,
    scope: ConfigScopeView,
    now: Timestamp,
) -> (StoreView, Seq<ExtensionView>)
    decreases agents.len(),
{
    if agents.len() == 0 {
        (s, Seq::<ExtensionView>::empty())
    } else {
        let before = targets_scanned(s, fs, agents.drop_last(), names, scope, now);
        if names.contains(agents.last().name) {
            after_scan(before, fs, agents.last(), scope, now)
        } else {
            before
        }
    }
}

/// Rows after one of them got an install record and, if there is one, a pack.
pub open spec fn with_record(
    rows: Seq<RowView>,
    id: Seq<char>,
    meta: InstallMetaView,
    pack: Option<Seq<char>>,
) -> Seq<RowView> {
    let a = store::with_meta(rows, id, Some(meta));
    match pack {
        Some(p) => store::with_pack(a, id, Some(p)),
        None => a,
    }
}

/// Rows after the skill got an install record for each of some agents.
pub open spec fn with_records(
    rows: Seq<RowView>,
    names: Seq<Seq<char>>,
    skill: Seq<char>,
    meta: InstallMetaView,
    pack: Option<Seq<char>>,
    scope: ConfigScopeView,
) -> Seq<RowView>
    decreases names.len(),
{
    if names.len() == 0 {
        rows
    } else {
        with_record(
            with_records(rows, names.drop_last(), skill, meta, pack, scope),
            ids::scoped_id(skill, "skill"@, names.last(), scope),
            meta,
            pack,
        )
    }
}

/// The view of an optional text.
pub open spec fn ostr_ref(o: Option<&str>) -> Option<Seq<char>> {
    match o {
        Some(s) => Some(s@),
        None => None,
    }
}

fn write_record(
    store: &mut Store,
    agent: &str,
    skill: &str,
    meta: &InstallMeta,
    pack: Option<&str>,
    scope: &ConfigScope,
)
    ensures
        final(store)@ == (StoreView {
            rows: with_record(
                old(store)@.rows,
                ids::scoped_id(skill@, "skill"@, agent@, scope@),
                meta@,
                ostr_ref(pack),
            ),
            ..old(store)@
        }),
{
    let id = ids::stable_id_with_scope_for(skill, "skill", agent, scope);
    store.set_install_meta(&id, meta);
    if let Some(p) = pack {
        store.update_pack(&id, Some(p));
    }
}

fn write_records(
    store: &mut Store,
    names: &Vec<String>,
    skill: &str,
    meta: &InstallMeta,
    pack: Option<&str>,
    scope: &ConfigScope,
)
    ensures
        final(store)@ == (StoreView {
            rows: with_records(
                old(store)@.rows,
                text::strs(names@),
                skill@,
                meta@,
                ostr_ref(pack),
                scope@,
            ),
            ..old(store)@
        }),
{
    let ghost v = text::strs(names@);
    let mut i: usize = 0;
    assert(v.take(0) =~= Seq::<Seq<char>>::empty());
    while i < names.len()
        invariant
            v == text::strs(names@),
            i <= names.len(),
            store@ == (StoreView {
                rows: with_records(
                    old(store)@.rows,
                    v.take(i as int),
                    skill@,
                    meta@,
                    ostr_ref(pack),
                    scope@,
                ),
                ..old(store)@
            }),
        decreases names.len() - i,
    {
        assert(v.take(i + 1).drop_last() =~= v.take(i as int));
        assert(v.take(i + 1).last() == names@[i as int]@);
        write_record(store, &names[i], skill, meta, pack, scope);
        i += 1;
    }
    assert(v.take(i as int) =~= v);
}

fn scan_targets(
    store: &mut Store,
    fs: &FileTree,
    agents: &Vec<Agent>,
    names: &Vec<String>,
    scope: &ConfigScope,
    now: Timestamp,
) -> (r: Vec<Extension>)
    ensures
        (final(store)@, models::list_view(r@)) == targets_scanned(
            old(store)@,
            fs@,
            models::list_view(agents@),
            text::strs(names@),
            scope@,
            now,
        ),
{
    let ghost v = models::list_view(agents@);
    let mut found = skills::no_exts();
    let mut i: usize = 0;
    assert(v.take(0) =~= Seq::<AgentView>::empty());
    while i < agents.len()
        invariant
            v == models::list_view(agents@),
            i <= agents.len(),
            (store@, models::list_view(found@)) == targets_scanned(
                old(store)@,
                fs@,
                v.take(i as int),
                text::strs(names@),
                scope@,
                now,
            ),
        decreases agents.len() - i,
    {
        assert(v.take(i + 1).drop_last() =~= v.take(i as int));
        assert(v.take(i + 1).last() == agents@[i as int]@);
        if text::list_has(names, &agents[i].name) {
            scan_and_store(store, &mut found, fs, &agents[i], scope, now);
        }
        i += 1;
    }
    assert(v.take(i as int) =~= v);
    found
}

// ---------------------------------------------------------------------------
// The agents that share the directory
// ---------------------------------------------------------------------------

/// The first agent with a name.
pub open spec fn agent_named(agents: Seq<AgentView>, name: Seq<char>) -> Option<AgentView>
    decreases agents.len(),
{
    if agents.len() == 0 {
        None
    } else if agents[0].name == name {
        Some(agents[0])
    } else {
        agent_named(agents.drop_first(), name)
    }
}

/// The position of the first agent with a name.
pub fn find_agent(agents: &Vec<Agent>, name: &str) -> (r: Option<usize>)
    ensures
        agent_named(models::list_view(agents@), name@) == (match r {
            Some(i) => Some(agents@[i as int]@),
            None => None,
        }),
        r matches Some(i) ==> i < agents.len(),
{
    let ghost v = models::list_view(agents@);
    let mut i: usize = 0;
    assert(v.skip(0) =~= v);
    while i < agents.len()
        invariant
            v == models::list_view(agents@),
            i <= agents.len(),
            agent_named(v.skip(i as int), name@) == agent_named(v, name@),
        decreases agents.len() - i,
    {
        assert(v.skip(i as int)[0] == agents@[i as int]@);
        assert(v.skip(i as int).drop_first() =~= v.skip(i + 1));
        if text::str_eq(&agents[i].name, name) {
            return Some(i);
        }
        i += 1;
    }
    None
}

/// The directory that a skill was installed to: that of the first of the agents.
pub open spec fn install_dir(
    agents: Seq<AgentView>,
    names: Seq<Seq<char>>,
    scope: ConfigScopeView,
) -> Option<Seq<char>> {
    if names.len() == 0 {
        None
    } else {
        match agent_named(agents, names[0]) {
            None => None,
            Some(a) => a.skill_dir_in(scope),
        }
    }
}

fn find_install_dir(agents: &Vec<Agent>, names: &Vec<String>, scope: &ConfigScope) -> (r: Option<
    String,
>)
    ensures
        text::ostr(r) == install_dir(models::list_view(agents@), text::strs(names@), scope@),
{
    if names.len() == 0 {
        return None;
    }
    match find_agent(agents, &names[0]) {
        None => None,
        Some(i) => agents[i].skill_dir_for(scope),
    }
}

/// Whether an agent got the skill without being asked for: it is installed, and it
/// loads skills from the directory that the skill was installed to.
pub open spec fn is_sibling(
    fs: FileTreeView,
    agent: AgentView,
    names: Seq<Seq<char>>,
    dir: Seq<char>,
    scope: ConfigScopeView,
) -> bool {
    !names.contains(agent.name) && agent.detected && scans_dir(fs, agent, dir, scope)
}

/// A store and what was found, after a sibling was scanned and its install record
/// was written.
pub open spec fn after_sibling(
    before: (StoreView, Seq<ExtensionView>),
    fs: FileTreeView,
    agent: AgentView,
    skill: Seq<char>,
    meta: InstallMetaView,
    pack: Option<Seq<char>>,
    scope: ConfigScopeView,
    now: Timestamp,
) -> (StoreView, Seq<ExtensionView>) {
    let a = after_scan(before, fs, agent, scope, now);
    let id = ids::scoped_id(skill, "skill"@, agent.name, scope);
    (StoreView { rows: with_record(a.0.rows, id, meta, pack), ..a.0 }, a.1)
}

/// A store and what was found, after all siblings were scanned and their install
/// records were written.
pub open spec fn siblings_marked(
    before: (StoreView, Seq<ExtensionView>),
    fs: FileTreeView,
    agents: Seq<AgentView>,
    names: Seq<Seq<char>>,
    dir: Seq<char>,
    skill: Seq<char>,
    meta: InstallMetaView,
    pack: Option<Seq<char>>,
    scope: ConfigScopeView,
    now: Timestamp,
) -> (StoreView, Seq<ExtensionView>)
    decreases agents.len(),
{
    if agents.len() == 0 {
        before
    } else {
        let a = siblings_marked(
            before,
            fs,
            agents.drop_last(),
            names,
            dir,
            skill,
            meta,
            pack,
            scope,
            now,
        );
        if is_sibling(fs, agents.last(), names, dir, scope) {
            after_sibling(a, fs, agents.last(), skill, meta, pack, scope, now)
        } else {
            a
        }
    }
}

fn mark_siblings(
    store: &mut Store,
    found: &mut Vec<Extension>,
    fs: &FileTree,
    agents: &Vec<Agent>,
    names: &Vec<String>,
    dir: &str,
    skill: &str,
    meta: &InstallMeta,
    pack: Option<&str>,
    scope: &ConfigScope,
    now: Timestamp,
)
    ensures
        (final(store)@, models::list_view(final(found)@)) == siblings_marked(
            (old(store)@, models::list_view(old(found)@)),
            fs@,
            models::list_view(agents@),
            text::strs(names@),
            dir@,
            skill@,
            meta@,
            ostr_ref(pack),
            scope@,
            now,
        ),
{
    let ghost v = models::list_view(agents@);
    let ghost start = (store@, models::list_view(found@));
    let mut i: usize = 0;
    assert(v.take(0) =~= Seq::<AgentView>::empty());
    while i < agents.len()
        invariant
            v == models::list_view(agents@),
            i <= agents.len(),
            (store@, models::list_view(found@)) == siblings_marked(
                start,
                fs@,
                v.take(i as int),
                text::strs(names@),
                dir@,
                skill@,
                meta@,
                ostr_ref(pack),
                scope@,
                now,
            ),
        decreases agents.len() - i,
    {
        assert(v.take(i + 1).drop_last() =~= v.take(i as int));
        assert(v.take(i + 1).last() == agents@[i as int]@);
        if !text::list_has(names, &agents[i].name) && agents[i].detected && adapter_scans_dir(
            fs,
            &agents[i],
            dir,
            scope,
        ) {
            scan_and_store(store, found, fs, &agents[i], scope, now);
            write_record(store, &agents[i].name, skill, meta, pack, scope);
        }
        i += 1;
    }
    assert(v.take(i as int) =~= v);
}

// ---------------------------------------------------------------------------
// The whole
// ---------------------------------------------------------------------------

/// The outcome of an installation before the audit: the store and what was found.
/// Where the directory of the installation cannot be told, no agents share it.
pub open spec fn installed(
    s: StoreView,
    fs: FileTreeView,
    agents: Seq<AgentView>,
    names: Seq<Seq<char>>,
    skill: Seq<char>,
    meta: Option<InstallMetaView>,
    pack: Option<Seq<char>>,
    scope: ConfigScopeView,
    now: Timestamp,
) -> (StoreView, Seq<ExtensionView>) {
    let a = targets_scanned(s, fs, agents, names, scope, now);
    match meta {
        None => a,
        Some(m) => {
            let marked = StoreView {
                rows: with_records(a.0.rows, names, skill, m, pack, scope),
                ..a.0
            };
            match install_dir(agents, names, scope) {
                None => (marked, a.1),
                Some(dir) => siblings_marked(
                    (marked, a.1),
                    fs,
                    agents,
                    names,
                    dir,
                    skill,
                    m,
                    pack,
                    scope,
                    now,
                ),
            }
        },
    }
}

/// Whether a store is what an installation leaves behind, with the results of the
/// audit that a judge gave.
pub open spec fn install_recorded<A: Fn(AuditInput) -> AuditResult>(
    judge: A,
    fs: FileTreeView,
    agents: Seq<AgentView>,
    skill: Seq<char>,
    outcome: (StoreView, Seq<ExtensionView>),
    after: StoreView,
) -> bool {
    exists|results: Seq<AuditResult>|
        #![trigger models::list_view(results)]
        audit::are_answers(judge, audit::named_inputs(fs, agents, outcome.1, skill), results)
            && after == audit::with_results(outcome.0, models::list_view(results))
}

/// What follows the installation of a skill to some agents: scans them, writes the
/// install record and the pack, does the same for the agents that load skills from
/// the same directory, and audits the skill. `judge` audits one extension.
pub fn post_install_sync<A: Fn(AuditInput) -> AuditResult>(
    store: &mut Store,
    fs: &FileTree,
    agents: &Vec<Agent>,
    agent_names: &Vec<String>,
    skill_name: &str,
    install_meta: &Option<InstallMeta>,
    pack: Option<&str>,
    target_scope: &ConfigScope,
    now: Timestamp,
    judge: A,
) -> (r: Vec<Extension>)
    requires
        forall|x: AuditInput|
            audit::named_inputs(
                fs@,
                models::list_view(agents@),
                installed(
                    old(store)@,
                    fs@,
                    models::list_view(agents@),
                    text::strs(agent_names@),
                    skill_name@,
                    models::opt_view(*install_meta),
                    ostr_ref(pack),
                    target_scope@,
                    now,
                ).1,
                skill_name@,
            ).contains(x@) ==> #[trigger] call_requires(judge, (x,)),
    ensures
        ({
            let outcome = installed(
                old(store)@,
                fs@,
                models::list_view(agents@),
                text::strs(agent_names@),
                skill_name@,
                models::opt_view(*install_meta),
                ostr_ref(pack),
                target_scope@,
                now,
            );
            &&& models::list_view(r@) == outcome.1
            &&& install_recorded(
                judge,
                fs@,
                models::list_view(agents@),
                skill_name@,
                outcome,
                final(store)@,
            )
        }),
{
    let mut extensions = scan_targets(store, fs, agents, agent_names, target_scope, now);
    if let Some(meta) = install_meta {
        write_records(store, agent_names, skill_name, meta, pack, target_scope);
        if let Some(dir) = find_install_dir(agents, agent_names, target_scope) {
            mark_siblings(
                store,
                &mut extensions,
                fs,
                agents,
                agent_names,
                &dir,
                skill_name,
                meta,
                pack,
                target_scope,
                now,
            );
        }
    }
    let ghost before = store@;
    let results = audit::audit_extension_by_name(skill_name, &extensions, fs, agents, judge);
    audit::record_results(store, &results);
    assert(store@ == audit::with_results(before, models::list_view(results@)));
    extensions
}

// ---------------------------------------------------------------------------
// Laws
// ---------------------------------------------------------------------------

/// Whether each row of `a` is still there in `b`, under its identifier, with the
/// install record that it had; or with `meta`, if its identifier is in `marked`.
pub open spec fn rows_stay(
    a: Seq<RowView>,
    b: Seq<RowView>,
    meta: InstallMetaView,
    marked: Set<Seq<char>>,
) -> bool {
    a.len() <= b.len() && forall|i: int|
        0 <= i < a.len() ==> (#[trigger] b[i]).ext.id == a[i].ext.id && (b[i].ext.install_meta
            == a[i].ext.install_meta || (marked.contains(a[i].ext.id) && b[i].ext.install_meta
            == Some(meta)))
}

/// The identifiers of a skill, for the agents that it is installed to and for those
/// that load skills from the same directory.
pub open spec fn marked_ids(
    fs: FileTreeView,
    agents: Seq<AgentView>,
    names: Seq<Seq<char>>,
    skill: Seq<char>,
    scope: ConfigScopeView,
) -> Set<Seq<char>> {
    Set::new(
        |id: Seq<char>|
            is_target_id(names, skill, scope, id) || (install_dir(agents, names, scope) is Some
                && is_sibling_id(
                fs,
                agents,
                names,
                install_dir(agents, names, scope)->0,
                skill,
                scope,
                id,
            )),
    )
}

/// Whether an identifier is that of a skill for one of the agents with these names.
pub open spec fn is_target_id(
    names: Seq<Seq<char>>,
    skill: Seq<char>,
    scope: ConfigScopeView,
    id: Seq<char>,
) -> bool {
    exists|k: int|
        0 <= k < names.len() && id == ids::scoped_id(skill, "skill"@, #[trigger] names[k], scope)
}

/// Whether an identifier is that of a skill for an agent that shares a directory with
/// those of the installation.
pub open spec fn is_sibling_id(
    fs: FileTreeView,
    agents: Seq<AgentView>,
    names: Seq<Seq<char>>,
    dir: Seq<char>,
    skill: Seq<char>,
    scope: ConfigScopeView,
    id: Seq<char>,
) -> bool {
    exists|k: int|
        0 <= k < agents.len() && is_sibling(fs, #[trigger] agents[k], names, dir, scope) && id
            == ids::scoped_id(skill, "skill"@, agents[k].name, scope)
}

proof fn lemma_inserted_stay(
    rows: Seq<RowView>,
    exts: Seq<ExtensionView>,
    meta: InstallMetaView,
    marked: Set<Seq<char>>,
)
    ensures
        rows_stay(rows, all_inserted(rows, exts), meta, marked),
    decreases exts.len(),
{
    if exts.len() > 0 {
        lemma_inserted_stay(rows, exts.drop_last(), meta, marked);
        let a = all_inserted(rows, exts.drop_last());
        let b = all_inserted(rows, exts);
        assert forall|i: int| 0 <= i < rows.len() implies (#[trigger] b[i]).ext.id
            == rows[i].ext.id && (b[i].ext.install_meta == rows[i].ext.install_meta || (
        marked.contains(rows[i].ext.id) && b[i].ext.install_meta == Some(meta))) by {
            assert(a[i].ext.id == rows[i].ext.id);
        }
    }
}

proof fn lemma_stay_trans(
    a: Seq<RowView>,
    b: Seq<RowView>,
    c: Seq<RowView>,
    meta: InstallMetaView,
    marked: Set<Seq<char>>,
)
    requires
        rows_stay(a, b, meta, marked),
        rows_stay(b, c, meta, marked),
    ensures
        rows_stay(a, c, meta, marked),
{
    assert forall|i: int| 0 <= i < a.len() implies (#[trigger] c[i]).ext.id == a[i].ext.id && (
    c[i].ext.install_meta == a[i].ext.install_meta || (marked.contains(a[i].ext.id)
        && c[i].ext.install_meta == Some(meta))) by {
        assert(b[i].ext.id == a[i].ext.id);
    }
}

proof fn lemma_record_stays(
    rows: Seq<RowView>,
    id: Seq<char>,
    meta: InstallMetaView,
    pack: Option<Seq<char>>,
    marked: Set<Seq<char>>,
)
    requires
        marked.contains(id),
    ensures
        rows_stay(rows, with_record(rows, id, meta, pack), meta, marked),
        with_record(rows, id, meta, pack).len() == rows.len(),
        forall|i: int|
            0 <= i < rows.len() && rows[i].ext.id == id ==> (#[trigger] with_record(
                rows,
                id,
                meta,
                pack,
            )[i]).ext.install_meta == Some(meta),
{
}

proof fn lemma_records_stay(
    rows: Seq<RowView>,
    names: Seq<Seq<char>>,
    skill: Seq<char>,
    meta: InstallMetaView,
    pack: Option<Seq<char>>,
    scope: ConfigScopeView,
    marked: Set<Seq<char>>,
)
    requires
        forall|k: int|
            0 <= k < names.len() ==> marked.contains(
                ids::scoped_id(skill, "skill"@, #[trigger] names[k], scope),
            ),
    ensures
        rows_stay(rows, with_records(rows, names, skill, meta, pack, scope), meta, marked),
        with_records(rows, names, skill, meta, pack, scope).len() == rows.len(),
    decreases names.len(),
{
    if names.len() > 0 {
        let t = names.drop_last();
        let a = with_records(rows, t, skill, meta, pack, scope);
        assert forall|k: int| 0 <= k < t.len() implies marked.contains(
            ids::scoped_id(skill, "skill"@, #[trigger] t[k], scope),
        ) by {
            assert(t[k] == names[k]);
        }
        lemma_records_stay(rows, t, skill, meta, pack, scope, marked);
        let id = ids::scoped_id(skill, "skill"@, names[names.len() - 1], scope);
        lemma_record_stays(a, id, meta, pack, marked);
        lemma_stay_trans(rows, a, with_record(a, id, meta, pack), meta, marked);
    }
}

/// Once the records are written, the skill has the install record, and the pack if one
/// is given, for each of the agents that it was installed to.
pub proof fn targets_get_the_record(
    rows: Seq<RowView>,
    names: Seq<Seq<char>>,
    skill: Seq<char>,
    meta: InstallMetaView,
    pack: Option<Seq<char>>,
    scope: ConfigScopeView,
    k: int,
    i: int,
)
    requires
        0 <= k < names.len(),
        0 <= i < rows.len(),
        rows[i].ext.id == ids::scoped_id(skill, "skill"@, names[k], scope),
    ensures
        with_records(rows, names, skill, meta, pack, scope).len() == rows.len(),
        with_records(rows, names, skill, meta, pack, scope)[i].ext.install_meta == Some(meta),
        pack is Some ==> with_records(rows, names, skill, meta, pack, scope)[i].ext.pack == pack,
    decreases names.len(),
{
    let t = names.drop_last();
    let a = with_records(rows, t, skill, meta, pack, scope);
    let id = ids::scoped_id(skill, "skill"@, names.last(), scope);
    let all = Set::new(|id: Seq<char>| true);
    lemma_records_stay(rows, t, skill, meta, pack, scope, all);
    lemma_record_stays(a, id, meta, pack, all);
    assert(a[i].ext.id == rows[i].ext.id);
    assert(with_record(a, id, meta, pack)[i].ext.id == a[i].ext.id);
    if k < t.len() {
        assert(t[k] == names[k]);
        targets_get_the_record(rows, t, skill, meta, pack, scope, k, i);
    }
}

proof fn lemma_targets_stay(
    s: StoreView,
    fs: FileTreeView,
    agents: Seq<AgentView>,
    names: Seq<Seq<char>>,
    scope: ConfigScopeView,
    now: Timestamp,
    meta: InstallMetaView,
    marked: Set<Seq<char>>,
)
    requires
        scope is Project,
    ensures
        rows_stay(s.rows, targets_scanned(s, fs, agents, names, scope, now).0.rows, meta, marked),
    decreases agents.len(),
{
    if agents.len() > 0 {
        let t = agents.drop_last();
        let a = targets_scanned(s, fs, t, names, scope, now);
        lemma_targets_stay(s, fs, t, names, scope, now, meta, marked);
        if names.contains(agents.last().name) {
            let exts = scope_exts(fs, agents.last(), scope, now);
            lemma_inserted_stay(a.0.rows, exts, meta, marked);
            lemma_stay_trans(s.rows, a.0.rows, all_inserted(a.0.rows, exts), meta, marked);
        }
    }
}

proof fn lemma_siblings_stay(
    before: (StoreView, Seq<ExtensionView>),
    fs: FileTreeView,
    agents: Seq<AgentView>,
    names: Seq<Seq<char>>,
    dir: Seq<char>,
    skill: Seq<char>,
    meta: InstallMetaView,
    pack: Option<Seq<char>>,
    scope: ConfigScopeView,
    now: Timestamp,
    from: int,
    marked: Set<Seq<char>>,
)
    requires
        scope is Project,
        0 <= from <= agents.len(),
        forall|k: int|
            0 <= k < agents.len() && is_sibling(fs, #[trigger] agents[k], names, dir, scope)
                ==> marked.contains(ids::scoped_id(skill, "skill"@, agents[k].name, scope)),
    ensures
        rows_stay(
            siblings_marked(
                before,
                fs,
                agents.take(from),
                names,
                dir,
                skill,
                meta,
                pack,
                scope,
                now,
            ).0.rows,
            siblings_marked(
                before,
                fs,
                agents,
                names,
                dir,
                skill,
                meta,
                pack,
                scope,
                now,
            ).0.rows,
            meta,
            marked,
        ),
    decreases agents.len(),
{
    let early = siblings_marked(
        before,
        fs,
        agents.take(from),
        names,
        dir,
        skill,
        meta,
        pack,
        scope,
        now,
    );
    if from == agents.len() {
        assert(agents.take(from) =~= agents);
    } else {
        let t = agents.drop_last();
        assert(t.take(from) =~= agents.take(from));
        assert forall|k: int|
            0 <= k < t.len() && is_sibling(fs, #[trigger] t[k], names, dir, scope) implies
            marked.contains(ids::scoped_id(skill, "skill"@, t[k].name, scope)) by {
            assert(t[k] == agents[k]);
        }
        lemma_siblings_stay(
            before,
            fs,
            t,
            names,
            dir,
            skill,
            meta,
            pack,
            scope,
            now,
            from,
            marked,
        );
        let a = siblings_marked(before, fs, t, names, dir, skill, meta, pack, scope, now);
        let last = agents[agents.len() - 1];
        if is_sibling(fs, last, names, dir, scope) {
            let exts = scope_exts(fs, last, scope, now);
            let b = all_inserted(a.0.rows, exts);
            let id = ids::scoped_id(skill, "skill"@, last.name, scope);
            lemma_inserted_stay(a.0.rows, exts, meta, marked);
            lemma_record_stays(b, id, meta, pack, marked);
            lemma_stay_trans(a.0.rows, b, with_record(b, id, meta, pack), meta, marked);
            lemma_stay_trans(
                early.0.rows,
                a.0.rows,
                with_record(b, id, meta, pack),
                meta,
                marked,
            );
        }
    }
}

/// An installation into a project removes no extension and changes no install
/// record, but for the copies of the skill in the project: those of the agents that it
/// is installed to, and of the agents that load skills from the same directory.
pub proof fn project_install_removes_nothing(
    s: StoreView,
    fs: FileTreeView,
    agents: Seq<AgentView>,
    names: Seq<Seq<char>>,
    skill: Seq<char>,
    meta: InstallMetaView,
    pack: Option<Seq<char>>,
    scope: ConfigScopeView,
    now: Timestamp,
)
    requires
        scope is Project,
    ensures
        rows_stay(
            s.rows,
            installed(s, fs, agents, names, skill, Some(meta), pack, scope, now).0.rows,
            meta,
            marked_ids(fs, agents, names, skill, scope),
        ),
        rows_stay(
            s.rows,
            installed(s, fs, agents, names, skill, None, pack, scope, now).0.rows,
            meta,
            Set::empty(),
        ),
        forall|id: Seq<char>|
            store::has_id(s.rows, id) ==> #[trigger] store::has_id(
                installed(s, fs, agents, names, skill, Some(meta), pack, scope, now).0.rows,
                id,
            ),
        forall|id: Seq<char>|
            store::has_id(s.rows, id) ==> #[trigger] store::has_id(
                installed(s, fs, agents, names, skill, None, pack, scope, now).0.rows,
                id,
            ),
{
    let a = targets_scanned(s, fs, agents, names, scope, now);
    let marked = marked_ids(fs, agents, names, skill, scope);
    lemma_targets_stay(s, fs, agents, names, scope, now, meta, marked);
    lemma_targets_stay(s, fs, agents, names, scope, now, meta, Set::empty());
    let rows = with_records(a.0.rows, names, skill, meta, pack, scope);
    assert forall|k: int| 0 <= k < names.len() implies marked.contains(
        ids::scoped_id(skill, "skill"@, #[trigger] names[k], scope),
    ) by {
        assert(is_target_id(
            names,
            skill,
            scope,
            ids::scoped_id(skill, "skill"@, names[k], scope),
        ));
    }
    lemma_records_stay(a.0.rows, names, skill, meta, pack, scope, marked);
    lemma_stay_trans(s.rows, a.0.rows, rows, meta, marked);
    if let Some(dir) = install_dir(agents, names, scope) {
        let before = (StoreView { rows, ..a.0 }, a.1);
        assert forall|k: int|
            0 <= k < agents.len() && is_sibling(fs, #[trigger] agents[k], names, dir, scope) implies
            marked.contains(ids::scoped_id(skill, "skill"@, agents[k].name, scope)) by {
            let id = ids::scoped_id(skill, "skill"@, agents[k].name, scope);
            assert(is_sibling_id(fs, agents, names, dir, skill, scope, id));
        }
        lemma_siblings_stay(
            before,
            fs,
            agents,
            names,
            dir,
            skill,
            meta,
            pack,
            scope,
            now,
            0,
            marked,
        );
        assert(agents.take(0) =~= Seq::<AgentView>::empty());
        let b = siblings_marked(before, fs, agents, names, dir, skill, meta, pack, scope, now);
        lemma_stay_trans(s.rows, rows, b.0.rows, meta, marked);
    }
    lemma_ids_stay(
        s.rows,
        installed(s, fs, agents, names, skill, Some(meta), pack, scope, now).0.rows,
        meta,
        marked,
    );
    lemma_ids_stay(
        s.rows,
        installed(s, fs, agents, names, skill, None, pack, scope, now).0.rows,
        meta,
        Set::empty(),
    );
}

proof fn lemma_ids_stay(
    a: Seq<RowView>,
    b: Seq<RowView>,
    meta: InstallMetaView,
    marked: Set<Seq<char>>,
)
    requires
        rows_stay(a, b, meta, marked),
    ensures
        forall|id: Seq<char>| store::has_id(a, id) ==> #[trigger] store::has_id(b, id),
{
    assert forall|id: Seq<char>| store::has_id(a, id) implies #[trigger] store::has_id(b, id) by {
        let i = choose|i: int| 0 <= i < a.len() && (#[trigger] a[i]).ext.id == id;
        assert(b[i].ext.id == id);
    }
}

proof fn lemma_inserted_pack_stays(rows: Seq<RowView>, exts: Seq<ExtensionView>, i: int)
    requires
        0 <= i < rows.len(),
        rows[i].ext.pack is Some,
    ensures
        rows.len() <= all_inserted(rows, exts).len(),
        all_inserted(rows, exts)[i].ext.pack == rows[i].ext.pack,
    decreases exts.len(),
{
    if exts.len() > 0 {
        lemma_inserted_pack_stays(rows, exts.drop_last(), i);
    }
}

proof fn lemma_pack_stays(
    before: (StoreView, Seq<ExtensionView>),
    fs: FileTreeView,
    agents: Seq<AgentView>,
    names: Seq<Seq<char>>,
    dir: Seq<char>,
    skill: Seq<char>,
    meta: InstallMetaView,
    pack: Option<Seq<char>>,
    scope: ConfigScopeView,
    now: Timestamp,
    from: int,
    i: int,
)
    requires
        scope is Project,
        pack is Some,
        0 <= from <= agents.len(),
        ({
            let early = siblings_marked(
                before,
                fs,
                agents.take(from),
                names,
                dir,
                skill,
                meta,
                pack,
                scope,
                now,
            ).0.rows;
            0 <= i < early.len() && early[i].ext.pack == pack
        }),
    ensures
        ({
            let last = siblings_marked(
                before,
                fs,
                agents,
                names,
                dir,
                skill,
                meta,
                pack,
                scope,
                now,
            ).0.rows;
            i < last.len() && last[i].ext.pack == pack
        }),
    decreases agents.len(),
{
    if from == agents.len() {
        assert(agents.take(from) =~= agents);
    } else {
        let t = agents.drop_last();
        assert(t.take(from) =~= agents.take(from));
        lemma_pack_stays(before, fs, t, names, dir, skill, meta, pack, scope, now, from, i);
        let a = siblings_marked(before, fs, t, names, dir, skill, meta, pack, scope, now);
        lemma_inserted_pack_stays(a.0.rows, scope_exts(fs, agents.last(), scope, now), i);
    }
}

/// In a project, every agent that loads skills from the directory of the
/// installation ends up with the install record, and with the pack if one is given:
/// each row that its scan left under the identifier of the skill has them at the end.
pub proof fn sharing_agents_get_the_record(
    before: (StoreView, Seq<ExtensionView>),
    fs: FileTreeView,
    agents: Seq<AgentView>,
    names: Seq<Seq<char>>,
    dir: Seq<char>,
    skill: Seq<char>,
    meta: InstallMetaView,
    pack: Option<Seq<char>>,
    scope: ConfigScopeView,
    now: Timestamp,
    k: int,
    i: int,
)
    requires
        scope is Project,
        0 <= k < agents.len(),
        is_sibling(fs, agents[k], names, dir, scope),
        ({
            let scanned = after_scan(
                siblings_marked(
                    before,
                    fs,
                    agents.take(k),
                    names,
                    dir,
                    skill,
                    meta,
                    pack,
                    scope,
                    now,
                ),
                fs,
                agents[k],
                scope,
                now,
            ).0.rows;
            0 <= i < scanned.len() && scanned[i].ext.id == ids::scoped_id(
                skill,
                "skill"@,
                agents[k].name,
                scope,
            )
        }),
    ensures
        ({
            let last = siblings_marked(
                before,
                fs,
                agents,
                names,
                dir,
                skill,
                meta,
                pack,
                scope,
                now,
            ).0.rows;
            &&& i < last.len()
            &&& last[i].ext.install_meta == Some(meta)
            &&& pack is Some ==> last[i].ext.pack == pack
        }),
{
    let t = agents.take(k + 1);
    assert(t.drop_last() =~= agents.take(k));
    assert(t.last() == agents[k]);
    let a = siblings_marked(
        before,
        fs,
        agents.take(k),
        names,
        dir,
        skill,
        meta,
        pack,
        scope,
        now,
    );
    let b = after_scan(a, fs, agents[k], scope, now).0.rows;
    let id = ids::scoped_id(skill, "skill"@, agents[k].name, scope);
    let all = Set::new(|id: Seq<char>| true);
    lemma_record_stays(b, id, meta, pack, all);
    let mid = siblings_marked(before, fs, t, names, dir, skill, meta, pack, scope, now).0.rows;
    assert(mid == with_record(b, id, meta, pack));
    assert(mid[i].ext.install_meta == Some(meta));
    lemma_siblings_stay(
        before,
        fs,
        agents,
        names,
        dir,
        skill,
        meta,
        pack,
        scope,
        now,
        k + 1,
        all,
    );
    let last = siblings_marked(
        before,
        fs,
        agents,
        names,
        dir,
        skill,
        meta,
        pack,
        scope,
        now,
    ).0.rows;
    assert(last[i].ext.id == mid[i].ext.id);
    if pack is Some {
        lemma_pack_stays(
            before,
            fs,
            agents,
            names,
            dir,
            skill,
            meta,
            pack,
            scope,
            now,
            k + 1,
            i,
        );
    }
}

/// Whether an extension belongs to one agent, and no manifest names another
/// repository for it than an install record does.
pub open spec fn fits_record(e: ExtensionView, agent: Seq<char>, meta: InstallMetaView) -> bool {
    e.agents == seq![agent] && !sync::is_outdated(
        ExtensionView { install_meta: Some(meta), ..e },
        sync::lower_pack(e.source.url),
        sync::lower_pack(meta.url),
    )
}

/// Whether an extension has an install record that fits it, and the pack that goes with
/// it if there is one.
pub open spec fn is_recorded(
    e: ExtensionView,
    agent: Seq<char>,
    meta: InstallMetaView,
    pack: Option<Seq<char>>,
) -> bool {
    &&& e.install_meta == Some(meta)
    &&& pack is Some ==> e.pack == pack
    &&& fits_record(e, agent, meta)
}

/// Whether an extension of an agent is known under an identifier, with an install
/// record that fits it, and with the pack that goes with it if there is one.
pub open spec fn holds_record(
    rows: Seq<RowView>,
    id: Seq<char>,
    agent: Seq<char>,
    meta: InstallMetaView,
    pack: Option<Seq<char>>,
) -> bool {
    store::has_id(rows, id) && forall|i: int|
        0 <= i < rows.len() && (#[trigger] rows[i]).ext.id == id ==> is_recorded(
            rows[i].ext,
            agent,
            meta,
            pack,
        )
}

/// Whether the scan of an agent has nothing to do with an extension: it is the scan
/// of another agent, and it does not see the identifier.
pub open spec fn is_apart(
    fs: FileTreeView,
    scanned: AgentView,
    scope: ConfigScopeView,
    now: Timestamp,
    id: Seq<char>,
    agent: Seq<char>,
) -> bool {
    scanned.name != agent && !sync::ids_of(scope_exts(fs, scanned, scope, now)).contains(id)
}

proof fn lemma_upsert_keeps(
    rows: Seq<RowView>,
    e: ExtensionView,
    keep: bool,
    id: Seq<char>,
    agent: Seq<char>,
    meta: InstallMetaView,
    pack: Option<Seq<char>>,
)
    requires
        holds_record(rows, id, agent, meta, pack),
        e.id != id,
    ensures
        holds_record(store::upserted(rows, e, keep), id, agent, meta, pack),
{
    let r = store::upserted(rows, e, keep);
    let k = choose|k: int| 0 <= k < rows.len() && (#[trigger] rows[k]).ext.id == id;
    assert(r[k].ext.id == id);
    assert forall|i: int| 0 <= i < r.len() && (#[trigger] r[i]).ext.id == id implies r[i]
        == rows[i] && i < rows.len() by {}
}

proof fn lemma_upserts_keep(
    rows: Seq<RowView>,
    seen: Seq<ExtensionView>,
    id: Seq<char>,
    agent: Seq<char>,
    meta: InstallMetaView,
    pack: Option<Seq<char>>,
)
    requires
        holds_record(rows, id, agent, meta, pack),
        !sync::ids_of(seen).contains(id),
    ensures
        holds_record(sync::all_upserted(rows, seen), id, agent, meta, pack),
        holds_record(all_inserted(rows, seen), id, agent, meta, pack),
    decreases seen.len(),
{
    if seen.len() > 0 {
        let t = seen.drop_last();
        assert(sync::ids_of(seen)[seen.len() - 1] == seen.last().id);
        assert forall|i: int| 0 <= i < sync::ids_of(t).len() implies sync::ids_of(t)[i] != id by {
            assert(sync::ids_of(seen)[i] == sync::ids_of(t)[i]);
        }
        lemma_upserts_keep(rows, t, id, agent, meta, pack);
        lemma_upsert_keeps(sync::all_upserted(rows, t), seen.last(), false, id, agent, meta, pack);
        lemma_upsert_keeps(all_inserted(rows, t), seen.last(), true, id, agent, meta, pack);
    }
}

proof fn lemma_without_keeps(rows: Seq<RowView>, other: Seq<char>, id: Seq<char>)
    requires
        other != id,
    ensures
        store::has_id(store::without_id(rows, other), id) == store::has_id(rows, id),
        forall|i: int|
            0 <= i < store::without_id(rows, other).len() ==> rows.contains(
                #[trigger] store::without_id(rows, other)[i],
            ),
    decreases rows.len(),
{
    store::laws::known_rows_are_found(rows, id);
    store::laws::known_rows_are_found(store::without_id(rows, other), id);
    store::laws::removed_extension_is_gone(
        StoreView {
            rows,
            projects: Seq::empty(),
            audits: Seq::empty(),
        },
        other,
        id,
    );
    if rows.len() > 0 {
        let t = rows.drop_last();
        lemma_without_keeps(t, other, id);
        let r = store::without_id(rows, other);
        let q = store::without_id(t, other);
        assert forall|i: int| 0 <= i < r.len() implies rows.contains(#[trigger] r[i]) by {
            if i < q.len() {
                assert(t.contains(q[i]));
                let k = choose|k: int| 0 <= k < t.len() && t[k] == q[i];
                assert(rows[k] == r[i]);
            } else {
                assert(rows[rows.len() - 1] == r[i]);
            }
        }
    }
}

proof fn lemma_pruning_keeps(
    s: StoreView,
    fs: FileTreeView,
    rows: Seq<RowView>,
    scanned: Seq<char>,
    seen: Seq<Seq<char>>,
    id: Seq<char>,
    agent: Seq<char>,
    meta: InstallMetaView,
    pack: Option<Seq<char>>,
)
    requires
        holds_record(s.rows, id, agent, meta, pack),
        forall|i: int|
            0 <= i < rows.len() && (#[trigger] rows[i]).ext.id == id ==> rows[i].ext.agents
                == seq![agent],
        scanned != agent,
    ensures
        holds_record(sync::pruned(s, fs, rows, scanned, seen).rows, id, agent, meta, pack),
    decreases rows.len(),
{
    if rows.len() > 0 {
        let t = rows.drop_last();
        lemma_pruning_keeps(s, fs, t, scanned, seen, id, agent, meta, pack);
        let b = sync::pruned(s, fs, t, scanned, seen);
        let e = rows.last().ext;
        if sync::is_stale(fs, e, scanned, seen) {
            if e.id == id {
                assert(rows[rows.len() - 1].ext.id == id);
                assert(!seq![agent].contains(scanned));
            }
            lemma_without_keeps(b.rows, e.id, id);
            let r = store::without_id(b.rows, e.id);
            assert forall|i: int| 0 <= i < r.len() && (#[trigger] r[i]).ext.id == id implies
                is_recorded(r[i].ext, agent, meta, pack) by {
                assert(b.rows.contains(r[i]));
                let k = choose|k: int| 0 <= k < b.rows.len() && b.rows[k] == r[i];
                assert(b.rows[k].ext.id == id);
            }
        }
    }
}

proof fn lemma_settling_keeps(
    fs: FileTreeView,
    seen: Seq<ExtensionView>,
    rows: Seq<RowView>,
    id: Seq<char>,
    agent: Seq<char>,
    meta: InstallMetaView,
    pack: Option<Seq<char>>,
)
    requires
        holds_record(rows, id, agent, meta, pack),
        !sync::ids_of(seen).contains(id),
    ensures
        holds_record(sync::all_settled(fs, seen, rows), id, agent, meta, pack),
{
    let r = sync::all_settled(fs, seen, rows);
    assert(!sync::is_linked_id(fs, seen, id)) by {
        if sync::is_linked_id(fs, seen, id) {
            let k = choose|k: int|
                0 <= k < seen.len() && (#[trigger] seen[k]).id == id && sync::is_linked_skill(
                    fs,
                    seen[k],
                );
            assert(sync::ids_of(seen)[k] == id);
        }
    }
    let k = choose|k: int| 0 <= k < rows.len() && (#[trigger] rows[k]).ext.id == id;
    assert(r[k].ext.id == rows[k].ext.id);
    assert forall|i: int| 0 <= i < r.len() && (#[trigger] r[i]).ext.id == id implies
        is_recorded(r[i].ext, agent, meta, pack) by {
        assert(r[i].ext.id == rows[i].ext.id);
        let e = rows[i].ext;
        assert(ExtensionView { install_meta: Some(meta), ..e } == e);
        assert(sync::with_current_meta(e) == e);
    }
}

proof fn lemma_scan_keeps(
    before: (StoreView, Seq<ExtensionView>),
    fs: FileTreeView,
    scanned: AgentView,
    scope: ConfigScopeView,
    now: Timestamp,
    id: Seq<char>,
    agent: Seq<char>,
    meta: InstallMetaView,
    pack: Option<Seq<char>>,
)
    requires
        holds_record(before.0.rows, id, agent, meta, pack),
        is_apart(fs, scanned, scope, now, id, agent),
    ensures
        holds_record(after_scan(before, fs, scanned, scope, now).0.rows, id, agent, meta, pack),
{
    let s = before.0;
    let seen = scope_exts(fs, scanned, scope, now);
    lemma_upserts_keep(s.rows, seen, id, agent, meta, pack);
    if scope is Global {
        let a = StoreView { rows: sync::all_upserted(s.rows, seen), ..s };
        let ids = sync::ids_of(seen);
        lemma_pruning_keeps(a, fs, a.rows, scanned.name, ids, id, agent, meta, pack);
        let b = sync::pruned(a, fs, a.rows, scanned.name, ids);
        lemma_settling_keeps(fs, seen, b.rows, id, agent, meta, pack);
    }
}

proof fn lemma_record_keeps(
    rows: Seq<RowView>,
    other: Seq<char>,
    meta: InstallMetaView,
    pack: Option<Seq<char>>,
    id: Seq<char>,
    agent: Seq<char>,
)
    requires
        store::has_id(rows, id),
        forall|i: int|
            0 <= i < rows.len() && (#[trigger] rows[i]).ext.id == id ==> fits_record(
                rows[i].ext,
                agent,
                meta,
            ) && (other == id || is_recorded(rows[i].ext, agent, meta, pack)),
    ensures
        holds_record(with_record(rows, other, meta, pack), id, agent, meta, pack),
{
    let r = with_record(rows, other, meta, pack);
    let k = choose|k: int| 0 <= k < rows.len() && (#[trigger] rows[k]).ext.id == id;
    assert(r[k].ext.id == rows[k].ext.id);
    assert forall|i: int| 0 <= i < r.len() && (#[trigger] r[i]).ext.id == id implies
        is_recorded(r[i].ext, agent, meta, pack) by {
        assert(r[i].ext.id == rows[i].ext.id);
        assert(r[i].ext.source == rows[i].ext.source);
        assert(fits_record(rows[i].ext, agent, meta));
    }
}

/// An install record outlasts the scans of the agents that share the directory, in
/// every scope, and so does the pack that goes with it: an extension that has it when they begin has it when they are done,
/// unless one of them is a scan of its own agent or sees its identifier.
pub proof fn records_outlast_the_siblings(
    before: (StoreView, Seq<ExtensionView>),
    fs: FileTreeView,
    agents: Seq<AgentView>,
    names: Seq<Seq<char>>,
    dir: Seq<char>,
    skill: Seq<char>,
    meta: InstallMetaView,
    pack: Option<Seq<char>>,
    scope: ConfigScopeView,
    now: Timestamp,
    id: Seq<char>,
    agent: Seq<char>,
)
    requires
        holds_record(before.0.rows, id, agent, meta, pack),
        forall|m: int|
            0 <= m < agents.len() && is_sibling(fs, #[trigger] agents[m], names, dir, scope)
                ==> is_apart(fs, agents[m], scope, now, id, agent),
    ensures
        holds_record(
            siblings_marked(
                before,
                fs,
                agents,
                names,
                dir,
                skill,
                meta,
                pack,
                scope,
                now,
            ).0.rows,
            id,
            agent,
            meta,
            pack,
        ),
    decreases agents.len(),
{
    if agents.len() > 0 {
        let t = agents.drop_last();
        assert forall|m: int|
            0 <= m < t.len() && is_sibling(fs, #[trigger] t[m], names, dir, scope) implies is_apart(
            fs,
            t[m],
            scope,
            now,
            id,
            agent,
        ) by {
            assert(t[m] == agents[m]);
        }
        records_outlast_the_siblings(
            before,
            fs,
            t,
            names,
            dir,
            skill,
            meta,
            pack,
            scope,
            now,
            id,
            agent,
        );
        let a = siblings_marked(before, fs, t, names, dir, skill, meta, pack, scope, now);
        let last = agents[agents.len() - 1];
        if is_sibling(fs, last, names, dir, scope) {
            lemma_scan_keeps(a, fs, last, scope, now, id, agent, meta, pack);
            let b = after_scan(a, fs, last, scope, now);
            let other = ids::scoped_id(skill, "skill"@, last.name, scope);
            lemma_record_keeps(b.0.rows, other, meta, pack, id, agent);
        }
    }
}

/// In every scope, an agent that loads skills from the directory of the installation
/// ends up with the install record, and with the pack if one is given: if its scan
/// finds the skill, and no manifest names another repository for it, the skill has them
/// at the end, unless a later scan is one of the same agent or sees the identifier.
pub proof fn siblings_end_up_with_the_record(
    before: (StoreView, Seq<ExtensionView>),
    fs: FileTreeView,
    agents: Seq<AgentView>,
    names: Seq<Seq<char>>,
    dir: Seq<char>,
    skill: Seq<char>,
    meta: InstallMetaView,
    pack: Option<Seq<char>>,
    scope: ConfigScopeView,
    now: Timestamp,
    k: int,
)
    requires
        0 <= k < agents.len(),
        is_sibling(fs, agents[k], names, dir, scope),
        ({
            let id = ids::scoped_id(skill, "skill"@, agents[k].name, scope);
            let scanned = after_scan(
                siblings_marked(
                    before,
                    fs,
                    agents.take(k),
                    names,
                    dir,
                    skill,
                    meta,
                    pack,
                    scope,
                    now,
                ),
                fs,
                agents[k],
                scope,
                now,
            ).0.rows;
            &&& store::has_id(scanned, id)
            &&& forall|i: int|
                0 <= i < scanned.len() && (#[trigger] scanned[i]).ext.id == id ==> fits_record(
                    scanned[i].ext,
                    agents[k].name,
                    meta,
                )
            &&& forall|m: int|
                k < m < agents.len() && is_sibling(fs, #[trigger] agents[m], names, dir, scope)
                    ==> is_apart(fs, agents[m], scope, now, id, agents[k].name)
        }),
    ensures
        holds_record(
            siblings_marked(
                before,
                fs,
                agents,
                names,
                dir,
                skill,
                meta,
                pack,
                scope,
                now,
            ).0.rows,
            ids::scoped_id(skill, "skill"@, agents[k].name, scope),
            agents[k].name,
            meta,
            pack,
        ),
{
    let id = ids::scoped_id(skill, "skill"@, agents[k].name, scope);
    let a = siblings_marked(
        before,
        fs,
        agents.take(k),
        names,
        dir,
        skill,
        meta,
        pack,
        scope,
        now,
    );
    lemma_marked_after_scan(a, fs, agents[k], skill, meta, pack, scope, now);
    lemma_marked_up_to(before, fs, agents, names, dir, skill, meta, pack, scope, now, k);
    lemma_kept_from(
        before,
        fs,
        agents,
        names,
        dir,
        skill,
        meta,
        pack,
        scope,
        now,
        k + 1,
        id,
        agents[k].name,
    );
}

/// A sibling whose scan left the skill under its identifier has the record once it is
/// written.
proof fn lemma_marked_after_scan(
    before: (StoreView, Seq<ExtensionView>),
    fs: FileTreeView,
    sibling: AgentView,
    skill: Seq<char>,
    meta: InstallMetaView,
    pack: Option<Seq<char>>,
    scope: ConfigScopeView,
    now: Timestamp,
)
    requires
        ({
            let id = ids::scoped_id(skill, "skill"@, sibling.name, scope);
            let scanned = after_scan(before, fs, sibling, scope, now).0.rows;
            &&& store::has_id(scanned, id)
            &&& forall|i: int|
                0 <= i < scanned.len() && (#[trigger] scanned[i]).ext.id == id ==> fits_record(
                    scanned[i].ext,
                    sibling.name,
                    meta,
                )
        }),
    ensures
        holds_record(
            after_sibling(before, fs, sibling, skill, meta, pack, scope, now).0.rows,
            ids::scoped_id(skill, "skill"@, sibling.name, scope),
            sibling.name,
            meta,
            pack,
        ),
{
    let id = ids::scoped_id(skill, "skill"@, sibling.name, scope);
    let scanned = after_scan(before, fs, sibling, scope, now).0.rows;
    lemma_record_keeps(scanned, id, meta, pack, id, sibling.name);
}

/// The state after a sibling is the state before it, with that sibling scanned and
/// marked.
proof fn lemma_marked_up_to(
    before: (StoreView, Seq<ExtensionView>),
    fs: FileTreeView,
    agents: Seq<AgentView>,
    names: Seq<Seq<char>>,
    dir: Seq<char>,
    skill: Seq<char>,
    meta: InstallMetaView,
    pack: Option<Seq<char>>,
    scope: ConfigScopeView,
    now: Timestamp,
    k: int,
)
    requires
        0 <= k < agents.len(),
        is_sibling(fs, agents[k], names, dir, scope),
    ensures
        siblings_marked(
            before,
            fs,
            agents.take(k + 1),
            names,
            dir,
            skill,
            meta,
            pack,
            scope,
            now,
        ) == after_sibling(
            siblings_marked(
                before,
                fs,
                agents.take(k),
                names,
                dir,
                skill,
                meta,
                pack,
                scope,
                now,
            ),
            fs,
            agents[k],
            skill,
            meta,
            pack,
            scope,
            now,
        ),
{
    let t = agents.take(k + 1);
    assert(t.drop_last() =~= agents.take(k));
    assert(t.last() == agents[k]);
}

/// A record that is there after the first `n` agents is there at the end, if the
/// siblings behind them have nothing to do with it.
proof fn lemma_kept_from(
    before: (StoreView, Seq<ExtensionView>),
    fs: FileTreeView,
    agents: Seq<AgentView>,
    names: Seq<Seq<char>>,
    dir: Seq<char>,
    skill: Seq<char>,
    meta: InstallMetaView,
    pack: Option<Seq<char>>,
    scope: ConfigScopeView,
    now: Timestamp,
    n: int,
    id: Seq<char>,
    agent: Seq<char>,
)
    requires
        0 <= n <= agents.len(),
        holds_record(
            siblings_marked(
                before,
                fs,
                agents.take(n),
                names,
                dir,
                skill,
                meta,
                pack,
                scope,
                now,
            ).0.rows,
            id,
            agent,
            meta,
            pack,
        ),
        forall|m: int|
            n <= m < agents.len() && is_sibling(fs, #[trigger] agents[m], names, dir, scope)
                ==> is_apart(fs, agents[m], scope, now, id, agent),
    ensures
        holds_record(
            siblings_marked(
                before,
                fs,
                agents,
                names,
                dir,
                skill,
                meta,
                pack,
                scope,
                now,
            ).0.rows,
            id,
            agent,
            meta,
            pack,
        ),
{
    let mid = siblings_marked(
        before,
        fs,
        agents.take(n),
        names,
        dir,
        skill,
        meta,
        pack,
        scope,
        now,
    );
    let rest = agents.skip(n);
    lemma_siblings_from(before, fs, agents, names, dir, skill, meta, pack, scope, now, n);
    assert forall|m: int|
        0 <= m < rest.len() && is_sibling(fs, #[trigger] rest[m], names, dir, scope) implies
        is_apart(fs, rest[m], scope, now, id, agent) by {
        assert(rest[m] == agents[n + m]);
    }
    records_outlast_the_siblings(
        mid,
        fs,
        rest,
        names,
        dir,
        skill,
        meta,
        pack,
        scope,
        now,
        id,
        agent,
    );
}

/// Marking siblings may be done in two goes.
proof fn lemma_siblings_from(
    before: (StoreView, Seq<ExtensionView>),
    fs: FileTreeView,
    agents: Seq<AgentView>,
    names: Seq<Seq<char>>,
    dir: Seq<char>,
    skill: Seq<char>,
    meta: InstallMetaView,
    pack: Option<Seq<char>>,
    scope: ConfigScopeView,
    now: Timestamp,
    n: int,
)
    requires
        0 <= n <= agents.len(),
    ensures
        siblings_marked(before, fs, agents, names, dir, skill, meta, pack, scope, now)
            == siblings_marked(
            siblings_marked(
                before,
                fs,
                agents.take(n),
                names,
                dir,
                skill,
                meta,
                pack,
                scope,
                now,
            ),
            fs,
            agents.skip(n),
            names,
            dir,
            skill,
            meta,
            pack,
            scope,
            now,
        ),
    decreases agents.len(),
{
    if n == agents.len() {
        assert(agents.take(n) =~= agents);
        assert(agents.skip(n) =~= Seq::<AgentView>::empty());
    } else {
        let t = agents.drop_last();
        lemma_siblings_from(before, fs, t, names, dir, skill, meta, pack, scope, now, n);
        assert(t.take(n) =~= agents.take(n));
        assert(agents.skip(n).drop_last() =~= t.skip(n));
        assert(agents.skip(n).last() == agents.last());
    }
}

proof fn lemma_records_fit(
    rows: Seq<RowView>,
    names: Seq<Seq<char>>,
    skill: Seq<char>,
    meta: InstallMetaView,
    pack: Option<Seq<char>>,
    scope: ConfigScopeView,
    agent: Seq<char>,
    i: int,
)
    requires
        0 <= i < rows.len(),
    ensures
        with_records(rows, names, skill, meta, pack, scope).len() == rows.len(),
        with_records(rows, names, skill, meta, pack, scope)[i].ext.id == rows[i].ext.id,
        fits_record(rows[i].ext, agent, meta) ==> fits_record(
            with_records(rows, names, skill, meta, pack, scope)[i].ext,
            agent,
            meta,
        ),
    decreases names.len(),
{
    if names.len() > 0 {
        lemma_records_fit(rows, names.drop_last(), skill, meta, pack, scope, agent, i);
    }
}

/// After an installation the skill has the install record, and the pack if one is
/// given, for each of the agents that it was installed to, in every scope: if their scans found it, no manifest
/// names another repository for it, and no agent that shares the directory sees its
/// identifier.
pub proof fn installation_is_recorded(
    s: StoreView,
    fs: FileTreeView,
    agents: Seq<AgentView>,
    names: Seq<Seq<char>>,
    skill: Seq<char>,
    meta: InstallMetaView,
    pack: Option<Seq<char>>,
    scope: ConfigScopeView,
    now: Timestamp,
    k: int,
)
    requires
        0 <= k < names.len(),
        ({
            let id = ids::scoped_id(skill, "skill"@, names[k], scope);
            let scanned = targets_scanned(s, fs, agents, names, scope, now).0.rows;
            &&& store::has_id(scanned, id)
            &&& forall|i: int|
                0 <= i < scanned.len() && (#[trigger] scanned[i]).ext.id == id ==> fits_record(
                    scanned[i].ext,
                    names[k],
                    meta,
                )
            &&& forall|m: int|
                0 <= m < agents.len() && install_dir(agents, names, scope) is Some && is_sibling(
                    fs,
                    #[trigger] agents[m],
                    names,
                    install_dir(agents, names, scope)->0,
                    scope,
                ) ==> !sync::ids_of(scope_exts(fs, agents[m], scope, now)).contains(id)
        }),
    ensures
        holds_record(
            installed(s, fs, agents, names, skill, Some(meta), pack, scope, now).0.rows,
            ids::scoped_id(skill, "skill"@, names[k], scope),
            names[k],
            meta,
            pack,
        ),
{
    let id = ids::scoped_id(skill, "skill"@, names[k], scope);
    let a = targets_scanned(s, fs, agents, names, scope, now);
    let marked = StoreView {
        rows: with_records(a.0.rows, names, skill, meta, pack, scope),
        ..a.0
    };
    let j = choose|j: int| 0 <= j < a.0.rows.len() && (#[trigger] a.0.rows[j]).ext.id == id;
    lemma_records_fit(a.0.rows, names, skill, meta, pack, scope, names[k], j);
    assert(marked.rows[j].ext.id == id);
    assert forall|i: int| 0 <= i < marked.rows.len() && (#[trigger] marked.rows[i]).ext.id
        == id implies is_recorded(marked.rows[i].ext, names[k], meta, pack) by {
        lemma_records_fit(a.0.rows, names, skill, meta, pack, scope, names[k], i);
        assert(a.0.rows[i].ext.id == id);
        targets_get_the_record(a.0.rows, names, skill, meta, pack, scope, k, i);
    }
    assert(holds_record(marked.rows, id, names[k], meta, pack));
    if let Some(dir) = install_dir(agents, names, scope) {
        assert forall|m: int|
            0 <= m < agents.len() && is_sibling(fs, #[trigger] agents[m], names, dir, scope) implies
            is_apart(fs, agents[m], scope, now, id, names[k]) by {
            assert(agents[m].name != names[k]) by {
                assert(names.contains(names[k]));
            }
        }
        records_outlast_the_siblings(
            (marked, a.1),
            fs,
            agents,
            names,
            dir,
            skill,
            meta,
            pack,
            scope,
            now,
            id,
            names[k],
        );
    }
}

/// Whether a judge says which extension it speaks of.
pub open spec fn names_its_input<A: Fn(AuditInput) -> AuditResult>(judge: A) -> bool {
    forall|x: AuditInput, r: AuditResult| #[trigger]
        call_ensures(judge, (x,), r) ==> r@.extension_id == x@.extension_id
}

/// Whether a store has an audit result for an extension behind its first `n` results.
pub open spec fn has_new_result(s: StoreView, n: nat, id: Seq<char>) -> bool {
    exists|j: int| n <= j < s.audits.len() && (#[trigger] s.audits[j]).extension_id == id
}

/// After every installation there is a new audit result for each skill with the
/// installed name that was found and is known, whether or not there is an install
/// record, and whether or not the directory of the installation can be told.
pub proof fn installation_is_audited<A: Fn(AuditInput) -> AuditResult>(
    judge: A,
    fs: FileTreeView,
    agents: Seq<AgentView>,
    skill: Seq<char>,
    outcome: (StoreView, Seq<ExtensionView>),
    after: StoreView,
    i: int,
)
    requires
        names_its_input(judge),
        install_recorded(judge, fs, agents, skill, outcome, after),
        0 <= i < outcome.1.len(),
        outcome.1[i].name == skill,
        outcome.1[i].kind == ExtensionKind::Skill,
        store::has_id(outcome.0.rows, outcome.1[i].id),
    ensures
        has_new_result(after, outcome.0.audits.len(), outcome.1[i].id),
{
    let inputs = audit::named_inputs(fs, agents, outcome.1, skill);
    let results = choose|results: Seq<AuditResult>|
        #![trigger models::list_view(results)]
        audit::are_answers(judge, inputs, results) && after == audit::with_results(
            outcome.0,
            models::list_view(results),
        );
    let k = lemma_named_input(fs, agents, outcome.1, skill, i);
    assert(audit::is_answer(judge, inputs[k], results[k]));
    let given = models::list_view(results);
    assert(given[k] == results[k]@);
    audit::results_are_recorded(outcome.0, given, k);
    let j = choose|j: int|
        outcome.0.audits.len() <= j < after.audits.len() && #[trigger] after.audits[j] == given[k];
    assert(after.audits[j].extension_id == outcome.1[i].id);
}

proof fn lemma_named_input(
    fs: FileTreeView,
    agents: Seq<AgentView>,
    exts: Seq<ExtensionView>,
    name: Seq<char>,
    i: int,
) -> (k: int)
    requires
        0 <= i < exts.len(),
        exts[i].name == name,
        exts[i].kind == ExtensionKind::Skill,
    ensures
        0 <= k < audit::named_inputs(fs, agents, exts, name).len(),
        audit::named_inputs(fs, agents, exts, name)[k].extension_id == exts[i].id,
    decreases exts.len(),
{
    let before = audit::named_inputs(fs, agents, exts.drop_last(), name);
    if i == exts.len() - 1 {
        before.len() as int
    } else {
        lemma_named_input(fs, agents, exts.drop_last(), name, i)
    }
}

} // verus!
