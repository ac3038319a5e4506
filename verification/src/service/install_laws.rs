//! What an installation finds and records: which agents take part in it, what is read
//! of them, and what becomes of the table.

use vstd::prelude::*;

use crate::agents::AgentView;
use crate::files::FileTreeView;
use crate::ids;
use crate::lists;
use crate::models::{ConfigScopeView, ExtensionView, InstallMetaView, Timestamp};
use crate::path;
use crate::scanner;
use crate::service::finishing;
use crate::store;
use crate::store::merging;
use crate::store::{RowView, StoreView};

verus! {

// ---------------------------------------------------------------------------
// Who takes part
// ---------------------------------------------------------------------------

/// Whether two paths lead to the same place: they are the same path, or so are the
/// places where their links lead.
pub open spec fn lead_to_the_same(fs: FileTreeView, a: Seq<char>, b: Seq<char>) -> bool {
    ||| path::same_path(a, b)
    ||| exists|x: Seq<char>, y: Seq<char>|
        fs.at(a).canonical == Some(x) && fs.at(b).canonical == Some(y) && #[trigger] path::same_path(
            x,
            y,
        )
}

/// An agent shares the directory of an installation exactly if it was not asked for, is
/// installed, and loads skills from there: from one of its own directories, or in a
/// project from one of those that it has in each project.
pub proof fn agents_share_directories(
    fs: FileTreeView,
    agent: AgentView,
    names: Seq<Seq<char>>,
    dir: Seq<char>,
    scope: ConfigScopeView,
)
    ensures
        finishing::is_sibling(fs, agent, names, dir, scope) <==> !names.contains(agent.name)
            && agent.detected && match scope {
            ConfigScopeView::Global => exists|i: int|
                0 <= i < agent.skill_dirs.len() && lead_to_the_same(
                    fs,
                    #[trigger] agent.skill_dirs[i],
                    dir,
                ),
            ConfigScopeView::Project { path: root, .. } => exists|i: int|
                0 <= i < agent.project_skill_dirs.len() && lead_to_the_same(
                    fs,
                    path::extended(root, #[trigger] agent.project_skill_dirs[i]),
                    dir,
                ),
        },
{
    let dirs = finishing::dirs_scanned(agent, scope);
    assert forall|a: Seq<char>| #[trigger] lead_to_the_same(fs, a, dir) <==> finishing::paths_meet(
        fs,
        a,
        dir,
    ) by {}
    match scope {
        ConfigScopeView::Global => {
            if exists|i: int|
                0 <= i < agent.skill_dirs.len() && lead_to_the_same(
                    fs,
                    #[trigger] agent.skill_dirs[i],
                    dir,
                ) {
                let i = choose|i: int|
                    0 <= i < agent.skill_dirs.len() && lead_to_the_same(
                        fs,
                        #[trigger] agent.skill_dirs[i],
                        dir,
                    );
                assert(finishing::paths_meet(fs, dirs[i], dir));
            }
            if finishing::any_meets(fs, dirs, dir) {
                let i = choose|i: int|
                    0 <= i < dirs.len() && finishing::paths_meet(fs, #[trigger] dirs[i], dir);
                assert(lead_to_the_same(fs, agent.skill_dirs[i], dir));
            }
        },
        ConfigScopeView::Project { path: root, .. } => {
            let own = agent.project_skill_dirs;
            if exists|i: int|
                0 <= i < own.len() && lead_to_the_same(
                    fs,
                    path::extended(root, #[trigger] own[i]),
                    dir,
                ) {
                let i = choose|i: int|
                    0 <= i < own.len() && lead_to_the_same(
                        fs,
                        path::extended(root, #[trigger] own[i]),
                        dir,
                    );
                assert(dirs[i] == path::extended(root, own[i]));
                assert(finishing::paths_meet(fs, dirs[i], dir));
            }
            if finishing::any_meets(fs, dirs, dir) {
                let i = choose|i: int|
                    0 <= i < dirs.len() && finishing::paths_meet(fs, #[trigger] dirs[i], dir);
                assert(dirs[i] == path::extended(root, own[i]));
                assert(lead_to_the_same(fs, path::extended(root, own[i]), dir));
            }
        },
    }
}

/// The directory of an installation is that of the first agent that was asked for, if
/// that is known and has one in the scope.
pub proof fn directory_is_that_of_the_first(
    agents: Seq<AgentView>,
    names: Seq<Seq<char>>,
    scope: ConfigScopeView,
    k: int,
)
    ensures
        names.len() == 0 ==> finishing::install_dir(agents, names, scope) is None,
        names.len() > 0 && 0 <= k < agents.len() && agents[k].name == names[0] && (forall|j: int|
            0 <= j < k ==> (#[trigger] agents[j]).name != names[0]) ==> finishing::install_dir(
            agents,
            names,
            scope,
        ) == agents[k].skill_dir_in(scope),
        names.len() > 0 && (forall|j: int|
            0 <= j < agents.len() ==> (#[trigger] agents[j]).name != names[0])
            ==> finishing::install_dir(agents, names, scope) is None,
    decreases agents.len(),
{
    if names.len() > 0 && agents.len() > 0 {
        let t = agents.drop_first();
        assert forall|j: int| 0 <= j < t.len() implies #[trigger] t[j] == agents[j + 1] by {}
        directory_is_that_of_the_first(t, names, scope, k - 1);
        if 0 < k < agents.len() && agents[k].name == names[0] && (forall|j: int|
            0 <= j < k ==> (#[trigger] agents[j]).name != names[0]) {
            assert(agents[0].name != names[0]);
            assert(t[k - 1] == agents[k]);
            assert forall|j: int| 0 <= j < k - 1 implies (#[trigger] t[j]).name != names[0] by {
                assert(agents[j + 1].name != names[0]);
            }
        }
        if forall|j: int| 0 <= j < agents.len() ==> (#[trigger] agents[j]).name != names[0] {
            assert(agents[0].name != names[0]);
            assert forall|j: int| 0 <= j < t.len() implies (#[trigger] t[j]).name != names[0] by {
                assert(agents[j + 1].name != names[0]);
            }
        }
    }
}

/// Whether an agent takes part in an installation: it was asked for, or it shares the
/// directory of an installation that leaves a record.
pub open spec fn takes_part(
    fs: FileTreeView,
    agents: Seq<AgentView>,
    names: Seq<Seq<char>>,
    recorded: bool,
    scope: ConfigScopeView,
    a: AgentView,
) -> bool {
    ||| names.contains(a.name)
    ||| recorded && (finishing::install_dir(agents, names, scope) matches Some(dir)
        && finishing::is_sibling(fs, a, names, dir, scope))
}

// ---------------------------------------------------------------------------
// What is found
// ---------------------------------------------------------------------------

/// Whether an agent has an extension in a scope: globally, or in one project.
pub open spec fn has_in_scope(
    fs: FileTreeView,
    a: AgentView,
    scope: ConfigScopeView,
    now: Timestamp,
    e: ExtensionView,
) -> bool {
    match scope {
        ConfigScopeView::Global => scanner::agent_exts(fs, a, now).contains(e),
        ConfigScopeView::Project { name, path: root } => scanner::project_exts(
            fs,
            a,
            name,
            root,
            now,
        ).contains(e),
    }
}

proof fn lemma_targets_found(
    s: StoreView,
    fs: FileTreeView,
    agents: Seq<AgentView>,
    names: Seq<Seq<char>>,
    scope: ConfigScopeView,
    now: Timestamp,
    e: ExtensionView,
)
    ensures
        finishing::targets_scanned(s, fs, agents, names, scope, now).1.contains(e) <==> exists|
            k: int,
        |
            0 <= k < agents.len() && names.contains((#[trigger] agents[k]).name) && has_in_scope(
                fs,
                agents[k],
                scope,
                now,
                e,
            ),
    decreases agents.len(),
{
    if agents.len() > 0 {
        let t = agents.drop_last();
        let last = agents.last();
        let before = finishing::targets_scanned(s, fs, t, names, scope, now).1;
        let exts = finishing::scope_exts(fs, last, scope, now);
        lemma_targets_found(s, fs, t, names, scope, now, e);
        lists::lemma_sum_contains(before, exts, e);
        if before.contains(e) {
            let k = choose|k: int|
                0 <= k < t.len() && names.contains((#[trigger] t[k]).name) && has_in_scope(
                    fs,
                    t[k],
                    scope,
                    now,
                    e,
                );
            assert(agents[k] == t[k]);
        }
        if names.contains(last.name) && exts.contains(e) {
            assert(agents[agents.len() - 1] == last);
        }
        if exists|k: int|
            0 <= k < agents.len() && names.contains((#[trigger] agents[k]).name) && has_in_scope(
                fs,
                agents[k],
                scope,
                now,
                e,
            ) {
            let k = choose|k: int|
                0 <= k < agents.len() && names.contains((#[trigger] agents[k]).name)
                    && has_in_scope(fs, agents[k], scope, now, e);
            if k < t.len() {
                assert(t[k] == agents[k]);
            }
        }
    }
}

/// Whether one of some agents has a property.
spec fn some_agent(agents: Seq<AgentView>, f: spec_fn(AgentView) -> bool) -> bool {
    exists|k: int| 0 <= k < agents.len() && f(#[trigger] agents[k])
}

proof fn lemma_some_agent(agents: Seq<AgentView>, f: spec_fn(AgentView) -> bool)
    requires
        agents.len() > 0,
    ensures
        some_agent(agents, f) <==> some_agent(agents.drop_last(), f) || f(agents.last()),
{
    let t = agents.drop_last();
    if some_agent(t, f) {
        let k = choose|k: int| 0 <= k < t.len() && f(#[trigger] t[k]);
        assert(agents[k] == t[k]);
    }
    if f(agents.last()) {
        assert(f(agents[agents.len() - 1]));
    }
    if some_agent(agents, f) {
        let k = choose|k: int| 0 <= k < agents.len() && f(#[trigger] agents[k]);
        if k < t.len() {
            assert(t[k] == agents[k]);
        }
    }
}

proof fn lemma_scope_exts(
    fs: FileTreeView,
    a: AgentView,
    scope: ConfigScopeView,
    now: Timestamp,
    e: ExtensionView,
)
    ensures
        finishing::scope_exts(fs, a, scope, now).contains(e) <==> has_in_scope(fs, a, scope, now, e),
{
}

proof fn lemma_one_sibling(
    before: (StoreView, Seq<ExtensionView>),
    fs: FileTreeView,
    agent: AgentView,
    skill: Seq<char>,
    meta: InstallMetaView,
    pack: Option<Seq<char>>,
    scope: ConfigScopeView,
    now: Timestamp,
    e: ExtensionView,
)
    ensures
        finishing::after_sibling(before, fs, agent, skill, meta, pack, scope, now).1.contains(e)
            <==> before.1.contains(e) || has_in_scope(fs, agent, scope, now, e),
{
    lists::lemma_sum_contains(before.1, finishing::scope_exts(fs, agent, scope, now), e);
    lemma_scope_exts(fs, agent, scope, now, e);
}

proof fn lemma_siblings_found(
    before: (StoreView, Seq<ExtensionView>),
    fs: FileTreeView,
    agents: Seq<AgentView>,
    names: Seq<Seq<char>>,
    dir: Seq<char>,
    skill: Seq<char>,
    meta: InstallMetaView,
    pack: Option<Seq<char>>,
    scope: ConfigScopeView,
    now: Timestamp,
    e: ExtensionView,
)
    ensures
        finishing::siblings_marked(
            before,
            fs,
            agents,
            names,
            dir,
            skill,
            meta,
            pack,
            scope,
            now,
        ).1.contains(e) <==> before.1.contains(e) || some_agent(
            agents,
            |a: AgentView|
                finishing::is_sibling(fs, a, names, dir, scope) && has_in_scope(
                    fs,
                    a,
                    scope,
                    now,
                    e,
                ),
        ),
    decreases agents.len(),
{
    let f = |a: AgentView|
        finishing::is_sibling(fs, a, names, dir, scope) && has_in_scope(fs, a, scope, now, e);
    if agents.len() > 0 {
        let t = agents.drop_last();
        let a = finishing::siblings_marked(
            before,
            fs,
            t,
            names,
            dir,
            skill,
            meta,
            pack,
            scope,
            now,
        );
        lemma_siblings_found(before, fs, t, names, dir, skill, meta, pack, scope, now, e);
        lemma_one_sibling(a, fs, agents.last(), skill, meta, pack, scope, now, e);
        lemma_some_agent(agents, f);
    }
}

/// An installation finds exactly what the agents that take part in it have in its scope.
pub proof fn installation_finds_what_its_agents_have(
    s: StoreView,
    fs: FileTreeView,
    agents: Seq<AgentView>,
    names: Seq<Seq<char>>,
    skill: Seq<char>,
    meta: Option<InstallMetaView>,
    pack: Option<Seq<char>>,
    scope: ConfigScopeView,
    now: Timestamp,
    e: ExtensionView,
)
    ensures
        finishing::installed(s, fs, agents, names, skill, meta, pack, scope, now).1.contains(e)
            <==> exists|k: int|
            0 <= k < agents.len() && takes_part(
                fs,
                agents,
                names,
                meta is Some,
                scope,
                #[trigger] agents[k],
            ) && has_in_scope(fs, agents[k], scope, now, e),
{
    let a = finishing::targets_scanned(s, fs, agents, names, scope, now);
    let found = finishing::installed(s, fs, agents, names, skill, meta, pack, scope, now).1;
    lemma_targets_found(s, fs, agents, names, scope, now, e);
    if let Some(m) = meta {
        if let Some(dir) = finishing::install_dir(agents, names, scope) {
            let marked = StoreView {
                rows: finishing::with_records(a.0.rows, names, skill, m, pack, scope),
                ..a.0
            };
            lemma_siblings_found(
                (marked, a.1),
                fs,
                agents,
                names,
                dir,
                skill,
                m,
                pack,
                scope,
                now,
                e,
            );
        }
    }
    if a.1.contains(e) {
        let k = choose|k: int|
            0 <= k < agents.len() && names.contains((#[trigger] agents[k]).name) && has_in_scope(
                fs,
                agents[k],
                scope,
                now,
                e,
            );
        assert(takes_part(fs, agents, names, meta is Some, scope, agents[k]));
    }
    let dir = finishing::install_dir(agents, names, scope)->0;
    let f = |a: AgentView|
        finishing::is_sibling(fs, a, names, dir, scope) && has_in_scope(fs, a, scope, now, e);
    if found.contains(e) && !a.1.contains(e) {
        let k = choose|k: int| 0 <= k < agents.len() && f(#[trigger] agents[k]);
        assert(takes_part(fs, agents, names, meta is Some, scope, agents[k]));
    }
    if exists|k: int|
        0 <= k < agents.len() && takes_part(
            fs,
            agents,
            names,
            meta is Some,
            scope,
            #[trigger] agents[k],
        ) && has_in_scope(fs, agents[k], scope, now, e) {
        let k = choose|k: int|
            0 <= k < agents.len() && takes_part(
                fs,
                agents,
                names,
                meta is Some,
                scope,
                #[trigger] agents[k],
            ) && has_in_scope(fs, agents[k], scope, now, e);
        assert(names.contains(agents[k].name) || f(agents[k]));
    }
}

// ---------------------------------------------------------------------------
// What becomes of the table
// ---------------------------------------------------------------------------

/// A global scan of an agent goes into the store as a scan of that agent.
pub proof fn global_scan_is_one_of_the_agent(
    before: (StoreView, Seq<ExtensionView>),
    fs: FileTreeView,
    agent: AgentView,
    now: Timestamp,
)
    ensures
        ({
            let after = finishing::after_scan(before, fs, agent, ConfigScopeView::Global, now);
            let seen = scanner::agent_exts(fs, agent, now);
            &&& after.0 == merging::scanned(before.0, fs, Some(agent.name), seen)
            &&& after.1 == before.1 + seen
        }),
{
}

proof fn lemma_inserted_ids(rows: Seq<RowView>, exts: Seq<ExtensionView>, id: Seq<char>)
    ensures
        store::has_id(finishing::all_inserted(rows, exts), id) <==> store::has_id(rows, id)
            || !merging::is_unseen(exts, id),
    decreases exts.len(),
{
    if exts.len() > 0 {
        let t = exts.drop_last();
        let e = exts.last();
        let before = finishing::all_inserted(rows, t);
        let after = finishing::all_inserted(rows, exts);
        lemma_inserted_ids(rows, t, id);
        assert(merging::is_unseen(exts, id) <==> merging::is_unseen(t, id) && e.id != id) by {
            assert forall|j: int| 0 <= j < t.len() implies #[trigger] t[j] == exts[j] by {}
            if merging::is_unseen(t, id) && e.id != id {
                assert forall|j: int| 0 <= j < exts.len() implies (#[trigger] exts[j]).id != id by {
                    if j < t.len() {
                        assert(t[j].id != id);
                    }
                }
            }
            if merging::is_unseen(exts, id) {
                assert(exts[exts.len() - 1].id != id);
                assert forall|j: int| 0 <= j < t.len() implies (#[trigger] t[j]).id != id by {
                    assert(exts[j].id != id);
                }
            }
        }
        lemma_upserted_id(before, e, id);
    }
}

proof fn lemma_upserted_id(rows: Seq<RowView>, e: ExtensionView, id: Seq<char>)
    ensures
        store::has_id(store::upserted(rows, e, true), id) <==> store::has_id(rows, id) || e.id == id,
{
    let after = store::upserted(rows, e, true);
    if store::has_id(rows, id) {
        let i = choose|i: int| 0 <= i < rows.len() && (#[trigger] rows[i]).ext.id == id;
        assert(after[i].ext.id == id);
    }
    if e.id == id && !store::has_id(rows, id) {
        assert(after[rows.len() as int].ext.id == id);
    }
    if store::has_id(after, id) {
        let i = choose|i: int| 0 <= i < after.len() && (#[trigger] after[i]).ext.id == id;
        if i < rows.len() {
            assert(rows[i].ext.id == id);
        }
    }
}

/// A scan of a project only adds to the table: what it saw is known afterwards, as it
/// was last seen, and keeps what the user set; and no row leaves. The projects and the
/// audits stay.
pub proof fn project_scan_adds_what_it_saw(
    before: (StoreView, Seq<ExtensionView>),
    fs: FileTreeView,
    agent: AgentView,
    name: Seq<char>,
    root: Seq<char>,
    now: Timestamp,
    k: int,
    id: Seq<char>,
)
    requires
        store::ids_distinct(before.0.rows),
    ensures
        ({
            let scope = ConfigScopeView::Project { name, path: root };
            let after = finishing::after_scan(before, fs, agent, scope, now);
            let seen = scanner::project_exts(fs, agent, name, root, now);
            &&& after.1 == before.1 + seen
            &&& after.0 == (StoreView { rows: after.0.rows, ..before.0 })
            &&& store::has_id(after.0.rows, id) <==> store::has_id(before.0.rows, id)
                || !merging::is_unseen(seen, id)
            &&& merging::is_last_sighting(seen, k) ==> {
                let e = seen[k];
                store::row_with(after.0.rows, e.id) matches Some(t) && t.kind == e.kind && t.name
                    == e.name && t.description == e.description && t.source == e.source && t.agents
                    == e.agents && t.permissions == e.permissions && t.updated_at == e.updated_at
                    && t.source_path == e.source_path && t.scope == e.scope && (
                store::row_with(before.0.rows, e.id) matches Some(old) ==> t.tags == old.tags
                    && t.trust_score == old.trust_score && t.enabled == old.enabled
                    && t.install_meta == old.install_meta && t.installed_at == old.installed_at && (
                old.pack is Some ==> t.pack == old.pack))
            }
        }),
{
    let seen = scanner::project_exts(fs, agent, name, root, now);
    lemma_inserted_ids(before.0.rows, seen, id);
    if merging::is_last_sighting(seen, k) {
        lemma_inserted_last(before.0.rows, seen, k);
        lemma_inserted_keep(before.0.rows, seen, seen[k].id);
    }
}

proof fn lemma_inserted_distinct(rows: Seq<RowView>, exts: Seq<ExtensionView>)
    requires
        store::ids_distinct(rows),
    ensures
        store::ids_distinct(finishing::all_inserted(rows, exts)),
    decreases exts.len(),
{
    if exts.len() > 0 {
        lemma_inserted_distinct(rows, exts.drop_last());
        store::laws::lemma_upserted_distinct(
            finishing::all_inserted(rows, exts.drop_last()),
            exts.last(),
            true,
        );
    }
}

proof fn lemma_inserted_last(rows: Seq<RowView>, exts: Seq<ExtensionView>, k: int)
    requires
        store::ids_distinct(rows),
        merging::is_last_sighting(exts, k),
    ensures
        ({
            let e = exts[k];
            store::row_with(finishing::all_inserted(rows, exts), e.id) matches Some(t) && t.kind
                == e.kind && t.name == e.name && t.description == e.description && t.source
                == e.source && t.agents == e.agents && t.permissions == e.permissions
                && t.updated_at == e.updated_at && t.source_path == e.source_path && t.scope
                == e.scope
        }),
    decreases exts.len(),
{
    let t = exts.drop_last();
    let before = finishing::all_inserted(rows, t);
    lemma_inserted_distinct(rows, t);
    merging::recording_takes_over(before, exts.last(), exts[k].id);
    if k < t.len() {
        assert(exts[exts.len() - 1].id != exts[k].id);
        assert(t[k] == exts[k]);
        assert forall|j: int| k < j < t.len() implies (#[trigger] t[j]).id != t[k].id by {
            assert(exts[j].id != exts[k].id);
        }
        lemma_inserted_last(rows, t, k);
    }
}

proof fn lemma_inserted_keep(rows: Seq<RowView>, exts: Seq<ExtensionView>, id: Seq<char>)
    requires
        store::ids_distinct(rows),
    ensures
        store::row_with(rows, id) matches Some(old) ==> (store::row_with(
            finishing::all_inserted(rows, exts),
            id,
        ) matches Some(t) && t.tags == old.tags && t.trust_score == old.trust_score && t.enabled
            == old.enabled && t.install_meta == old.install_meta && t.installed_at
            == old.installed_at && (old.pack is Some ==> t.pack == old.pack)),
    decreases exts.len(),
{
    if exts.len() > 0 {
        let t = exts.drop_last();
        lemma_inserted_keep(rows, t, id);
        lemma_inserted_distinct(rows, t);
        merging::recording_takes_over(finishing::all_inserted(rows, t), exts.last(), id);
    }
}

/// Writing the records of an installation changes nothing but install records and packs,
/// and those only of the skill, for the agents that it was installed to. Without a pack
/// the packs stay.
pub proof fn records_change_nothing_else(
    rows: Seq<RowView>,
    names: Seq<Seq<char>>,
    skill: Seq<char>,
    meta: InstallMetaView,
    pack: Option<Seq<char>>,
    scope: ConfigScopeView,
    i: int,
)
    requires
        0 <= i < rows.len(),
    ensures
        ({
            let after = finishing::with_records(rows, names, skill, meta, pack, scope);
            let meant = exists|k: int|
                0 <= k < names.len() && rows[i].ext.id == ids::scoped_id(
                    skill,
                    "skill"@,
                    #[trigger] names[k],
                    scope,
                );
            &&& after.len() == rows.len()
            &&& !meant ==> after[i] == rows[i]
            &&& meant ==> after[i].ext.install_meta == Some(meta) && after[i].disabled_config
                == rows[i].disabled_config && after[i].ext.pack == (match pack {
                Some(p) => Some(p),
                None => rows[i].ext.pack,
            }) && after[i].ext == (ExtensionView {
                install_meta: after[i].ext.install_meta,
                pack: after[i].ext.pack,
                ..rows[i].ext
            })
        }),
    decreases names.len(),
{
    if names.len() > 0 {
        let t = names.drop_last();
        let id = rows[i].ext.id;
        records_change_nothing_else(rows, t, skill, meta, pack, scope, i);
        assert forall|k: int| 0 <= k < t.len() implies #[trigger] t[k] == names[k] by {}
        if exists|k: int|
            0 <= k < t.len() && id == ids::scoped_id(skill, "skill"@, #[trigger] t[k], scope) {
            let k = choose|k: int|
                0 <= k < t.len() && id == ids::scoped_id(skill, "skill"@, #[trigger] t[k], scope);
            assert(names[k] == t[k]);
        }
        if id == ids::scoped_id(skill, "skill"@, names.last(), scope) {
            assert(names[names.len() - 1] == names.last());
        }
        if exists|k: int|
            0 <= k < names.len() && id == ids::scoped_id(skill, "skill"@, #[trigger] names[k], scope) {
            let k = choose|k: int|
                0 <= k < names.len() && id == ids::scoped_id(
                    skill,
                    "skill"@,
                    #[trigger] names[k],
                    scope,
                );
            if k < t.len() {
                assert(t[k] == names[k]);
            }
        }
    }
}

/// Whether all that was found is known.
spec fn found_is_known(x: (StoreView, Seq<ExtensionView>)) -> bool {
    forall|i: int| 0 <= i < x.1.len() ==> store::has_id(x.0.rows, (#[trigger] x.1[i]).id)
}

proof fn lemma_scan_known(
    before: (StoreView, Seq<ExtensionView>),
    fs: FileTreeView,
    agent: AgentView,
    scope: ConfigScopeView,
    now: Timestamp,
)
    requires
        scope is Project,
        found_is_known(before),
    ensures
        found_is_known(finishing::after_scan(before, fs, agent, scope, now)),
{
    let exts = finishing::scope_exts(fs, agent, scope, now);
    let after = finishing::after_scan(before, fs, agent, scope, now);
    assert forall|i: int| 0 <= i < after.1.len() implies store::has_id(
        after.0.rows,
        (#[trigger] after.1[i]).id,
    ) by {
        let id = after.1[i].id;
        lemma_inserted_ids(before.0.rows, exts, id);
        if i < before.1.len() {
            assert(store::has_id(before.0.rows, before.1[i].id));
        } else {
            assert(exts[i - before.1.len()].id == id);
        }
    }
}

proof fn lemma_record_known(
    rows: Seq<RowView>,
    id: Seq<char>,
    meta: InstallMetaView,
    pack: Option<Seq<char>>,
    x: Seq<char>,
)
    requires
        store::has_id(rows, x),
    ensures
        store::has_id(finishing::with_record(rows, id, meta, pack), x),
{
    let after = finishing::with_record(rows, id, meta, pack);
    let i = choose|i: int| 0 <= i < rows.len() && (#[trigger] rows[i]).ext.id == x;
    assert(after[i].ext.id == x);
}

proof fn lemma_records_known(
    rows: Seq<RowView>,
    names: Seq<Seq<char>>,
    skill: Seq<char>,
    meta: InstallMetaView,
    pack: Option<Seq<char>>,
    scope: ConfigScopeView,
    x: Seq<char>,
)
    requires
        store::has_id(rows, x),
    ensures
        store::has_id(finishing::with_records(rows, names, skill, meta, pack, scope), x),
    decreases names.len(),
{
    if names.len() > 0 {
        let t = names.drop_last();
        lemma_records_known(rows, t, skill, meta, pack, scope, x);
        lemma_record_known(
            finishing::with_records(rows, t, skill, meta, pack, scope),
            ids::scoped_id(skill, "skill"@, names.last(), scope),
            meta,
            pack,
            x,
        );
    }
}

proof fn lemma_targets_known(
    s: StoreView,
    fs: FileTreeView,
    agents: Seq<AgentView>,
    names: Seq<Seq<char>>,
    scope: ConfigScopeView,
    now: Timestamp,
)
    requires
        scope is Project,
    ensures
        found_is_known(finishing::targets_scanned(s, fs, agents, names, scope, now)),
    decreases agents.len(),
{
    if agents.len() > 0 {
        let t = agents.drop_last();
        lemma_targets_known(s, fs, t, names, scope, now);
        lemma_scan_known(
            finishing::targets_scanned(s, fs, t, names, scope, now),
            fs,
            agents.last(),
            scope,
            now,
        );
    }
}

proof fn lemma_sibling_known(
    before: (StoreView, Seq<ExtensionView>),
    fs: FileTreeView,
    agent: AgentView,
    skill: Seq<char>,
    meta: InstallMetaView,
    pack: Option<Seq<char>>,
    scope: ConfigScopeView,
    now: Timestamp,
)
    requires
        scope is Project,
        found_is_known(before),
    ensures
        found_is_known(finishing::after_sibling(before, fs, agent, skill, meta, pack, scope, now)),
{
    let a = finishing::after_scan(before, fs, agent, scope, now);
    let id = ids::scoped_id(skill, "skill"@, agent.name, scope);
    let after = finishing::after_sibling(before, fs, agent, skill, meta, pack, scope, now);
    lemma_scan_known(before, fs, agent, scope, now);
    assert forall|i: int| 0 <= i < after.1.len() implies store::has_id(
        after.0.rows,
        (#[trigger] after.1[i]).id,
    ) by {
        assert(store::has_id(a.0.rows, a.1[i].id));
        lemma_record_known(a.0.rows, id, meta, pack, after.1[i].id);
    }
}

proof fn lemma_siblings_known(
    before: (StoreView, Seq<ExtensionView>),
    fs: FileTreeView,
    agents: Seq<AgentView>,
    names: Seq<Seq<char>>,
    dir: Seq<char>,
    skill: Seq<char>,
    meta: InstallMetaView,
    pack: Option<Seq<char>>,
    scope: ConfigScopeView,
    now: Timestamp,
)
    requires
        scope is Project,
        found_is_known(before),
    ensures
        found_is_known(
            finishing::siblings_marked(
                before,
                fs,
                agents,
                names,
                dir,
                skill,
                meta,
                pack,
                scope,
                now,
            ),
        ),
    decreases agents.len(),
{
    if agents.len() > 0 {
        let t = agents.drop_last();
        let a = finishing::siblings_marked(
            before,
            fs,
            t,
            names,
            dir,
            skill,
            meta,
            pack,
            scope,
            now,
        );
        lemma_siblings_known(before, fs, t, names, dir, skill, meta, pack, scope, now);
        lemma_sibling_known(a, fs, agents.last(), skill, meta, pack, scope, now);
    }
}

/// What an installation into a project finds is known afterwards.
pub proof fn project_installation_knows_what_it_finds(
    s: StoreView,
    fs: FileTreeView,
    agents: Seq<AgentView>,
    names: Seq<Seq<char>>,
    skill: Seq<char>,
    meta: Option<InstallMetaView>,
    pack: Option<Seq<char>>,
    scope: ConfigScopeView,
    now: Timestamp,
    i: int,
)
    requires
        scope is Project,
    ensures
        ({
            let after = finishing::installed(s, fs, agents, names, skill, meta, pack, scope, now);
            0 <= i < after.1.len() ==> store::has_id(after.0.rows, after.1[i].id)
        }),
{
    let a = finishing::targets_scanned(s, fs, agents, names, scope, now);
    lemma_targets_known(s, fs, agents, names, scope, now);
    if let Some(m) = meta {
        let marked = StoreView {
            rows: finishing::with_records(a.0.rows, names, skill, m, pack, scope),
            ..a.0
        };
        assert(found_is_known((marked, a.1))) by {
            assert forall|j: int| 0 <= j < a.1.len() implies store::has_id(
                marked.rows,
                (#[trigger] a.1[j]).id,
            ) by {
                assert(store::has_id(a.0.rows, a.1[j].id));
                lemma_records_known(a.0.rows, names, skill, m, pack, scope, a.1[j].id);
            }
        }
        if let Some(dir) = finishing::install_dir(agents, names, scope) {
            lemma_siblings_known(
                (marked, a.1),
                fs,
                agents,
                names,
                dir,
                skill,
                m,
                pack,
                scope,
                now,
            );
        }
    }
}

} // verus!
