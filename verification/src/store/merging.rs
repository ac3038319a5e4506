//! What a scan does to the table, row by row: what it takes over, what it leaves as
//! the user set it, what it gives up, and where install records and packs come from.
//!
//! A scan is that of one agent, or of everything where no agent is named.

use vstd::prelude::*;

use crate::files::FileTreeView;
use crate::models::{
    AuditResultView, ConfigScopeView, ExtensionKind, ExtensionView, InstallMetaView, SourceOrigin,
};
use crate::outside;
use crate::path;
use crate::skills;
use crate::store;
use crate::store::laws;
use crate::store::sync;
use crate::store::{ProjectView, RowView, StoreView};

verus! {

/// A store after a scan of one agent, or of everything.
pub open spec fn scanned(
    s: StoreView,
    fs: FileTreeView,
    agent: Option<Seq<char>>,
    seen: Seq<ExtensionView>,
) -> StoreView {
    match agent {
        Some(a) => sync::synced(s, fs, a, seen),
        None => sync::all_synced(s, fs, seen),
    }
}

/// Whether an extension may stay whatever else holds: a scan of everything drops what
/// belongs to a project that is not known.
pub open spec fn has_home(
    projects: Seq<ProjectView>,
    agent: Option<Seq<char>>,
    scope: ConfigScopeView,
) -> bool {
    agent is Some || scope is Global || exists|i: int|
        0 <= i < projects.len() && (#[trigger] projects[i]).path == scope->path
}

/// Whether an extension is the last one of a list with its identifier.
pub open spec fn is_last_sighting(seen: Seq<ExtensionView>, k: int) -> bool {
    0 <= k < seen.len() && forall|j: int|
        k < j < seen.len() ==> (#[trigger] seen[j]).id != seen[k].id
}

/// Whether an extension is the first one of a list with its identifier.
pub open spec fn is_first_sighting(seen: Seq<ExtensionView>, k: int) -> bool {
    0 <= k < seen.len() && forall|j: int| 0 <= j < k ==> (#[trigger] seen[j]).id != seen[k].id
}

/// Whether no extension of a list has an identifier.
pub open spec fn is_unseen(seen: Seq<ExtensionView>, id: Seq<char>) -> bool {
    forall|j: int| 0 <= j < seen.len() ==> (#[trigger] seen[j]).id != id
}

// ---------------------------------------------------------------------------
// Reading
// ---------------------------------------------------------------------------

/// What stands in the table is what is read under its identifier.
pub proof fn rows_are_found_by_id(rows: Seq<RowView>, i: int)
    requires
        store::ids_distinct(rows),
        0 <= i < rows.len(),
    ensures
        store::row_with(rows, rows[i].ext.id) == Some(rows[i].ext),
    decreases rows.len(),
{
    if i > 0 {
        assert(rows[0].ext.id != rows[i].ext.id);
        let t = rows.drop_first();
        assert forall|a: int, b: int| 0 <= a < b < t.len() implies (#[trigger] t[a]).ext.id != (
        #[trigger] t[b]).ext.id by {
            assert(rows[a + 1].ext.id != rows[b + 1].ext.id);
        }
        rows_are_found_by_id(t, i - 1);
        assert(t[i - 1] == rows[i]);
    }
}

/// What is read under an identifier stands in the table and has that identifier.
pub proof fn found_rows_stand_in_the_table(rows: Seq<RowView>, id: Seq<char>) -> (i: int)
    requires
        store::row_with(rows, id) is Some,
    ensures
        0 <= i < rows.len(),
        rows[i].ext == store::row_with(rows, id)->0,
        rows[i].ext.id == id,
    decreases rows.len(),
{
    if rows[0].ext.id == id {
        0
    } else {
        found_rows_stand_in_the_table(rows.drop_first(), id) + 1
    }
}

// ---------------------------------------------------------------------------
// What was seen
// ---------------------------------------------------------------------------

proof fn lemma_upserted_rows(rows: Seq<RowView>, seen: Seq<ExtensionView>)
    requires
        store::ids_distinct(rows),
    ensures
        ({
            let a = sync::all_upserted(rows, seen);
            &&& store::ids_distinct(a)
            &&& a.len() >= rows.len()
            &&& forall|i: int|
                0 <= i < rows.len() ==> (#[trigger] a[i]).ext.id == rows[i].ext.id
                    && a[i].disabled_config == rows[i].disabled_config && a[i].ext.tags
                    == rows[i].ext.tags && a[i].ext.trust_score == rows[i].ext.trust_score
                    && a[i].ext.installed_at == rows[i].ext.installed_at && a[i].ext.install_meta
                    == rows[i].ext.install_meta && (rows[i].ext.pack is Some ==> a[i].ext.pack
                    == rows[i].ext.pack) && (rows[i].disabled_config is Some ==> a[i].ext.enabled
                    == rows[i].ext.enabled) && (is_unseen(seen, rows[i].ext.id) ==> a[i]
                    == rows[i])
            &&& forall|i: int|
                rows.len() <= i < a.len() ==> (#[trigger] a[i]).disabled_config is None
                    && a[i].ext.install_meta is None && !store::has_id(rows, a[i].ext.id)
                    && !is_unseen(seen, a[i].ext.id)
        }),
    decreases seen.len(),
{
    laws::lemma_all_upserted_distinct(rows, seen);
    if seen.len() > 0 {
        let t = seen.drop_last();
        let e = seen.last();
        let before = sync::all_upserted(rows, t);
        let a = sync::all_upserted(rows, seen);
        lemma_upserted_rows(rows, t);
        assert(seen[seen.len() - 1] == e);
        assert forall|id: Seq<char>| #[trigger] is_unseen(seen, id) implies is_unseen(t, id) && e.id
            != id by {
            assert forall|j: int| 0 <= j < t.len() implies (#[trigger] t[j]).id != id by {
                assert(seen[j].id != id);
            }
        }
        assert forall|i: int| 0 <= i < rows.len() implies (#[trigger] a[i]).ext.id == rows[i].ext.id
            && a[i].disabled_config == rows[i].disabled_config && a[i].ext.tags == rows[i].ext.tags
            && a[i].ext.trust_score == rows[i].ext.trust_score && a[i].ext.installed_at
            == rows[i].ext.installed_at && a[i].ext.install_meta == rows[i].ext.install_meta && (
        rows[i].ext.pack is Some ==> a[i].ext.pack == rows[i].ext.pack) && (
        rows[i].disabled_config is Some ==> a[i].ext.enabled == rows[i].ext.enabled) && (is_unseen(
            seen,
            rows[i].ext.id,
        ) ==> a[i] == rows[i]) by {
            assert(before[i].ext.id == rows[i].ext.id);
        }
        assert forall|i: int| rows.len() <= i < a.len() implies (
        #[trigger] a[i]).disabled_config is None && a[i].ext.install_meta is None && !store::has_id(
            rows,
            a[i].ext.id,
        ) && !is_unseen(seen, a[i].ext.id) by {
            if i < before.len() {
                assert(before[i].ext.id == a[i].ext.id);
                assert(!is_unseen(t, before[i].ext.id));
                if is_unseen(seen, a[i].ext.id) {
                    assert(is_unseen(t, a[i].ext.id));
                }
            } else {
                assert(!store::has_id(before, e.id));
                assert(a[i].ext.id == e.id);
                if store::has_id(rows, e.id) {
                    let m = choose|m: int|
                        0 <= m < rows.len() && (#[trigger] rows[m]).ext.id == e.id;
                    assert(before[m].ext.id == e.id);
                }
                assert(seen[seen.len() - 1].id == e.id);
            }
        }
    }
}

proof fn lemma_last_sighting(rows: Seq<RowView>, seen: Seq<ExtensionView>, k: int)
    requires
        store::ids_distinct(rows),
        is_last_sighting(seen, k),
    ensures
        ({
            let a = sync::all_upserted(rows, seen);
            let e = seen[k];
            &&& store::has_id(a, e.id)
            &&& forall|i: int|
                0 <= i < a.len() && (#[trigger] a[i]).ext.id == e.id ==> a[i].ext.kind == e.kind
                    && a[i].ext.name == e.name && a[i].ext.description == e.description
                    && a[i].ext.source == e.source && a[i].ext.agents == e.agents
                    && a[i].ext.permissions == e.permissions && a[i].ext.updated_at == e.updated_at
                    && a[i].ext.source_path == e.source_path && a[i].ext.cli_parent_id
                    == e.cli_parent_id && a[i].ext.cli_meta == e.cli_meta && a[i].ext.scope
                    == e.scope && (a[i].disabled_config is None ==> a[i].ext.enabled == e.enabled)
        }),
    decreases seen.len(),
{
    let t = seen.drop_last();
    let before = sync::all_upserted(rows, t);
    let a = sync::all_upserted(rows, seen);
    let e = seen[k];
    lemma_upserted_rows(rows, t);
    if k == seen.len() - 1 {
        if store::has_id(before, e.id) {
            let i = choose|i: int| 0 <= i < before.len() && (#[trigger] before[i]).ext.id == e.id;
            assert(a[i].ext.id == e.id);
        } else {
            assert(a[before.len() as int].ext.id == e.id);
            assert forall|i: int| 0 <= i < before.len() implies (#[trigger] a[i]).ext.id
                != e.id by {
                assert(a[i] == before[i]);
                assert(before[i].ext.id != e.id);
            }
        }
    } else {
        assert(t[k] == e);
        assert forall|j: int| k < j < t.len() implies (#[trigger] t[j]).id != e.id by {
            assert(seen[j].id != e.id);
        }
        lemma_last_sighting(rows, t, k);
        let last = seen.last();
        assert(seen[seen.len() - 1].id != e.id);
        let i = choose|i: int| 0 <= i < before.len() && (#[trigger] before[i]).ext.id == e.id;
        assert(a[i] == before[i]);
        assert forall|i: int| 0 <= i < a.len() && (#[trigger] a[i]).ext.id == e.id implies i
            < before.len() && a[i] == before[i] by {
            if i < before.len() {
                assert(before[i].ext.id == a[i].ext.id);
            }
        }
    }
}

proof fn lemma_first_sighting(rows: Seq<RowView>, seen: Seq<ExtensionView>, k: int)
    requires
        store::ids_distinct(rows),
        is_first_sighting(seen, k),
        !store::has_id(rows, seen[k].id),
    ensures
        ({
            let a = sync::all_upserted(rows, seen);
            let e = seen[k];
            forall|i: int|
                0 <= i < a.len() && (#[trigger] a[i]).ext.id == e.id ==> a[i].ext.tags == e.tags
                    && a[i].ext.trust_score == e.trust_score && a[i].ext.installed_at
                    == e.installed_at && (e.pack is Some ==> a[i].ext.pack == e.pack)
        }),
    decreases seen.len(),
{
    let t = seen.drop_last();
    let before = sync::all_upserted(rows, t);
    let a = sync::all_upserted(rows, seen);
    let e = seen[k];
    if k == seen.len() - 1 {
        laws::lemma_all_upserted_ids(rows, t, e.id);
        if sync::ids_of(t).contains(e.id) {
            let j = choose|j: int| 0 <= j < sync::ids_of(t).len() && sync::ids_of(t)[j] == e.id;
            assert(seen[j].id == e.id);
        }
        assert forall|i: int| 0 <= i < before.len() implies (#[trigger] a[i]).ext.id != e.id by {
            assert(a[i] == before[i]);
            assert(before[i].ext.id != e.id);
        }
    } else {
        assert(t[k] == e);
        assert forall|j: int| 0 <= j < k implies (#[trigger] t[j]).id != e.id by {
            assert(seen[j].id != e.id);
        }
        lemma_first_sighting(rows, t, k);
        laws::lemma_all_upserted_ids(rows, t, e.id);
        assert(sync::ids_of(t)[k] == e.id);
        assert(store::has_id(before, e.id));
        assert forall|i: int| 0 <= i < a.len() && (#[trigger] a[i]).ext.id == e.id implies i
            < before.len() && before[i].ext.id == e.id by {
            if i >= before.len() {
                assert(a[i].ext.id == seen.last().id);
            }
        }
    }
}

// ---------------------------------------------------------------------------
// What leaves
// ---------------------------------------------------------------------------

/// Whether a scan gives up a row that it did not see: one of the agent that was
/// scanned, that is enabled, and that has no install record; or that has one, is no
/// tool, and whose file is known to be gone. A scan of everything also gives up what
/// has no home.
pub open spec fn is_given_up(
    s: StoreView,
    fs: FileTreeView,
    agent: Option<Seq<char>>,
    e: ExtensionView,
) -> bool {
    ||| !has_home(s.projects, agent, e.scope)
    ||| {
        &&& agent is Some ==> e.agents.contains(agent->0)
        &&& e.enabled
        &&& e.install_meta is None || (e.kind != ExtensionKind::Cli && e.source_path is Some
            && !fs.at(e.source_path->0).exists)
    }
}

proof fn lemma_pruned_is_thinned(
    s: StoreView,
    fs: FileTreeView,
    rows: Seq<RowView>,
    agent: Seq<char>,
    ids: Seq<Seq<char>>,
)
    ensures
        sync::pruned(s, fs, rows, agent, ids) == sync::thinned(
            s,
            rows,
            |e: ExtensionView| sync::is_stale(fs, e, agent, ids),
        ),
    decreases rows.len(),
{
    if rows.len() > 0 {
        lemma_pruned_is_thinned(s, fs, rows.drop_last(), agent, ids);
    }
}

proof fn lemma_seen_id(seen: Seq<ExtensionView>, id: Seq<char>)
    ensures
        sync::ids_of(seen).contains(id) <==> !is_unseen(seen, id),
{
    let ids = sync::ids_of(seen);
    if ids.contains(id) {
        let j = choose|j: int| 0 <= j < ids.len() && ids[j] == id;
        assert(seen[j].id == id);
    }
    if !is_unseen(seen, id) {
        let j = choose|j: int| 0 <= j < seen.len() && (#[trigger] seen[j]).id == id;
        assert(ids[j] == id);
    }
}

proof fn lemma_orphan(projects: Seq<ProjectView>, e: ExtensionView)
    ensures
        sync::is_orphan(projects, e) <==> !has_home(projects, None, e.scope),
{
    let ps = sync::paths_of(projects);
    if let ConfigScopeView::Project { path, .. } = e.scope {
        if ps.contains(path) {
            let j = choose|j: int| 0 <= j < ps.len() && ps[j] == path;
            assert(projects[j].path == path);
        }
        if has_home(projects, None, e.scope) {
            let j = choose|j: int|
                0 <= j < projects.len() && (#[trigger] projects[j]).path == e.scope->path;
            assert(ps[j] == path);
        }
    }
}

/// The rows that a scan leaves in the table before it brings them in line: each is one
/// that was known or seen, and which of these stay is told by themselves.
proof fn lemma_scan(
    s: StoreView,
    fs: FileTreeView,
    agent: Option<Seq<char>>,
    seen: Seq<ExtensionView>,
) -> (c: Seq<RowView>)
    requires
        store::ids_distinct(s.rows),
    ensures
        ({
            let a = sync::all_upserted(s.rows, seen);
            let after = scanned(s, fs, agent, seen);
            &&& after.rows == sync::all_settled(fs, seen, c)
            &&& after.projects == s.projects
            &&& store::ids_distinct(a) && store::ids_distinct(c) && store::ids_distinct(after.rows)
            &&& forall|j: int| 0 <= j < c.len() ==> a.contains(#[trigger] c[j])
            &&& forall|i: int|
                0 <= i < a.len() ==> (store::has_id(c, (#[trigger] a[i]).ext.id) <==> !(if is_unseen(
                    seen,
                    a[i].ext.id,
                ) {
                    is_given_up(s, fs, agent, a[i].ext)
                } else {
                    !has_home(s.projects, agent, a[i].ext.scope)
                }))
        }),
{
    let a = sync::all_upserted(s.rows, seen);
    let st = StoreView { rows: a, ..s };
    let ids = sync::ids_of(seen);
    laws::lemma_all_upserted_distinct(s.rows, seen);
    match agent {
        Some(g) => {
            let stale = |e: ExtensionView| sync::is_stale(fs, e, g, ids);
            lemma_pruned_is_thinned(st, fs, a, g, ids);
            let b = sync::thinned(st, a, stale);
            laws::lemma_thinned(st, a, stale);
            lemma_thinned_projects(st, a, stale);
            assert forall|i: int| 0 <= i < a.len() implies (store::has_id(
                b.rows,
                (#[trigger] a[i]).ext.id,
            ) <==> !(if is_unseen(seen, a[i].ext.id) {
                is_given_up(s, fs, agent, a[i].ext)
            } else {
                !has_home(s.projects, agent, a[i].ext.scope)
            })) by {
                laws::lemma_thinned_itself(st, stale, i);
                lemma_seen_id(seen, a[i].ext.id);
            }
            assert(laws::same_ids(b.rows, sync::all_settled(fs, seen, b.rows)));
            laws::lemma_same_ids_distinct(b.rows, sync::all_settled(fs, seen, b.rows));
            b.rows
        },
        None => {
            let orphan = |e: ExtensionView| sync::is_orphan(s.projects, e);
            let gone = |e: ExtensionView| sync::is_gone(fs, e, ids);
            let b = sync::thinned(st, a, orphan);
            let c = sync::thinned(b, b.rows, gone);
            laws::lemma_thinned(st, a, orphan);
            laws::lemma_thinned(b, b.rows, gone);
            lemma_thinned_projects(st, a, orphan);
            lemma_thinned_projects(b, b.rows, gone);
            assert forall|j: int| 0 <= j < c.rows.len() implies a.contains(
                #[trigger] c.rows[j],
            ) by {
                assert(b.rows.contains(c.rows[j]));
                let m = choose|m: int| 0 <= m < b.rows.len() && b.rows[m] == c.rows[j];
                assert(a.contains(b.rows[m]));
            }
            assert forall|i: int| 0 <= i < a.len() implies (store::has_id(
                c.rows,
                (#[trigger] a[i]).ext.id,
            ) <==> !(if is_unseen(seen, a[i].ext.id) {
                is_given_up(s, fs, agent, a[i].ext)
            } else {
                !has_home(s.projects, agent, a[i].ext.scope)
            })) by {
                let id = a[i].ext.id;
                laws::lemma_thinned_itself(st, orphan, i);
                lemma_seen_id(seen, id);
                lemma_orphan(s.projects, a[i].ext);
                if store::has_id(b.rows, id) {
                    let m = choose|m: int|
                        0 <= m < b.rows.len() && (#[trigger] b.rows[m]).ext.id == id;
                    assert(a.contains(b.rows[m]));
                    let q = choose|q: int| 0 <= q < a.len() && a[q] == b.rows[m];
                    assert(a[q].ext.id == a[i].ext.id);
                    assert(q == i);
                    laws::lemma_thinned_itself(b, gone, m);
                }
            }
            assert(laws::same_ids(c.rows, sync::all_settled(fs, seen, c.rows)));
            laws::lemma_same_ids_distinct(c.rows, sync::all_settled(fs, seen, c.rows));
            c.rows
        },
    }
}

proof fn lemma_thinned_projects(
    s: StoreView,
    rows: Seq<RowView>,
    leaves: spec_fn(ExtensionView) -> bool,
)
    ensures
        sync::thinned(s, rows, leaves).projects == s.projects,
    decreases rows.len(),
{
    if rows.len() > 0 {
        lemma_thinned_projects(s, rows.drop_last(), leaves);
    }
}

// ---------------------------------------------------------------------------
// Laws
// ---------------------------------------------------------------------------

/// What a row is like once it was brought in line: nothing but its install record and
/// its pack changes.
proof fn lemma_settled_row(fs: FileTreeView, seen: Seq<ExtensionView>, c: Seq<RowView>, j: int)
    requires
        0 <= j < c.len(),
    ensures
        ({
            let t = sync::all_settled(fs, seen, c)[j];
            &&& sync::all_settled(fs, seen, c).len() == c.len()
            &&& t.disabled_config == c[j].disabled_config
            &&& t.ext == (ExtensionView {
                install_meta: t.ext.install_meta,
                pack: t.ext.pack,
                ..c[j].ext
            })
        }),
{
}

/// The row that a scan leaves under an identifier, and the one that it comes from.
proof fn lemma_row_after(
    s: StoreView,
    fs: FileTreeView,
    agent: Option<Seq<char>>,
    seen: Seq<ExtensionView>,
    id: Seq<char>,
) -> (r: (Seq<RowView>, int, int))
    requires
        store::ids_distinct(s.rows),
        store::has_id(scanned(s, fs, agent, seen).rows, id),
    ensures
        ({
            let (c, j, i) = r;
            let a = sync::all_upserted(s.rows, seen);
            let rows = scanned(s, fs, agent, seen).rows;
            &&& rows == sync::all_settled(fs, seen, c)
            &&& store::ids_distinct(c) && store::ids_distinct(rows)
            &&& 0 <= j < c.len() && c.len() == rows.len() && 0 <= i < a.len()
            &&& rows[j].ext.id == id && c[j] == a[i] && a[i].ext.id == id
            &&& store::row_with(rows, id) == Some(rows[j].ext)
        }),
{
    let c = lemma_scan(s, fs, agent, seen);
    let a = sync::all_upserted(s.rows, seen);
    let rows = scanned(s, fs, agent, seen).rows;
    let j = choose|j: int| 0 <= j < rows.len() && (#[trigger] rows[j]).ext.id == id;
    lemma_settled_row(fs, seen, c, j);
    assert(a.contains(c[j]));
    let i = choose|i: int| 0 <= i < a.len() && a[i] == c[j];
    rows_are_found_by_id(rows, j);
    (c, j, i)
}

/// A scan takes over what it saw. Whether or not the extension was known, it is known
/// afterwards, as it was last seen: its kind, name, description, source, agents,
/// permissions, time of change, path, tool and scope are those of the sighting; and it
/// is enabled as it was seen, unless it was disabled by taking it out of a
/// configuration file. The one exception is a scan of everything that saw it in a
/// project that is not known.
pub proof fn scan_takes_over_what_it_saw(
    s: StoreView,
    fs: FileTreeView,
    agent: Option<Seq<char>>,
    seen: Seq<ExtensionView>,
    k: int,
)
    requires
        store::ids_distinct(s.rows),
        is_last_sighting(seen, k),
    ensures
        ({
            let e = seen[k];
            let after = scanned(s, fs, agent, seen).rows;
            &&& has_home(s.projects, agent, e.scope) <==> store::row_with(after, e.id) is Some
            &&& store::row_with(after, e.id) matches Some(t) ==> t.id == e.id && t.kind == e.kind
                && t.name == e.name && t.description == e.description && t.source == e.source
                && t.agents == e.agents && t.permissions == e.permissions && t.updated_at
                == e.updated_at && t.source_path == e.source_path && t.cli_parent_id
                == e.cli_parent_id && t.cli_meta == e.cli_meta && t.scope == e.scope && ((forall|
                i: int,
            |
                0 <= i < s.rows.len() && (#[trigger] s.rows[i]).ext.id == e.id
                    ==> s.rows[i].disabled_config is None) ==> t.enabled == e.enabled)
        }),
{
    let e = seen[k];
    let a = sync::all_upserted(s.rows, seen);
    let after = scanned(s, fs, agent, seen).rows;
    let c0 = lemma_scan(s, fs, agent, seen);
    lemma_last_sighting(s.rows, seen, k);
    lemma_upserted_rows(s.rows, seen);
    let i0 = choose|i: int| 0 <= i < a.len() && (#[trigger] a[i]).ext.id == e.id;
    assert(!is_unseen(seen, e.id)) by {
        assert(seen[k].id == e.id);
    }
    assert(store::has_id(c0, a[i0].ext.id) <==> has_home(s.projects, agent, e.scope));
    assert(laws::same_ids(c0, after));
    laws::lemma_same_ids_has(c0, after, e.id);
    laws::known_rows_are_found(after, e.id);
    if store::has_id(after, e.id) {
        let (c, j, i) = lemma_row_after(s, fs, agent, seen, e.id);
        lemma_settled_row(fs, seen, c, j);
        assert(a[i].ext.id == e.id);
        if forall|i: int|
            0 <= i < s.rows.len() && (#[trigger] s.rows[i]).ext.id == e.id
                ==> s.rows[i].disabled_config is None {
            if i < s.rows.len() {
                assert(s.rows[i].ext.id == e.id);
                assert(a[i].disabled_config == s.rows[i].disabled_config);
            }
            assert(a[i].disabled_config is None);
        }
    }
}

/// A scan leaves what the user set: the tags, the score and the time of installation
/// of a known extension stay, seen or not, and so does whether it is enabled where it
/// was disabled by taking it out of a configuration file.
pub proof fn scan_leaves_what_the_user_set(
    s: StoreView,
    fs: FileTreeView,
    agent: Option<Seq<char>>,
    seen: Seq<ExtensionView>,
    i: int,
)
    requires
        store::ids_distinct(s.rows),
        0 <= i < s.rows.len(),
    ensures
        ({
            let r = s.rows[i];
            let after = scanned(s, fs, agent, seen).rows;
            store::row_with(after, r.ext.id) matches Some(t) ==> t.tags == r.ext.tags
                && t.trust_score == r.ext.trust_score && t.installed_at == r.ext.installed_at && (
            r.disabled_config is Some ==> t.enabled == r.ext.enabled)
        }),
        forall|j: int|
            0 <= j < scanned(s, fs, agent, seen).rows.len() && (#[trigger] scanned(
                s,
                fs,
                agent,
                seen,
            ).rows[j]).ext.id == s.rows[i].ext.id ==> scanned(
                s,
                fs,
                agent,
                seen,
            ).rows[j].disabled_config == s.rows[i].disabled_config,
{
    let id = s.rows[i].ext.id;
    let a = sync::all_upserted(s.rows, seen);
    let after = scanned(s, fs, agent, seen).rows;
    lemma_upserted_rows(s.rows, seen);
    laws::known_rows_are_found(after, id);
    if store::has_id(after, id) {
        let (c, j, m) = lemma_row_after(s, fs, agent, seen, id);
        lemma_settled_row(fs, seen, c, j);
        assert(a[i].ext.id == a[m].ext.id);
        assert(m == i);
        assert forall|q: int| 0 <= q < after.len() && (#[trigger] after[q]).ext.id == id implies q
            == j by {
            assert(after[q].ext.id == after[j].ext.id);
        }
    }
}

/// An extension that was not known gets the tags, the score and the time of
/// installation with which it was first seen; it was not taken out of any
/// configuration file.
pub proof fn scan_records_new_extensions(
    s: StoreView,
    fs: FileTreeView,
    agent: Option<Seq<char>>,
    seen: Seq<ExtensionView>,
    k: int,
)
    requires
        store::ids_distinct(s.rows),
        is_first_sighting(seen, k),
        store::row_with(s.rows, seen[k].id) is None,
    ensures
        ({
            let e = seen[k];
            let after = scanned(s, fs, agent, seen).rows;
            &&& store::row_with(after, e.id) matches Some(t) ==> t.tags == e.tags && t.trust_score
                == e.trust_score && t.installed_at == e.installed_at
            &&& forall|j: int|
                0 <= j < after.len() && (#[trigger] after[j]).ext.id == e.id
                    ==> after[j].disabled_config is None
        }),
{
    let e = seen[k];
    let a = sync::all_upserted(s.rows, seen);
    let after = scanned(s, fs, agent, seen).rows;
    laws::known_rows_are_found(s.rows, e.id);
    lemma_first_sighting(s.rows, seen, k);
    lemma_upserted_rows(s.rows, seen);
    laws::known_rows_are_found(after, e.id);
    if store::has_id(after, e.id) {
        let (c, j, i) = lemma_row_after(s, fs, agent, seen, e.id);
        lemma_settled_row(fs, seen, c, j);
        if i < s.rows.len() {
            assert(s.rows[i].ext.id == a[i].ext.id);
        }
        assert forall|q: int| 0 <= q < after.len() && (#[trigger] after[q]).ext.id
            == e.id implies q == j by {
            assert(after[q].ext.id == after[j].ext.id);
        }
    }
}

/// A scan gives up exactly the rows that it did not see and that are gone: those of
/// the agent that was scanned, enabled, without an install record; with one, only if
/// they are no tools and their file is known to be gone. A scan of everything also
/// gives up what belongs to a project that is not known. What stays unseen keeps all
/// but its install record and its pack.
pub proof fn scan_gives_up_exactly_what_is_gone(
    s: StoreView,
    fs: FileTreeView,
    agent: Option<Seq<char>>,
    seen: Seq<ExtensionView>,
    i: int,
)
    requires
        store::ids_distinct(s.rows),
        0 <= i < s.rows.len(),
        is_unseen(seen, s.rows[i].ext.id),
    ensures
        ({
            let e = s.rows[i].ext;
            let after = scanned(s, fs, agent, seen).rows;
            let gone = (agent is Some ==> e.agents.contains(agent->0)) && e.enabled && (
            e.install_meta is None || (e.kind != ExtensionKind::Cli && e.source_path is Some
                && !fs.at(e.source_path->0).exists));
            let lost = agent is None && (e.scope matches ConfigScopeView::Project { path, .. }
                && forall|q: int|
                0 <= q < s.projects.len() ==> (#[trigger] s.projects[q]).path != path);
            &&& store::row_with(after, e.id) is None <==> gone || lost
            &&& store::row_with(after, e.id) matches Some(t) ==> t == (ExtensionView {
                install_meta: t.install_meta,
                pack: t.pack,
                ..e
            })
        }),
{
    let e = s.rows[i].ext;
    let a = sync::all_upserted(s.rows, seen);
    let after = scanned(s, fs, agent, seen).rows;
    let c0 = lemma_scan(s, fs, agent, seen);
    lemma_upserted_rows(s.rows, seen);
    assert(a[i] == s.rows[i]);
    assert(laws::same_ids(c0, after));
    laws::lemma_same_ids_has(c0, after, e.id);
    laws::known_rows_are_found(after, e.id);
    assert(store::has_id(c0, a[i].ext.id) <==> !is_given_up(s, fs, agent, e));
    if store::has_id(after, e.id) {
        let (c, j, m) = lemma_row_after(s, fs, agent, seen, e.id);
        lemma_settled_row(fs, seen, c, j);
        assert(a[i].ext.id == a[m].ext.id);
        assert(m == i);
    }
}

/// A scan makes up no extensions: each one that is known afterwards was known before
/// or was seen; and it leaves the projects alone.
pub proof fn scan_makes_up_nothing(
    s: StoreView,
    fs: FileTreeView,
    agent: Option<Seq<char>>,
    seen: Seq<ExtensionView>,
    id: Seq<char>,
)
    requires
        store::ids_distinct(s.rows),
    ensures
        store::row_with(scanned(s, fs, agent, seen).rows, id) is Some ==> store::row_with(
            s.rows,
            id,
        ) is Some || !is_unseen(seen, id),
        scanned(s, fs, agent, seen).projects == s.projects,
        store::ids_distinct(scanned(s, fs, agent, seen).rows),
{
    let c = lemma_scan(s, fs, agent, seen);
    let after = scanned(s, fs, agent, seen).rows;
    laws::known_rows_are_found(after, id);
    laws::known_rows_are_found(s.rows, id);
    if store::has_id(after, id) {
        let (c, j, i) = lemma_row_after(s, fs, agent, seen, id);
        assert(store::has_id(sync::all_upserted(s.rows, seen), id));
        laws::lemma_all_upserted_ids(s.rows, seen, id);
        lemma_seen_id(seen, id);
    }
}

// ---------------------------------------------------------------------------
// Install records
// ---------------------------------------------------------------------------

/// Whether an install record says where things come from and which revision they
/// have, and nothing else.
pub open spec fn is_bare_record(
    m: InstallMetaView,
    install_type: Seq<char>,
    url: Option<Seq<char>>,
    revision: Option<Seq<char>>,
) -> bool {
    &&& m.install_type == install_type
    &&& m.url == url
    &&& m.revision == revision
    &&& m.url_resolved is None && m.branch is None && m.subpath is None
    &&& m.remote_revision is None && m.checked_at is None && m.check_error is None
}

/// Whether a skill that was seen lies behind a link and in no repository: the link is
/// the directory of its `SKILL.md`, or its file itself.
pub open spec fn lies_behind_link(fs: FileTreeView, e: ExtensionView) -> bool {
    &&& e.kind == ExtensionKind::Skill
    &&& e.source.origin != SourceOrigin::Git
    &&& e.source_path matches Some(p) && (if path::file_name_of(p) == Some("SKILL.md"@)
        && path::parent_of(p) is Some {
        fs.at(path::parent_of(p)->0).is_symlink
    } else {
        fs.at(p).is_symlink
    })
}

/// Whether two addresses are known to name different repositories: the first names a
/// pack, and the second names none or another one, in lower case.
pub open spec fn name_different_packs(a: Option<Seq<char>>, b: Option<Seq<char>>) -> bool {
    skills::pack_of_url(a) matches Some(x) && (skills::pack_of_url(b) matches Some(y)
        ==> outside::lowercase(x) != outside::lowercase(y))
}

proof fn lemma_settled_record(fs: FileTreeView, seen: Seq<ExtensionView>, c: Seq<RowView>, j: int)
    requires
        0 <= j < c.len(),
    ensures
        ({
            let e = c[j].ext;
            let t = sync::all_settled(fs, seen, c)[j].ext;
            let linked = exists|q: int|
                0 <= q < seen.len() && (#[trigger] seen[q]).id == e.id && lies_behind_link(
                    fs,
                    seen[q],
                );
            let moved = (e.kind == ExtensionKind::Skill || e.kind == ExtensionKind::Plugin)
                && e.source.from_manifest && e.install_meta is Some && name_different_packs(
                e.source.url,
                e.install_meta->0.url,
            );
            let in_repository = e.source.origin == SourceOrigin::Git && e.source.url is Some;
            match e.install_meta {
                Some(m) => if m.install_type != "git"@ {
                    t.install_meta == Some(m)
                } else if linked {
                    t.install_meta is None
                } else if moved {
                    t.install_meta is Some && is_bare_record(
                        t.install_meta->0,
                        "git"@,
                        e.source.url,
                        e.source.commit_hash,
                    )
                } else {
                    t.install_meta == Some(m)
                },
                None => if in_repository && linked {
                    t.install_meta is None
                } else if in_repository {
                    t.install_meta is Some && is_bare_record(
                        t.install_meta->0,
                        "git"@,
                        e.source.url,
                        e.source.commit_hash,
                    )
                } else if e.kind == ExtensionKind::Cli && e.cli_meta is Some {
                    t.install_meta is Some && is_bare_record(
                        t.install_meta->0,
                        "cli-registry"@,
                        None,
                        None,
                    )
                } else {
                    t.install_meta is None
                },
            }
        }),
{
    reveal_strlit("git");
    reveal_strlit("cli-registry");
    assert("git"@.len() != "cli-registry"@.len());
    let e = c[j].ext;
    let linked = exists|q: int|
        0 <= q < seen.len() && (#[trigger] seen[q]).id == e.id && lies_behind_link(fs, seen[q]);
    assert(forall|x: ExtensionView| #[trigger]
        sync::is_linked_skill(fs, x) == lies_behind_link(fs, x));
    if linked {
        let q = choose|q: int|
            0 <= q < seen.len() && (#[trigger] seen[q]).id == e.id && lies_behind_link(fs, seen[q]);
        assert(sync::is_linked_skill(fs, seen[q]));
    }
    if sync::is_linked_id(fs, seen, e.id) {
        let q = choose|q: int|
            0 <= q < seen.len() && (#[trigger] seen[q]).id == e.id && sync::is_linked_skill(
                fs,
                seen[q],
            );
        assert(lies_behind_link(fs, seen[q]));
    }
    assert(linked == sync::is_linked_id(fs, seen, e.id));
}

/// Where the install record of a known extension comes from after a scan, seen or not.
/// A record of another kind than `git` stays. A `git` record is dropped if the scan
/// saw the extension as a skill behind a link and in no repository; it is made anew if
/// a manifest names another repository; else it stays.
pub proof fn scan_keeps_install_records(
    s: StoreView,
    fs: FileTreeView,
    agent: Option<Seq<char>>,
    seen: Seq<ExtensionView>,
    i: int,
)
    requires
        store::ids_distinct(s.rows),
        0 <= i < s.rows.len(),
        s.rows[i].ext.install_meta is Some,
    ensures
        ({
            let id = s.rows[i].ext.id;
            let m = s.rows[i].ext.install_meta->0;
            let linked = exists|q: int|
                0 <= q < seen.len() && (#[trigger] seen[q]).id == id && lies_behind_link(
                    fs,
                    seen[q],
                );
            store::row_with(scanned(s, fs, agent, seen).rows, id) matches Some(t) ==> {
                let moved = (t.kind == ExtensionKind::Skill || t.kind == ExtensionKind::Plugin)
                    && t.source.from_manifest && name_different_packs(t.source.url, m.url);
                &&& m.install_type != "git"@ ==> t.install_meta == Some(m)
                &&& m.install_type == "git"@ && linked ==> t.install_meta is None
                &&& m.install_type == "git"@ && !linked && moved ==> t.install_meta is Some
                    && is_bare_record(
                    t.install_meta->0,
                    "git"@,
                    t.source.url,
                    t.source.commit_hash,
                )
                &&& m.install_type == "git"@ && !linked && !moved ==> t.install_meta == Some(m)
            }
        }),
{
    let id = s.rows[i].ext.id;
    let a = sync::all_upserted(s.rows, seen);
    let after = scanned(s, fs, agent, seen).rows;
    lemma_upserted_rows(s.rows, seen);
    laws::known_rows_are_found(after, id);
    if store::has_id(after, id) {
        let (c, j, m) = lemma_row_after(s, fs, agent, seen, id);
        lemma_settled_row(fs, seen, c, j);
        lemma_settled_record(fs, seen, c, j);
        assert(a[i].ext.id == a[m].ext.id);
        assert(m == i);
    }
}

/// An extension without an install record, known or new, gets one from a scan exactly
/// if it comes from a repository with an address, whose address and commit the record
/// then names, or else is a tool; a skill that was seen behind a link gets none.
pub proof fn scan_fills_in_install_records(
    s: StoreView,
    fs: FileTreeView,
    agent: Option<Seq<char>>,
    seen: Seq<ExtensionView>,
    id: Seq<char>,
)
    requires
        store::ids_distinct(s.rows),
        store::row_with(s.rows, id) matches Some(e) ==> e.install_meta is None,
    ensures
        ({
            let linked = exists|q: int|
                0 <= q < seen.len() && (#[trigger] seen[q]).id == id && lies_behind_link(
                    fs,
                    seen[q],
                );
            store::row_with(scanned(s, fs, agent, seen).rows, id) matches Some(t) ==> {
                let in_repository = t.source.origin == SourceOrigin::Git && t.source.url is Some;
                let is_tool = t.kind == ExtensionKind::Cli && t.cli_meta is Some;
                &&& t.install_meta is Some <==> (in_repository && !linked) || (!in_repository
                    && is_tool)
                &&& t.install_meta is Some && in_repository ==> is_bare_record(
                    t.install_meta->0,
                    "git"@,
                    t.source.url,
                    t.source.commit_hash,
                )
                &&& t.install_meta is Some && !in_repository ==> is_bare_record(
                    t.install_meta->0,
                    "cli-registry"@,
                    None,
                    None,
                )
            }
        }),
{
    let a = sync::all_upserted(s.rows, seen);
    let after = scanned(s, fs, agent, seen).rows;
    lemma_upserted_rows(s.rows, seen);
    laws::known_rows_are_found(after, id);
    if store::has_id(after, id) {
        let (c, j, m) = lemma_row_after(s, fs, agent, seen, id);
        lemma_settled_row(fs, seen, c, j);
        lemma_settled_record(fs, seen, c, j);
        if m < s.rows.len() {
            assert(a[m].ext.id == s.rows[m].ext.id);
            rows_are_found_by_id(s.rows, m);
        }
        assert(a[m].ext.install_meta is None);
    }
}

// ---------------------------------------------------------------------------
// Packs
// ---------------------------------------------------------------------------

/// The address that tells the pack of an extension: the one that it was installed
/// from, else the one that it comes from.
pub open spec fn telling_url(e: ExtensionView) -> Option<Seq<char>> {
    if e.install_meta is Some && e.install_meta->0.url is Some {
        e.install_meta->0.url
    } else {
        e.source.url
    }
}

/// Whether a scan that saw an extension once, or not at all, has no say in the pack
/// that it had before: that is `before`, by the table or else by the sighting.
pub open spec fn had_pack(
    rows: Seq<RowView>,
    seen: Seq<ExtensionView>,
    id: Seq<char>,
    before: Option<Seq<char>>,
) -> bool {
    let known = store::row_with(rows, id);
    ||| known is Some && is_unseen(seen, id) && before == known->0.pack
    ||| exists|k: int|
        0 <= k < seen.len() && (#[trigger] seen[k]).id == id && is_first_sighting(seen, k)
            && is_last_sighting(seen, k) && before == (if known is Some && known->0.pack is Some {
            known->0.pack
        } else {
            seen[k].pack
        })
}

proof fn lemma_pack_seen_once(rows: Seq<RowView>, seen: Seq<ExtensionView>, k: int, m: int)
    requires
        store::ids_distinct(rows),
        is_first_sighting(seen, k),
        is_last_sighting(seen, k),
        0 <= m < sync::all_upserted(rows, seen).len(),
        sync::all_upserted(rows, seen)[m].ext.id == seen[k].id,
    ensures
        sync::all_upserted(rows, seen)[m].ext.pack == (if m < rows.len() && rows[m].ext.pack is Some {
            rows[m].ext.pack
        } else {
            seen[k].pack
        }),
    decreases seen.len(),
{
    let t = seen.drop_last();
    let before = sync::all_upserted(rows, t);
    let a = sync::all_upserted(rows, seen);
    let e = seen[k];
    lemma_upserted_rows(rows, t);
    lemma_upserted_rows(rows, seen);
    if k == seen.len() - 1 {
        assert(is_unseen(t, e.id)) by {
            assert forall|j: int| 0 <= j < t.len() implies (#[trigger] t[j]).id != e.id by {
                assert(seen[j].id != e.id);
            }
        }
        if m < before.len() {
            assert(before[m].ext.id == e.id);
            if m >= rows.len() {
                assert(!is_unseen(t, before[m].ext.id));
            }
        }
    } else {
        assert(t[k] == e);
        assert forall|j: int| 0 <= j < k implies (#[trigger] t[j]).id != e.id by {
            assert(seen[j].id != e.id);
        }
        assert forall|j: int| k < j < t.len() implies (#[trigger] t[j]).id != e.id by {
            assert(seen[j].id != e.id);
        }
        assert(seen[seen.len() - 1].id != e.id);
        assert(m < before.len());
        assert(before[m].ext.id == e.id);
        lemma_pack_seen_once(rows, t, k, m);
    }
}

proof fn lemma_had_pack(
    rows: Seq<RowView>,
    seen: Seq<ExtensionView>,
    id: Seq<char>,
    before: Option<Seq<char>>,
    m: int,
)
    requires
        store::ids_distinct(rows),
        had_pack(rows, seen, id, before),
        0 <= m < sync::all_upserted(rows, seen).len(),
        sync::all_upserted(rows, seen)[m].ext.id == id,
    ensures
        sync::all_upserted(rows, seen)[m].ext.pack == before,
{
    let known = store::row_with(rows, id);
    lemma_upserted_rows(rows, seen);
    if m < rows.len() {
        assert(rows[m].ext.id == id);
        rows_are_found_by_id(rows, m);
    } else {
        laws::known_rows_are_found(rows, id);
    }
    if known is Some && is_unseen(seen, id) && before == known->0.pack {
    } else {
        let k = choose|k: int|
            0 <= k < seen.len() && (#[trigger] seen[k]).id == id && is_first_sighting(seen, k)
                && is_last_sighting(seen, k) && before == (if known is Some
                && known->0.pack is Some {
                known->0.pack
            } else {
                seen[k].pack
            });
        lemma_pack_seen_once(rows, seen, k, m);
    }
}

/// A pack that an extension has stays through a scan, unless its `git` record is
/// dropped or made anew: then the pack is told anew as well.
pub proof fn scan_keeps_packs(
    s: StoreView,
    fs: FileTreeView,
    agent: Option<Seq<char>>,
    seen: Seq<ExtensionView>,
    id: Seq<char>,
    before: Seq<char>,
)
    requires
        store::ids_distinct(s.rows),
        had_pack(s.rows, seen, id, Some(before)),
        !exists|q: int|
            0 <= q < seen.len() && (#[trigger] seen[q]).id == id && lies_behind_link(fs, seen[q]),
    ensures
        store::row_with(scanned(s, fs, agent, seen).rows, id) matches Some(t) ==> ((store::row_with(
            s.rows,
            id,
        ) matches Some(old) ==> (old.install_meta is Some ==> t.install_meta == old.install_meta))
            ==> t.pack == Some(before)),
{
    let a = sync::all_upserted(s.rows, seen);
    let after = scanned(s, fs, agent, seen).rows;
    lemma_upserted_rows(s.rows, seen);
    laws::known_rows_are_found(after, id);
    if store::has_id(after, id) {
        let (c, j, m) = lemma_row_after(s, fs, agent, seen, id);
        lemma_settled_row(fs, seen, c, j);
        lemma_settled_record(fs, seen, c, j);
        lemma_had_pack(s.rows, seen, id, Some(before), m);
        if m < s.rows.len() {
            assert(a[m].ext.id == s.rows[m].ext.id);
            rows_are_found_by_id(s.rows, m);
        }
        assert(!sync::is_linked_id(fs, seen, id)) by {
            if sync::is_linked_id(fs, seen, id) {
                let q = choose|q: int|
                    0 <= q < seen.len() && (#[trigger] seen[q]).id == id && sync::is_linked_skill(
                        fs,
                        seen[q],
                    );
                assert(lies_behind_link(fs, seen[q]));
            }
        }
    }
}

/// An extension without a pack gets the one that its address names: that of its
/// install record, or else of its source. If the address names none, only a tool, or
/// what belongs to a tool, can get a pack at all.
pub proof fn scan_fills_in_packs(
    s: StoreView,
    fs: FileTreeView,
    agent: Option<Seq<char>>,
    seen: Seq<ExtensionView>,
    id: Seq<char>,
)
    requires
        store::ids_distinct(s.rows),
        had_pack(s.rows, seen, id, None),
    ensures
        store::row_with(scanned(s, fs, agent, seen).rows, id) matches Some(t) ==> {
            &&& skills::pack_of_url(telling_url(t)) is Some ==> t.pack == skills::pack_of_url(
                telling_url(t),
            )
            &&& skills::pack_of_url(telling_url(t)) is None && t.kind != ExtensionKind::Cli
                && t.cli_parent_id is None ==> t.pack is None
        },
{
    let after = scanned(s, fs, agent, seen).rows;
    laws::known_rows_are_found(after, id);
    if store::has_id(after, id) {
        let (c, j, m) = lemma_row_after(s, fs, agent, seen, id);
        lemma_settled_row(fs, seen, c, j);
        lemma_had_pack(s.rows, seen, id, None, m);
    }
}

/// After a scan a tool and what belongs to it share the pack: where one of them has a
/// pack, the other has one, too.
pub proof fn scan_spreads_packs_of_tools(
    s: StoreView,
    fs: FileTreeView,
    agent: Option<Seq<char>>,
    seen: Seq<ExtensionView>,
    tool: int,
    child: int,
)
    requires
        store::ids_distinct(s.rows),
        0 <= tool < scanned(s, fs, agent, seen).rows.len(),
        0 <= child < scanned(s, fs, agent, seen).rows.len(),
        scanned(s, fs, agent, seen).rows[tool].ext.kind == ExtensionKind::Cli,
        scanned(s, fs, agent, seen).rows[tool].ext.cli_parent_id is None,
        scanned(s, fs, agent, seen).rows[child].ext.kind != ExtensionKind::Cli,
        scanned(s, fs, agent, seen).rows[child].ext.cli_parent_id == Some(
            scanned(s, fs, agent, seen).rows[tool].ext.id,
        ),
    ensures
        scanned(s, fs, agent, seen).rows[tool].ext.pack is Some <==> scanned(
            s,
            fs,
            agent,
            seen,
        ).rows[child].ext.pack is Some,
{
    let c = lemma_scan(s, fs, agent, seen);
    let rows = scanned(s, fs, agent, seen).rows;
    let a = c.map_values(|r: RowView| sync::settled(fs, seen, r));
    let b = a.map_values(|r: RowView| sync::with_child_pack(a, r));
    let id = rows[tool].ext.id;
    assert(rows == b.map_values(|r: RowView| sync::with_parent_pack(b, r)));
    assert(laws::same_ids(c, b));
    laws::lemma_same_ids_distinct(c, b);
    assert(rows[tool] == sync::with_parent_pack(b, b[tool]));
    assert(rows[child] == sync::with_parent_pack(b, b[child]));
    assert(b[tool] == sync::with_child_pack(a, a[tool]));
    assert(b[child] == sync::with_child_pack(a, a[child]));
    if a[child].ext.pack is Some {
        lemma_child_pack(a, id, child);
    }
    if b[tool].ext.pack is Some {
        lemma_pack_of_id(b, tool);
    } else {
        lemma_no_pack_of_id(b, id, tool);
    }
}

proof fn lemma_child_pack(rows: Seq<RowView>, id: Seq<char>, i: int)
    requires
        0 <= i < rows.len(),
        rows[i].ext.cli_parent_id == Some(id),
        rows[i].ext.pack is Some,
    ensures
        sync::child_pack(rows, id) is Some,
    decreases rows.len(),
{
    if i > 0 {
        lemma_child_pack(rows.drop_first(), id, i - 1);
    }
}

proof fn lemma_pack_of_id(rows: Seq<RowView>, i: int)
    requires
        0 <= i < rows.len(),
        rows[i].ext.pack is Some,
        store::ids_distinct(rows),
    ensures
        sync::pack_of_id(rows, rows[i].ext.id) == rows[i].ext.pack,
    decreases rows.len(),
{
    if i > 0 {
        assert(rows[0].ext.id != rows[i].ext.id);
        let t = rows.drop_first();
        assert forall|a: int, b: int| 0 <= a < b < t.len() implies (#[trigger] t[a]).ext.id != (
        #[trigger] t[b]).ext.id by {
            assert(rows[a + 1].ext.id != rows[b + 1].ext.id);
        }
        lemma_pack_of_id(t, i - 1);
        assert(t[i - 1] == rows[i]);
    }
}

proof fn lemma_no_pack_of_id(rows: Seq<RowView>, id: Seq<char>, i: int)
    requires
        0 <= i < rows.len(),
        rows[i].ext.id == id,
        rows[i].ext.pack is None,
        store::ids_distinct(rows),
    ensures
        sync::pack_of_id(rows, id) is None,
{
    lemma_pack_of_id_from(rows, id);
    if sync::pack_of_id(rows, id) is Some {
        let k = choose|k: int|
            0 <= k < rows.len() && (#[trigger] rows[k]).ext.id == id && rows[k].ext.pack
                == sync::pack_of_id(rows, id);
        assert(rows[k].ext.id == rows[i].ext.id);
    }
}

proof fn lemma_pack_of_id_from(rows: Seq<RowView>, id: Seq<char>)
    ensures
        sync::pack_of_id(rows, id) is Some ==> exists|k: int|
            0 <= k < rows.len() && (#[trigger] rows[k]).ext.id == id && rows[k].ext.pack
                == sync::pack_of_id(rows, id),
    decreases rows.len(),
{
    if rows.len() > 0 {
        let t = rows.drop_first();
        lemma_pack_of_id_from(t, id);
        if rows[0].ext.id == id && rows[0].ext.pack is Some {
            assert(rows[0].ext.id == id);
        } else if sync::pack_of_id(rows, id) is Some {
            let k = choose|k: int|
                0 <= k < t.len() && (#[trigger] t[k]).ext.id == id && t[k].ext.pack
                    == sync::pack_of_id(t, id);
            assert(rows[k + 1] == t[k]);
        }
    }
}

/// What belongs to a tool and has no pack by itself gets the pack of the tool.
pub proof fn scan_hands_packs_down(
    s: StoreView,
    fs: FileTreeView,
    agent: Option<Seq<char>>,
    seen: Seq<ExtensionView>,
    tool: Seq<char>,
    child: Seq<char>,
)
    requires
        store::ids_distinct(s.rows),
        had_pack(s.rows, seen, child, None),
    ensures
        ({
            let rows = scanned(s, fs, agent, seen).rows;
            store::row_with(rows, child) matches Some(x) ==> (store::row_with(rows, tool) matches Some(
                t,
            ) ==> (x.cli_parent_id == Some(tool) && x.kind != ExtensionKind::Cli
                && t.cli_parent_id is None && skills::pack_of_url(telling_url(x)) is None ==> x.pack
                == t.pack))
        }),
{
    let rows = scanned(s, fs, agent, seen).rows;
    laws::known_rows_are_found(rows, child);
    laws::known_rows_are_found(rows, tool);
    if store::has_id(rows, child) && store::has_id(rows, tool) {
        let (c, j, m) = lemma_row_after(s, fs, agent, seen, child);
        lemma_settled_row(fs, seen, c, j);
        lemma_had_pack(s.rows, seen, child, None, m);
        let q = choose|q: int| 0 <= q < rows.len() && (#[trigger] rows[q]).ext.id == tool;
        rows_are_found_by_id(rows, q);
        let a = c.map_values(|r: RowView| sync::settled(fs, seen, r));
        let b = a.map_values(|r: RowView| sync::with_child_pack(a, r));
        assert(laws::same_ids(c, b));
        laws::lemma_same_ids_distinct(c, b);
        assert(rows == b.map_values(|r: RowView| sync::with_parent_pack(b, r)));
        assert(rows[q] == sync::with_parent_pack(b, b[q]));
        assert(rows[j] == sync::with_parent_pack(b, b[j]));
        assert(b[j] == sync::with_child_pack(a, a[j]));
        if b[q].ext.pack is Some {
            lemma_pack_of_id(b, q);
        } else {
            lemma_no_pack_of_id(b, tool, q);
        }
    }
}

// ---------------------------------------------------------------------------
// Audit results
// ---------------------------------------------------------------------------

proof fn lemma_audits_without(
    audits: Seq<AuditResultView>,
    id: Seq<char>,
    x: AuditResultView,
)
    ensures
        store::audits_without(audits, id).contains(x) <==> audits.contains(x) && x.extension_id
            != id,
    decreases audits.len(),
{
    let r = store::audits_without(audits, id);
    if audits.len() > 0 {
        let t = audits.drop_last();
        let q = store::audits_without(t, id);
        let last = audits.last();
        lemma_audits_without(t, id, x);
        assert(audits.contains(x) <==> t.contains(x) || last == x) by {
            if t.contains(x) {
                let i = choose|i: int| 0 <= i < t.len() && t[i] == x;
                assert(audits[i] == x);
            }
            if last == x {
                assert(audits[audits.len() - 1] == x);
            }
            if audits.contains(x) {
                let i = choose|i: int| 0 <= i < audits.len() && audits[i] == x;
                if i < t.len() {
                    assert(t[i] == x);
                }
            }
        }
        if last.extension_id != id {
            assert(r == q.push(last));
            assert(r.contains(x) <==> q.contains(x) || last == x) by {
                if q.contains(x) {
                    let i = choose|i: int| 0 <= i < q.len() && q[i] == x;
                    assert(r[i] == x);
                }
                if last == x {
                    assert(r[q.len() as int] == x);
                }
                if r.contains(x) {
                    let i = choose|i: int| 0 <= i < r.len() && r[i] == x;
                    if i < q.len() {
                        assert(q[i] == x);
                    }
                }
            }
        }
    }
}

proof fn lemma_thinned_audits(
    s: StoreView,
    rows: Seq<RowView>,
    leaves: spec_fn(ExtensionView) -> bool,
    x: AuditResultView,
)
    ensures
        sync::thinned(s, rows, leaves).audits.contains(x) <==> s.audits.contains(x)
            && !laws::has_leaving(rows, leaves, x.extension_id),
    decreases rows.len(),
{
    if rows.len() > 0 {
        let t = rows.drop_last();
        let last = rows.last().ext;
        let before = sync::thinned(s, t, leaves);
        lemma_thinned_audits(s, t, leaves, x);
        lemma_audits_without(before.audits, last.id, x);
        assert(laws::has_leaving(rows, leaves, x.extension_id) <==> laws::has_leaving(
            t,
            leaves,
            x.extension_id,
        ) || (leaves(last) && last.id == x.extension_id)) by {
            if laws::has_leaving(t, leaves, x.extension_id) {
                let i = choose|i: int|
                    0 <= i < t.len() && (#[trigger] t[i]).ext.id == x.extension_id && leaves(
                        t[i].ext,
                    );
                assert(rows[i] == t[i]);
            }
            if leaves(last) && last.id == x.extension_id {
                assert(rows[rows.len() - 1].ext == last);
            }
            if laws::has_leaving(rows, leaves, x.extension_id) {
                let i = choose|i: int|
                    0 <= i < rows.len() && (#[trigger] rows[i]).ext.id == x.extension_id && leaves(
                        rows[i].ext,
                    );
                if i < t.len() {
                    assert(t[i] == rows[i]);
                }
            }
        }
    }
}

/// A scan drops the audit results of the extensions that it gives up, and no others.
pub proof fn scan_keeps_audits_of_what_stays(
    s: StoreView,
    fs: FileTreeView,
    agent: Option<Seq<char>>,
    seen: Seq<ExtensionView>,
    x: AuditResultView,
)
    requires
        store::ids_distinct(s.rows),
        store::row_with(s.rows, x.extension_id) is Some,
    ensures
        scanned(s, fs, agent, seen).audits.contains(x) <==> s.audits.contains(x)
            && store::row_with(scanned(s, fs, agent, seen).rows, x.extension_id) is Some,
{
    laws::known_rows_are_found(scanned(s, fs, agent, seen).rows, x.extension_id);
    laws::known_rows_are_found(s.rows, x.extension_id);
    laws::lemma_all_upserted_ids(s.rows, seen, x.extension_id);
    match agent {
        Some(g) => {
            lemma_audits_after_one(s, fs, g, seen, x);
        },
        None => {
            lemma_audits_after_all(s, fs, seen, x);
        },
    }
}

proof fn lemma_audits_after_one(
    s: StoreView,
    fs: FileTreeView,
    agent: Seq<char>,
    seen: Seq<ExtensionView>,
    x: AuditResultView,
)
    requires
        store::ids_distinct(s.rows),
        store::has_id(sync::all_upserted(s.rows, seen), x.extension_id),
    ensures
        sync::synced(s, fs, agent, seen).audits.contains(x) <==> s.audits.contains(x)
            && store::has_id(sync::synced(s, fs, agent, seen).rows, x.extension_id),
{
    let id = x.extension_id;
    let a = sync::all_upserted(s.rows, seen);
    let st = StoreView { rows: a, ..s };
    let ids = sync::ids_of(seen);
    let after = sync::synced(s, fs, agent, seen);
    let stale = |e: ExtensionView| sync::is_stale(fs, e, agent, ids);
    laws::lemma_all_upserted_distinct(s.rows, seen);
    lemma_pruned_is_thinned(st, fs, a, agent, ids);
    let b = sync::thinned(st, a, stale);
    laws::lemma_thinned(st, a, stale);
    lemma_thinned_audits(st, a, stale, x);
    assert(after.audits == b.audits);
    assert(laws::same_ids(b.rows, after.rows));
    laws::lemma_same_ids_has(b.rows, after.rows, id);
    assert(store::has_id(b.rows, id) <==> store::has_id(a, id) && !laws::has_leaving(a, stale, id));
}

proof fn lemma_audits_after_all(
    s: StoreView,
    fs: FileTreeView,
    seen: Seq<ExtensionView>,
    x: AuditResultView,
)
    requires
        store::ids_distinct(s.rows),
        store::has_id(sync::all_upserted(s.rows, seen), x.extension_id),
    ensures
        sync::all_synced(s, fs, seen).audits.contains(x) <==> s.audits.contains(x)
            && store::has_id(sync::all_synced(s, fs, seen).rows, x.extension_id),
{
    let id = x.extension_id;
    let a = sync::all_upserted(s.rows, seen);
    let st = StoreView { rows: a, ..s };
    let ids = sync::ids_of(seen);
    let after = sync::all_synced(s, fs, seen);
    let orphan = |e: ExtensionView| sync::is_orphan(s.projects, e);
    let gone = |e: ExtensionView| sync::is_gone(fs, e, ids);
    laws::lemma_all_upserted_distinct(s.rows, seen);
    let b = sync::thinned(st, a, orphan);
    let d = sync::thinned(b, b.rows, gone);
    laws::lemma_thinned(st, a, orphan);
    laws::lemma_thinned(b, b.rows, gone);
    lemma_thinned_audits(st, a, orphan, x);
    lemma_thinned_audits(b, b.rows, gone, x);
    assert(after.audits == d.audits);
    assert(laws::same_ids(d.rows, after.rows));
    laws::lemma_same_ids_has(d.rows, after.rows, id);
    assert(store::has_id(d.rows, id) <==> store::has_id(b.rows, id) && !laws::has_leaving(
        b.rows,
        gone,
        id,
    ));
    assert(store::has_id(b.rows, id) <==> store::has_id(a, id) && !laws::has_leaving(
        a,
        orphan,
        id,
    ));
}

// ---------------------------------------------------------------------------
// One extension at a time
// ---------------------------------------------------------------------------

/// Recording an extension makes it known as it is, whether or not it was known: but
/// one that was known keeps its tags, score, install record and time of installation,
/// its pack if it has one, and whether it is enabled. All other rows stay.
pub proof fn recording_takes_over(rows: Seq<RowView>, e: ExtensionView, other: Seq<char>)
    requires
        store::ids_distinct(rows),
    ensures
        store::row_with(store::upserted(rows, e, true), e.id) matches Some(t) && (match store::row_with(
            rows,
            e.id,
        ) {
            None => t == e,
            Some(old) => t.id == e.id && t.kind == e.kind && t.name == e.name && t.description
                == e.description && t.source == e.source && t.agents == e.agents && t.permissions
                == e.permissions && t.updated_at == e.updated_at && t.source_path == e.source_path
                && t.cli_parent_id == e.cli_parent_id && t.cli_meta == e.cli_meta && t.scope
                == e.scope && t.tags == old.tags && t.trust_score == old.trust_score && t.enabled
                == old.enabled && t.install_meta == old.install_meta && t.installed_at
                == old.installed_at && t.pack == (if old.pack is Some {
                old.pack
            } else {
                e.pack
            }),
        }),
        other != e.id ==> store::row_with(store::upserted(rows, e, true), other)
            == store::row_with(rows, other),
        forall|i: int|
            0 <= i < rows.len() ==> (#[trigger] store::upserted(rows, e, true)[i]).ext.id
                == rows[i].ext.id && store::upserted(rows, e, true)[i].disabled_config
                == rows[i].disabled_config,
{
    let a = store::upserted(rows, e, true);
    laws::lemma_upserted_distinct(rows, e, true);
    laws::known_rows_are_found(rows, e.id);
    laws::known_rows_are_found(rows, other);
    laws::known_rows_are_found(a, other);
    if store::has_id(rows, e.id) {
        let i = choose|i: int| 0 <= i < rows.len() && (#[trigger] rows[i]).ext.id == e.id;
        rows_are_found_by_id(rows, i);
        rows_are_found_by_id(a, i);
        assert(a[i].ext.id == e.id);
    } else {
        rows_are_found_by_id(a, rows.len() as int);
    }
    if other != e.id {
        if store::has_id(rows, other) {
            let i = choose|i: int| 0 <= i < rows.len() && (#[trigger] rows[i]).ext.id == other;
            rows_are_found_by_id(rows, i);
            rows_are_found_by_id(a, i);
            assert(a[i] == rows[i]);
        } else if store::has_id(a, other) {
            let i = choose|i: int| 0 <= i < a.len() && (#[trigger] a[i]).ext.id == other;
            if i < rows.len() {
                assert(rows[i].ext.id == other);
            }
        }
    }
}

/// Writing one thing about an extension changes that one thing, of that one row: its
/// score, whether it is enabled, or what was taken out of a configuration file for it.
pub proof fn writing_changes_one_thing(
    rows: Seq<RowView>,
    id: Seq<char>,
    score: u8,
    enabled: bool,
    config: Option<Seq<char>>,
    i: int,
)
    requires
        0 <= i < rows.len(),
    ensures
        store::with_score(rows, id, score).len() == rows.len(),
        store::with_enabled(rows, id, enabled).len() == rows.len(),
        store::with_disabled_config(rows, id, config).len() == rows.len(),
        rows[i].ext.id != id ==> store::with_score(rows, id, score)[i] == rows[i]
            && store::with_enabled(rows, id, enabled)[i] == rows[i] && store::with_disabled_config(
            rows,
            id,
            config,
        )[i] == rows[i],
        rows[i].ext.id == id ==> store::with_score(rows, id, score)[i] == (RowView {
            ext: ExtensionView { trust_score: Some(score), ..rows[i].ext },
            ..rows[i]
        }),
        rows[i].ext.id == id ==> store::with_enabled(rows, id, enabled)[i] == (RowView {
            ext: ExtensionView { enabled, ..rows[i].ext },
            ..rows[i]
        }),
        rows[i].ext.id == id ==> store::with_disabled_config(rows, id, config)[i] == (RowView {
            disabled_config: config,
            ..rows[i]
        }),
{
}

/// Giving a pack to a group of extensions gives it to each of them and to no other.
pub proof fn packs_go_to_the_group(
    rows: Seq<RowView>,
    ids: Seq<Seq<char>>,
    pack: Option<Seq<char>>,
    i: int,
)
    requires
        0 <= i < rows.len(),
    ensures
        store::with_packs(rows, ids, pack).len() == rows.len(),
        ids.contains(rows[i].ext.id) ==> store::with_packs(rows, ids, pack)[i] == (RowView {
            ext: ExtensionView { pack, ..rows[i].ext },
            ..rows[i]
        }),
        !ids.contains(rows[i].ext.id) ==> store::with_packs(rows, ids, pack)[i] == rows[i],
    decreases ids.len(),
{
    if ids.len() > 0 {
        let t = ids.drop_last();
        packs_go_to_the_group(rows, t, pack, i);
        let id = rows[i].ext.id;
        if t.contains(id) {
            let k = choose|k: int| 0 <= k < t.len() && t[k] == id;
            assert(ids[k] == id);
        }
        if ids.contains(id) && !t.contains(id) {
            let k = choose|k: int| 0 <= k < ids.len() && ids[k] == id;
            if k < t.len() {
                assert(t[k] == id);
            }
        }
        if ids.last() == id {
            assert(ids[ids.len() - 1] == id);
        }
    }
}

/// Asking for the extensions with a name and a kind gives each of their identifiers,
/// and no others.
pub proof fn named_ids_are_found(
    rows: Seq<RowView>,
    name: Seq<char>,
    kind: ExtensionKind,
    id: Seq<char>,
)
    ensures
        store::ids_named(rows, name, kind.text()).contains(id) ==> exists|i: int|
            0 <= i < rows.len() && (#[trigger] rows[i]).ext.id == id && rows[i].ext.name == name
                && rows[i].ext.kind.text() == kind.text(),
        forall|i: int|
            0 <= i < rows.len() && (#[trigger] rows[i]).ext.id == id && rows[i].ext.name == name
                && rows[i].ext.kind == kind ==> store::ids_named(
                rows,
                name,
                kind.text(),
            ).contains(id),
    decreases rows.len(),
{
    let all = store::ids_named(rows, name, kind.text());
    if rows.len() > 0 {
        let t = rows.drop_last();
        let before = store::ids_named(t, name, kind.text());
        let e = rows.last().ext;
        named_ids_are_found(t, name, kind, id);
        if all.contains(id) {
            let k = choose|k: int| 0 <= k < all.len() && all[k] == id;
            if k < before.len() {
                assert(before[k] == id);
                let i = choose|i: int|
                    0 <= i < t.len() && (#[trigger] t[i]).ext.id == id && t[i].ext.name == name
                        && t[i].ext.kind.text() == kind.text();
                assert(rows[i] == t[i]);
            } else {
                assert(rows[rows.len() - 1].ext == e);
            }
        }
        assert forall|i: int|
            0 <= i < rows.len() && (#[trigger] rows[i]).ext.id == id && rows[i].ext.name == name
                && rows[i].ext.kind == kind implies all.contains(id) by {
            if i < t.len() {
                assert(t[i] == rows[i]);
                assert(before.contains(id));
                let k = choose|k: int| 0 <= k < before.len() && before[k] == id;
                assert(all[k] == id);
            } else {
                assert(all[before.len() as int] == id);
            }
        }
    }
}

// ---------------------------------------------------------------------------
// Projects
// ---------------------------------------------------------------------------

/// Whether projects stand from the newest to the oldest.
pub open spec fn newest_first(s: Seq<ProjectView>) -> bool {
    forall|i: int, j: int|
        0 <= i < j < s.len() ==> (#[trigger] s[i]).created_at.secs > (#[trigger] s[j]).created_at.secs
            || (s[i].created_at.secs == s[j].created_at.secs && s[i].created_at.nanos
            >= s[j].created_at.nanos)
}

/// The projects are listed from the newest to the oldest, each with its name and its
/// path, and each as often as it is known.
pub proof fn projects_are_listed_by_age(projects: Seq<ProjectView>)
    ensures
        newest_first(store::by_age(projects)),
        store::by_age(projects).to_multiset() == projects.to_multiset(),
        store::project_tuples(projects).len() == projects.len(),
        forall|i: int|
            0 <= i < store::project_tuples(projects).len() ==> (#[trigger] store::project_tuples(
                projects,
            )[i]).0 == store::by_age(projects)[i].name && store::project_tuples(projects)[i].1
                == store::by_age(projects)[i].path,
    decreases projects.len(),
{
    broadcast use vstd::seq_lib::group_to_multiset_ensures;

    if projects.len() > 0 {
        let t = projects.drop_last();
        projects_are_listed_by_age(t);
        lemma_inserted_by_age(store::by_age(t), projects.last());
        assert(projects =~= t.push(projects.last()));
    }
    let all = store::by_age(projects);
    assert(all.to_multiset().len() == all.len());
    assert(projects.to_multiset().len() == projects.len());
}

proof fn lemma_inserted_by_age(s: Seq<ProjectView>, x: ProjectView)
    requires
        newest_first(s),
    ensures
        newest_first(store::inserted_by_age(s, x)),
        store::inserted_by_age(s, x).to_multiset() == s.to_multiset().insert(x),
    decreases s.len(),
{
    broadcast use vstd::seq_lib::group_to_multiset_ensures;

    let r = store::inserted_by_age(s, x);
    if s.len() == 0 {
        assert(r =~= s.push(x));
    } else if store::later(x.created_at, s.last().created_at) {
        let t = s.drop_last();
        let q = store::inserted_by_age(t, x);
        assert(newest_first(t)) by {
            assert forall|i: int, j: int| 0 <= i < j < t.len() implies (
            #[trigger] t[i]).created_at.secs > (#[trigger] t[j]).created_at.secs || (
            t[i].created_at.secs == t[j].created_at.secs && t[i].created_at.nanos
                >= t[j].created_at.nanos) by {
                assert(t[i] == s[i] && t[j] == s[j]);
            }
        }
        lemma_inserted_by_age(t, x);
        assert(s =~= t.push(s.last()));
        assert(r.to_multiset() =~= s.to_multiset().insert(x));
        assert forall|i: int, j: int| 0 <= i < j < r.len() implies (#[trigger] r[i]).created_at.secs
            > (#[trigger] r[j]).created_at.secs || (r[i].created_at.secs == r[j].created_at.secs
            && r[i].created_at.nanos >= r[j].created_at.nanos) by {
            if j < q.len() {
                assert(r[i] == q[i] && r[j] == q[j]);
            } else {
                assert(r[i] == q[i]);
                assert(q.to_multiset().count(q[i]) > 0);
                if q[i] != x {
                    assert(t.to_multiset().count(q[i]) > 0);
                    assert(t.contains(q[i]));
                    let k = choose|k: int| 0 <= k < t.len() && t[k] == q[i];
                    assert(s[k] == q[i]);
                    assert(s[s.len() - 1] == r[j]);
                }
            }
        }
    } else {
        assert forall|i: int, j: int| 0 <= i < j < r.len() implies (#[trigger] r[i]).created_at.secs
            > (#[trigger] r[j]).created_at.secs || (r[i].created_at.secs == r[j].created_at.secs
            && r[i].created_at.nanos >= r[j].created_at.nanos) by {
            if j < s.len() {
                assert(r[i] == s[i] && r[j] == s[j]);
            } else {
                assert(r[i] == s[i]);
                if i < s.len() - 1 {
                    assert(s[s.len() - 1] == s.last());
                    assert(s[i].created_at.secs > s[s.len() - 1].created_at.secs || (
                    s[i].created_at.secs == s[s.len() - 1].created_at.secs && s[i].created_at.nanos
                        >= s[s.len() - 1].created_at.nanos));
                }
            }
        }
    }
}

/// A project is known if one with its identifier is, or one at its path.
pub proof fn projects_are_known_by_id_or_path(
    projects: Seq<ProjectView>,
    id: Seq<char>,
    p: Seq<char>,
    i: int,
)
    ensures
        0 <= i < projects.len() && (projects[i].id == id || projects[i].path == p)
            ==> store::knows_project(projects, id, p),
        (forall|j: int|
            0 <= j < projects.len() ==> (#[trigger] projects[j]).id != id && projects[j].path != p)
            ==> !store::knows_project(projects, id, p),
{
}

} // verus!
