//! What holds of the table whatever is done to it.

use vstd::prelude::*;

use crate::files::FileTreeView;
use crate::lists;
use crate::models::{ExtensionKind, ExtensionView, InstallMetaView};
use crate::store;
use crate::store::sync;
use crate::store::{RowView, StoreView};

verus! {

/// Whether two tables have the same identifiers, row by row.
pub open spec fn same_ids(a: Seq<RowView>, b: Seq<RowView>) -> bool {
    a.len() == b.len() && forall|i: int|
        0 <= i < a.len() ==> (#[trigger] a[i]).ext.id == (#[trigger] b[i]).ext.id
}

/// No operation gives two rows the same identifier.
pub proof fn operations_keep_ids_distinct(
    rows: Seq<RowView>,
    e: ExtensionView,
    recorded: bool,
    id: Seq<char>,
    ids: Seq<Seq<char>>,
    meta: Option<InstallMetaView>,
    pack: Option<Seq<char>>,
    config: Option<Seq<char>>,
    score: u8,
    enabled: bool,
)
    requires
        store::ids_distinct(rows),
    ensures
        store::ids_distinct(store::upserted(rows, e, recorded)),
        store::ids_distinct(store::with_meta(rows, id, meta)),
        store::ids_distinct(store::with_pack(rows, id, pack)),
        store::ids_distinct(store::with_packs(rows, ids, pack)),
        store::ids_distinct(store::with_disabled_config(rows, id, config)),
        store::ids_distinct(store::with_score(rows, id, score)),
        store::ids_distinct(store::with_enabled(rows, id, enabled)),
        store::ids_distinct(store::without_id(rows, id)),
{
    lemma_upserted_distinct(rows, e, recorded);
    lemma_same_ids_distinct(rows, store::with_meta(rows, id, meta));
    lemma_same_ids_distinct(rows, store::with_pack(rows, id, pack));
    lemma_with_packs_same_ids(rows, ids, pack);
    lemma_same_ids_distinct(rows, store::with_packs(rows, ids, pack));
    lemma_same_ids_distinct(rows, store::with_disabled_config(rows, id, config));
    lemma_same_ids_distinct(rows, store::with_score(rows, id, score));
    lemma_same_ids_distinct(rows, store::with_enabled(rows, id, enabled));
    lemma_without_id_distinct(rows, id);
}

/// A scan of an agent gives no two rows the same identifier.
pub proof fn sync_keeps_ids_distinct(
    s: StoreView,
    fs: FileTreeView,
    agent: Seq<char>,
    seen: Seq<ExtensionView>,
)
    requires
        store::ids_distinct(s.rows),
    ensures
        store::ids_distinct(sync::synced(s, fs, agent, seen).rows),
{
    lemma_all_upserted_distinct(s.rows, seen);
    let a = StoreView { rows: sync::all_upserted(s.rows, seen), ..s };
    lemma_pruned_distinct(a, fs, a.rows, agent, sync::ids_of(seen));
    let b = sync::pruned(a, fs, a.rows, agent, sync::ids_of(seen));
    lemma_same_ids_distinct(b.rows, sync::all_settled(fs, seen, b.rows));
}

pub proof fn lemma_same_ids_distinct(a: Seq<RowView>, b: Seq<RowView>)
    requires
        store::ids_distinct(a),
        same_ids(a, b),
    ensures
        store::ids_distinct(b),
{
    assert forall|i: int, j: int| 0 <= i < j < b.len() implies (#[trigger] b[i]).ext.id != (
    #[trigger] b[j]).ext.id by {
        assert(a[i].ext.id != a[j].ext.id);
    }
}

proof fn lemma_with_packs_same_ids(
    rows: Seq<RowView>,
    ids: Seq<Seq<char>>,
    pack: Option<Seq<char>>,
)
    ensures
        same_ids(rows, store::with_packs(rows, ids, pack)),
    decreases ids.len(),
{
    if ids.len() > 0 {
        lemma_with_packs_same_ids(rows, ids.drop_last(), pack);
    }
}

pub proof fn lemma_upserted_distinct(rows: Seq<RowView>, e: ExtensionView, recorded: bool)
    requires
        store::ids_distinct(rows),
    ensures
        store::ids_distinct(store::upserted(rows, e, recorded)),
{
    let r = store::upserted(rows, e, recorded);
    if store::has_id(rows, e.id) {
        lemma_same_ids_distinct(rows, r);
    } else {
        assert forall|i: int, j: int| 0 <= i < j < r.len() implies (#[trigger] r[i]).ext.id != (
        #[trigger] r[j]).ext.id by {
            assert(r[i] == rows[i]);
            if j < rows.len() {
                assert(rows[i].ext.id != rows[j].ext.id);
            }
        }
    }
}

pub proof fn lemma_all_upserted_distinct(rows: Seq<RowView>, seen: Seq<ExtensionView>)
    requires
        store::ids_distinct(rows),
    ensures
        store::ids_distinct(sync::all_upserted(rows, seen)),
    decreases seen.len(),
{
    if seen.len() > 0 {
        lemma_all_upserted_distinct(rows, seen.drop_last());
        lemma_upserted_distinct(sync::all_upserted(rows, seen.drop_last()), seen.last(), false);
    }
}

proof fn lemma_without_id_from(rows: Seq<RowView>, id: Seq<char>)
    ensures
        forall|i: int|
            0 <= i < store::without_id(rows, id).len() ==> rows.contains(
                #[trigger] store::without_id(rows, id)[i],
            ) && store::without_id(rows, id)[i].ext.id != id,
    decreases rows.len(),
{
    if rows.len() > 0 {
        let t = rows.drop_last();
        lemma_without_id_from(t, id);
        let r = store::without_id(rows, id);
        assert forall|i: int| 0 <= i < r.len() implies rows.contains(#[trigger] r[i]) && r[i].ext.id
            != id by {
            let q = store::without_id(t, id);
            if i < q.len() {
                assert(t.contains(q[i]));
                let k = choose|k: int| 0 <= k < t.len() && t[k] == q[i];
                assert(rows[k] == r[i]);
            } else {
                assert(rows[rows.len() - 1] == r[i]);
            }
        }
    }
}

pub proof fn lemma_without_id_distinct(rows: Seq<RowView>, id: Seq<char>)
    requires
        store::ids_distinct(rows),
    ensures
        store::ids_distinct(store::without_id(rows, id)),
    decreases rows.len(),
{
    if rows.len() > 0 {
        let t = rows.drop_last();
        assert(store::ids_distinct(t)) by {
            assert forall|i: int, j: int| 0 <= i < j < t.len() implies (#[trigger] t[i]).ext.id != (
            #[trigger] t[j]).ext.id by {
                assert(rows[i].ext.id != rows[j].ext.id);
            }
        }
        lemma_without_id_distinct(t, id);
        lemma_without_id_from(t, id);
        let q = store::without_id(t, id);
        let r = store::without_id(rows, id);
        assert forall|i: int, j: int| 0 <= i < j < r.len() implies (#[trigger] r[i]).ext.id != (
        #[trigger] r[j]).ext.id by {
            if j == q.len() {
                assert(t.contains(q[i]));
                let k = choose|k: int| 0 <= k < t.len() && t[k] == q[i];
                assert(rows[k].ext.id != rows[rows.len() - 1].ext.id);
            } else {
                assert(q[i].ext.id != q[j].ext.id);
            }
        }
    }
}

proof fn lemma_pruned_distinct(
    s: StoreView,
    fs: FileTreeView,
    rows: Seq<RowView>,
    agent: Seq<char>,
    seen: Seq<Seq<char>>,
)
    requires
        store::ids_distinct(s.rows),
    ensures
        store::ids_distinct(sync::pruned(s, fs, rows, agent, seen).rows),
    decreases rows.len(),
{
    if rows.len() > 0 {
        lemma_pruned_distinct(s, fs, rows.drop_last(), agent, seen);
        lemma_without_id_distinct(
            sync::pruned(s, fs, rows.drop_last(), agent, seen).rows,
            rows.last().ext.id,
        );
    }
}

// ---------------------------------------------------------------------------
// Reading what was written
// ---------------------------------------------------------------------------

/// An install record that was written is read back, and no other extension
/// changes.
pub proof fn meta_reads_back(
    rows: Seq<RowView>,
    id: Seq<char>,
    meta: Option<InstallMetaView>,
    other: Seq<char>,
)
    ensures
        store::row_with(store::with_meta(rows, id, meta), id) == (match store::row_with(rows, id) {
            Some(e) => Some(ExtensionView { install_meta: meta, ..e }),
            None => None,
        }),
        other != id ==> store::row_with(store::with_meta(rows, id, meta), other)
            == store::row_with(rows, other),
    decreases rows.len(),
{
    if rows.len() > 0 {
        meta_reads_back(rows.drop_first(), id, meta, other);
        assert(store::with_meta(rows, id, meta).drop_first() =~= store::with_meta(
            rows.drop_first(),
            id,
            meta,
        ));
    }
}

/// A pack that was written is read back, and no other extension changes.
pub proof fn pack_reads_back(
    rows: Seq<RowView>,
    id: Seq<char>,
    pack: Option<Seq<char>>,
    other: Seq<char>,
)
    ensures
        store::row_with(store::with_pack(rows, id, pack), id) == (match store::row_with(rows, id) {
            Some(e) => Some(ExtensionView { pack, ..e }),
            None => None,
        }),
        other != id ==> store::row_with(store::with_pack(rows, id, pack), other)
            == store::row_with(rows, other),
    decreases rows.len(),
{
    if rows.len() > 0 {
        pack_reads_back(rows.drop_first(), id, pack, other);
        assert(store::with_pack(rows, id, pack).drop_first() =~= store::with_pack(
            rows.drop_first(),
            id,
            pack,
        ));
    }
}

/// An extension that was recorded for the first time is read back as it is; one
/// that was known keeps its tags, score, install record, time of installation and
/// pack, and stays as enabled as it was.
pub proof fn recorded_extension_reads_back(rows: Seq<RowView>, e: ExtensionView)
    ensures
        store::row_with(rows, e.id) is None ==> store::row_with(
            store::upserted(rows, e, true),
            e.id,
        ) == Some(e),
        store::row_with(rows, e.id) matches Some(old) ==> (store::row_with(
            store::upserted(rows, e, true),
            e.id,
        ) matches Some(new) && new.tags == old.tags && new.trust_score == old.trust_score
            && new.enabled == old.enabled && new.install_meta == old.install_meta && new.installed_at
            == old.installed_at && (old.pack is Some ==> new.pack == old.pack) && new.name == e.name && new.permissions
            == e.permissions),
{
    known_rows_are_found(rows, e.id);
    let r = store::upserted(rows, e, true);
    if store::has_id(rows, e.id) {
        lemma_refreshed_row(rows, e);
    } else {
        lemma_row_with_push(rows, store::fresh_row(e, true));
    }
}

/// An extension is found exactly if one with its identifier is known.
pub proof fn known_rows_are_found(rows: Seq<RowView>, id: Seq<char>)
    ensures
        store::row_with(rows, id) is Some <==> store::has_id(rows, id),
    decreases rows.len(),
{
    if rows.len() > 0 {
        let t = rows.drop_first();
        known_rows_are_found(t, id);
        if rows[0].ext.id == id {
            assert(store::has_id(rows, id));
        } else {
            if store::has_id(t, id) {
                let i = choose|i: int| 0 <= i < t.len() && (#[trigger] t[i]).ext.id == id;
                assert(rows[i + 1].ext.id == id);
            }
            if store::has_id(rows, id) {
                let i = choose|i: int| 0 <= i < rows.len() && (#[trigger] rows[i]).ext.id == id;
                assert(t[i - 1].ext.id == id);
            }
        }
    }
}

proof fn lemma_row_with_push(rows: Seq<RowView>, r: RowView)
    requires
        store::row_with(rows, r.ext.id) is None,
    ensures
        store::row_with(rows.push(r), r.ext.id) == Some(r.ext),
    decreases rows.len(),
{
    if rows.len() > 0 {
        lemma_row_with_push(rows.drop_first(), r);
        assert(rows.push(r).drop_first() =~= rows.drop_first().push(r));
    }
}

proof fn lemma_refreshed_row(rows: Seq<RowView>, e: ExtensionView)
    requires
        store::row_with(rows, e.id) is Some,
    ensures
        ({
            let r = rows.map_values(
                |r: RowView|
                    if r.ext.id == e.id {
                        store::refreshed(r, e, true)
                    } else {
                        r
                    },
            );
            let old = store::row_with(rows, e.id)->0;
            store::row_with(r, e.id) matches Some(new) && new.tags == old.tags && new.trust_score
                == old.trust_score && new.enabled == old.enabled && new.install_meta == old.install_meta && new.installed_at
                == old.installed_at && (old.pack is Some ==> new.pack == old.pack) && new.name
                == e.name && new.permissions == e.permissions
        }),
    decreases rows.len(),
{
    let r = rows.map_values(
        |r: RowView|
            if r.ext.id == e.id {
                store::refreshed(r, e, true)
            } else {
                r
            },
    );
    if rows[0].ext.id != e.id {
        lemma_refreshed_row(rows.drop_first(), e);
        assert(r.drop_first() =~= rows.drop_first().map_values(
            |r: RowView|
                if r.ext.id == e.id {
                    store::refreshed(r, e, true)
                } else {
                    r
                },
        ));
    }
}

/// An extension that was removed is gone, and so are its audit results; no other
/// extension changes.
pub proof fn removed_extension_is_gone(s: StoreView, id: Seq<char>, other: Seq<char>)
    ensures
        store::row_with(store::without_extension(s, id).rows, id) is None,
        other != id ==> store::row_with(store::without_extension(s, id).rows, other)
            == store::row_with(s.rows, other),
        forall|i: int|
            0 <= i < store::without_extension(s, id).audits.len() ==> (
            #[trigger] store::without_extension(s, id).audits[i]).extension_id != id,
{
    lemma_without_id_from(s.rows, id);
    known_rows_are_found(store::without_id(s.rows, id), id);
    if other != id {
        lemma_without_id_others(s.rows, id, other);
    }
    lemma_audits_without(s.audits, id);
}

proof fn lemma_audits_without(audits: Seq<crate::models::AuditResultView>, id: Seq<char>)
    ensures
        forall|i: int|
            0 <= i < store::audits_without(audits, id).len() ==> (#[trigger] store::audits_without(
                audits,
                id,
            )[i]).extension_id != id,
    decreases audits.len(),
{
    if audits.len() > 0 {
        lemma_audits_without(audits.drop_last(), id);
        let q = store::audits_without(audits.drop_last(), id);
        let r = store::audits_without(audits, id);
        assert forall|i: int| 0 <= i < r.len() implies (#[trigger] r[i]).extension_id != id by {
            if i < q.len() {
                assert(r[i] == q[i]);
            }
        }
    }
}

proof fn lemma_row_with_last(rows: Seq<RowView>, r: RowView, id: Seq<char>)
    ensures
        store::row_with(rows.push(r), id) == (if store::row_with(rows, id) is Some {
            store::row_with(rows, id)
        } else if r.ext.id == id {
            Some(r.ext)
        } else {
            None
        }),
    decreases rows.len(),
{
    if rows.len() > 0 {
        lemma_row_with_last(rows.drop_first(), r, id);
        assert(rows.push(r).drop_first() =~= rows.drop_first().push(r));
    } else {
        assert(rows.push(r).drop_first() =~= rows);
    }
}

proof fn lemma_without_id_others(rows: Seq<RowView>, id: Seq<char>, other: Seq<char>)
    requires
        other != id,
    ensures
        store::row_with(store::without_id(rows, id), other) == store::row_with(rows, other),
    decreases rows.len(),
{
    if rows.len() > 0 {
        let t = rows.drop_last();
        lemma_without_id_others(t, id, other);
        assert(rows =~= t.push(rows.last()));
        lemma_row_with_last(t, rows.last(), other);
        lemma_row_with_last(store::without_id(t, id), rows.last(), other);
    }
}

// ---------------------------------------------------------------------------
// Scans
// ---------------------------------------------------------------------------

/// After a scan of an agent an extension is known exactly if it was seen or was
/// known before, and none of the rows under its identifier was given up: only rows
/// of that agent are, and none that was seen, none that is disabled.
pub proof fn scan_removes_only_stale_rows(
    s: StoreView,
    fs: FileTreeView,
    agent: Seq<char>,
    seen: Seq<ExtensionView>,
    id: Seq<char>,
)
    ensures
        store::has_id(sync::synced(s, fs, agent, seen).rows, id) <==> (store::has_id(s.rows, id)
            || sync::ids_of(seen).contains(id)) && !has_stale(
            fs,
            sync::all_upserted(s.rows, seen),
            agent,
            sync::ids_of(seen),
            id,
        ),
        sync::ids_of(seen).contains(id) ==> store::has_id(
            sync::synced(s, fs, agent, seen).rows,
            id,
        ),
{
    let a = StoreView { rows: sync::all_upserted(s.rows, seen), ..s };
    let ids = sync::ids_of(seen);
    let b = sync::pruned(a, fs, a.rows, agent, ids);
    lemma_all_upserted_ids(s.rows, seen, id);
    lemma_pruned_ids(a, fs, a.rows, agent, ids, id);
    lemma_same_ids_has(b.rows, sync::all_settled(fs, seen, b.rows), id);
}

/// Whether one of the rows with an identifier is given up.
pub open spec fn has_stale(
    fs: FileTreeView,
    rows: Seq<RowView>,
    agent: Seq<char>,
    seen: Seq<Seq<char>>,
    id: Seq<char>,
) -> bool {
    exists|i: int|
        0 <= i < rows.len() && (#[trigger] rows[i]).ext.id == id && sync::is_stale(
            fs,
            rows[i].ext,
            agent,
            seen,
        )
}

/// A row is given up only if it is enabled, belongs to the agent that was scanned
/// and was not seen; and of those with an install record none that is a tool, and
/// none whose file is still there.
pub proof fn only_gone_rows_are_stale(
    fs: FileTreeView,
    e: ExtensionView,
    agent: Seq<char>,
    seen: Seq<Seq<char>>,
)
    requires
        sync::is_stale(fs, e, agent, seen),
    ensures
        e.enabled,
        e.agents.contains(agent),
        !seen.contains(e.id),
        e.install_meta is Some ==> e.kind != ExtensionKind::Cli && e.source_path is Some && !fs.at(
            e.source_path->0,
        ).exists,
{
}

/// After a scan of everything an extension is known exactly if it was seen or was known
/// before, belongs to no project that is unknown, and is not given up: none is that was
/// seen, none that is disabled, no tool with an install record, and nothing else with
/// one whose file is still there.
pub proof fn whole_scan_keeps_exactly_what_is_there(
    s: StoreView,
    fs: FileTreeView,
    seen: Seq<ExtensionView>,
    i: int,
)
    requires
        store::ids_distinct(s.rows),
        0 <= i < sync::all_upserted(s.rows, seen).len(),
    ensures
        ({
            let e = sync::all_upserted(s.rows, seen)[i].ext;
            store::has_id(sync::all_synced(s, fs, seen).rows, e.id) <==> !sync::is_orphan(
                s.projects,
                e,
            ) && !sync::is_gone(fs, e, sync::ids_of(seen))
        }),
        forall|id: Seq<char>| #[trigger]
            store::has_id(sync::all_synced(s, fs, seen).rows, id) ==> store::has_id(s.rows, id)
                || sync::ids_of(seen).contains(id),
        store::ids_distinct(sync::all_synced(s, fs, seen).rows),
{
    let ids = sync::ids_of(seen);
    let a = StoreView { rows: sync::all_upserted(s.rows, seen), ..s };
    let orphan = |e: ExtensionView| sync::is_orphan(s.projects, e);
    let gone = |e: ExtensionView| sync::is_gone(fs, e, ids);
    let b = sync::thinned(a, a.rows, orphan);
    let c = sync::thinned(b, b.rows, gone);
    let last = sync::all_synced(s, fs, seen).rows;
    let e = a.rows[i].ext;
    lemma_all_upserted_distinct(s.rows, seen);
    lemma_thinned(a, a.rows, orphan);
    lemma_thinned_itself(a, orphan, i);
    lemma_thinned(b, b.rows, gone);
    assert(same_ids(c.rows, last));
    lemma_same_ids_distinct(c.rows, last);
    lemma_same_ids_has(c.rows, last, e.id);
    if store::has_id(b.rows, e.id) {
        let k = choose|k: int| 0 <= k < b.rows.len() && (#[trigger] b.rows[k]).ext.id == e.id;
        assert(a.rows.contains(b.rows[k]));
        let j = choose|j: int| 0 <= j < a.rows.len() && a.rows[j] == b.rows[k];
        assert(a.rows[j].ext.id == a.rows[i].ext.id);
        assert(j == i);
        lemma_thinned_itself(b, gone, k);
    }
    assert forall|id: Seq<char>| #[trigger] store::has_id(last, id) implies store::has_id(
        s.rows,
        id,
    ) || ids.contains(id) by {
        lemma_same_ids_has(c.rows, last, id);
        assert(store::has_id(b.rows, id));
        assert(store::has_id(a.rows, id));
        lemma_all_upserted_ids(s.rows, seen, id);
    }
}

/// Whether one of the rows with an identifier leaves.
pub open spec fn has_leaving(
    rows: Seq<RowView>,
    leaves: spec_fn(ExtensionView) -> bool,
    id: Seq<char>,
) -> bool {
    exists|i: int| 0 <= i < rows.len() && (#[trigger] rows[i]).ext.id == id && leaves(rows[i].ext)
}

pub proof fn lemma_thinned(s: StoreView, rows: Seq<RowView>, leaves: spec_fn(ExtensionView) -> bool)
    requires
        store::ids_distinct(s.rows),
    ensures
        store::ids_distinct(sync::thinned(s, rows, leaves).rows),
        forall|i: int|
            0 <= i < sync::thinned(s, rows, leaves).rows.len() ==> s.rows.contains(
                #[trigger] sync::thinned(s, rows, leaves).rows[i],
            ),
        forall|id: Seq<char>| #[trigger]
            store::has_id(sync::thinned(s, rows, leaves).rows, id) <==> store::has_id(s.rows, id)
                && !has_leaving(rows, leaves, id),
    decreases rows.len(),
{
    if rows.len() == 0 {
        assert forall|i: int| 0 <= i < s.rows.len() implies s.rows.contains(
            #[trigger] s.rows[i],
        ) by {}
    } else {
        let t = rows.drop_last();
        let last = rows.last().ext;
        let before = sync::thinned(s, t, leaves).rows;
        let after = sync::thinned(s, rows, leaves).rows;
        lemma_thinned(s, t, leaves);
        lemma_without_id_distinct(before, last.id);
        lemma_without_id_from(before, last.id);
        assert forall|i: int| 0 <= i < after.len() implies s.rows.contains(#[trigger] after[i]) by {
            if leaves(last) {
                assert(before.contains(after[i]));
                let k = choose|k: int| 0 <= k < before.len() && before[k] == after[i];
                assert(s.rows.contains(before[k]));
            }
        }
        assert forall|id: Seq<char>| #[trigger]
            store::has_id(after, id) <==> store::has_id(s.rows, id) && !has_leaving(
                rows,
                leaves,
                id,
            ) by {
            lemma_without_id_has(before, last.id, id);
            assert(store::has_id(before, id) <==> store::has_id(s.rows, id) && !has_leaving(
                t,
                leaves,
                id,
            ));
            if has_leaving(t, leaves, id) {
                let i = choose|i: int|
                    0 <= i < t.len() && (#[trigger] t[i]).ext.id == id && leaves(t[i].ext);
                assert(rows[i] == t[i]);
            }
            if leaves(last) && last.id == id {
                assert(rows[rows.len() - 1].ext == last);
            }
            if has_leaving(rows, leaves, id) {
                let i = choose|i: int|
                    0 <= i < rows.len() && (#[trigger] rows[i]).ext.id == id && leaves(rows[i].ext);
                if i < t.len() {
                    assert(t[i] == rows[i]);
                }
            }
        }
    }
}

pub proof fn lemma_thinned_itself(s: StoreView, leaves: spec_fn(ExtensionView) -> bool, i: int)
    requires
        store::ids_distinct(s.rows),
        0 <= i < s.rows.len(),
    ensures
        store::has_id(sync::thinned(s, s.rows, leaves).rows, s.rows[i].ext.id) <==> !leaves(
            s.rows[i].ext,
        ),
{
    let id = s.rows[i].ext.id;
    lemma_thinned(s, s.rows, leaves);
    assert(store::has_id(s.rows, id));
    if has_leaving(s.rows, leaves, id) {
        let k = choose|k: int|
            0 <= k < s.rows.len() && (#[trigger] s.rows[k]).ext.id == id && leaves(s.rows[k].ext);
        assert(k == i);
    }
}

pub proof fn lemma_same_ids_has(a: Seq<RowView>, b: Seq<RowView>, id: Seq<char>)
    requires
        same_ids(a, b),
    ensures
        store::has_id(a, id) <==> store::has_id(b, id),
{
    if store::has_id(a, id) {
        let i = choose|i: int| 0 <= i < a.len() && (#[trigger] a[i]).ext.id == id;
        assert(b[i].ext.id == id);
    }
    if store::has_id(b, id) {
        let i = choose|i: int| 0 <= i < b.len() && (#[trigger] b[i]).ext.id == id;
        assert(a[i].ext.id == id);
    }
}

pub proof fn lemma_all_upserted_ids(rows: Seq<RowView>, seen: Seq<ExtensionView>, id: Seq<char>)
    ensures
        store::has_id(sync::all_upserted(rows, seen), id) <==> store::has_id(rows, id)
            || sync::ids_of(seen).contains(id),
    decreases seen.len(),
{
    let all = sync::ids_of(seen);
    if seen.len() > 0 {
        let t = seen.drop_last();
        let e = seen.last();
        let before = sync::all_upserted(rows, t);
        let after = store::upserted(before, e, false);
        lemma_all_upserted_ids(rows, t, id);
        assert(all =~= sync::ids_of(t).push(e.id));
        assert(all.contains(id) <==> sync::ids_of(t).contains(id) || e.id == id) by {
            if sync::ids_of(t).contains(id) {
                let k = choose|k: int|
                    0 <= k < sync::ids_of(t).len() && sync::ids_of(t)[k] == id;
                assert(all[k] == id);
            }
            if e.id == id {
                assert(all[all.len() - 1] == id);
            }
            if all.contains(id) {
                let k = choose|k: int| 0 <= k < all.len() && all[k] == id;
                if k < all.len() - 1 {
                    assert(sync::ids_of(t)[k] == id);
                }
            }
        }
        if store::has_id(before, e.id) {
            lemma_same_ids_has(before, after, id);
        } else {
            assert(after == before.push(store::fresh_row(e, false)));
            if store::has_id(before, id) {
                let i = choose|i: int|
                    0 <= i < before.len() && (#[trigger] before[i]).ext.id == id;
                assert(after[i].ext.id == id);
            }
            if e.id == id {
                assert(after[before.len() as int].ext.id == id);
            }
            if store::has_id(after, id) {
                let i = choose|i: int| 0 <= i < after.len() && (#[trigger] after[i]).ext.id == id;
                if i < before.len() {
                    assert(before[i].ext.id == id);
                }
            }
        }
    }
}

proof fn lemma_without_id_has(rows: Seq<RowView>, id: Seq<char>, other: Seq<char>)
    ensures
        store::has_id(store::without_id(rows, id), other) <==> store::has_id(rows, other) && other
            != id,
{
    known_rows_are_found(rows, other);
    known_rows_are_found(store::without_id(rows, id), other);
    lemma_without_id_from(rows, id);
    if other != id {
        lemma_without_id_others(rows, id, other);
    }
}

proof fn lemma_pruned_ids(
    s: StoreView,
    fs: FileTreeView,
    rows: Seq<RowView>,
    agent: Seq<char>,
    seen: Seq<Seq<char>>,
    id: Seq<char>,
)
    ensures
        store::has_id(sync::pruned(s, fs, rows, agent, seen).rows, id) <==> store::has_id(
            s.rows,
            id,
        ) && !has_stale(fs, rows, agent, seen, id),
    decreases rows.len(),
{
    if rows.len() > 0 {
        let t = rows.drop_last();
        let last = rows.last();
        lemma_pruned_ids(s, fs, t, agent, seen, id);
        let stale = sync::is_stale(fs, last.ext, agent, seen);
        assert(has_stale(fs, rows, agent, seen, id) <==> has_stale(fs, t, agent, seen, id) || (
        stale && last.ext.id == id)) by {
            if has_stale(fs, t, agent, seen, id) {
                let i = choose|i: int|
                    0 <= i < t.len() && (#[trigger] t[i]).ext.id == id && sync::is_stale(
                        fs,
                        t[i].ext,
                        agent,
                        seen,
                    );
                assert(rows[i] == t[i]);
            }
            if stale && last.ext.id == id {
                assert(rows[rows.len() - 1] == last);
            }
            if has_stale(fs, rows, agent, seen, id) {
                let i = choose|i: int|
                    0 <= i < rows.len() && (#[trigger] rows[i]).ext.id == id && sync::is_stale(
                        fs,
                        rows[i].ext,
                        agent,
                        seen,
                    );
                if i < t.len() {
                    assert(t[i] == rows[i]);
                }
            }
        }
        lemma_without_id_has(
            sync::pruned(s, fs, t, agent, seen).rows,
            last.ext.id,
            id,
        );
    }
}

// ---------------------------------------------------------------------------
// Listings
// ---------------------------------------------------------------------------

proof fn lemma_inserted_contains(s: Seq<ExtensionView>, x: ExtensionView, y: ExtensionView)
    ensures
        store::inserted_by_name(s, x).contains(y) <==> s.contains(y) || x == y,
    decreases s.len(),
{
    let r = store::inserted_by_name(s, x);
    if s.len() == 0 {
        assert(r[0] == x);
    } else if lists::text_le(s.last().name, x.name) {
        assert(r[s.len() as int] == x);
        if s.contains(y) {
            let i = choose|i: int| 0 <= i < s.len() && s[i] == y;
            assert(r[i] == y);
        }
    } else {
        let t = s.drop_last();
        let q = store::inserted_by_name(t, x);
        lemma_inserted_contains(t, x, y);
        assert(r == q.push(s.last()));
        assert(r[q.len() as int] == s.last());
        if q.contains(y) {
            let i = choose|i: int| 0 <= i < q.len() && q[i] == y;
            assert(r[i] == y);
        }
        if s.contains(y) {
            let i = choose|i: int| 0 <= i < s.len() && s[i] == y;
            if i < t.len() {
                assert(t[i] == y);
            }
        }
        if t.contains(y) {
            let i = choose|i: int| 0 <= i < t.len() && t[i] == y;
            assert(s[i] == y);
        }
        if s.last() == y {
            assert(s[s.len() - 1] == y);
        }
    }
}

/// A listing holds the extensions that are asked for, and no others.
pub proof fn listing_holds_what_is_asked_for(
    rows: Seq<RowView>,
    kind: Option<ExtensionKind>,
    agent: Option<Seq<char>>,
    x: ExtensionView,
)
    ensures
        store::listed(rows, kind, agent).contains(x) <==> store::is_listed(x, kind, agent)
            && exists|i: int| 0 <= i < rows.len() && (#[trigger] rows[i]).ext == x,
    decreases rows.len(),
{
    if rows.len() > 0 {
        let t = rows.drop_last();
        listing_holds_what_is_asked_for(t, kind, agent, x);
        lemma_inserted_contains(store::listed(t, kind, agent), rows.last().ext, x);
        if exists|i: int| 0 <= i < t.len() && (#[trigger] t[i]).ext == x {
            let i = choose|i: int| 0 <= i < t.len() && (#[trigger] t[i]).ext == x;
            assert(rows[i].ext == x);
        }
        if exists|i: int| 0 <= i < rows.len() && (#[trigger] rows[i]).ext == x {
            let i = choose|i: int| 0 <= i < rows.len() && (#[trigger] rows[i]).ext == x;
            if i < t.len() {
                assert(t[i].ext == x);
            }
        }
        if rows.last().ext == x {
            assert(rows[rows.len() - 1].ext == x);
        }
    }
}

/// Whether a list is sorted by name.
pub open spec fn sorted_by_name(s: Seq<ExtensionView>) -> bool {
    forall|i: int, j: int|
        0 <= i < j < s.len() ==> lists::text_le((#[trigger] s[i]).name, (#[trigger] s[j]).name)
}

proof fn lemma_inserted_sorted(s: Seq<ExtensionView>, x: ExtensionView)
    requires
        sorted_by_name(s),
    ensures
        sorted_by_name(store::inserted_by_name(s, x)),
    decreases s.len(),
{
    let r = store::inserted_by_name(s, x);
    if s.len() > 0 {
        if lists::text_le(s.last().name, x.name) {
            assert forall|i: int, j: int| 0 <= i < j < r.len() implies lists::text_le(
                (#[trigger] r[i]).name,
                (#[trigger] r[j]).name,
            ) by {
                if j == s.len() && i < s.len() - 1 {
                    assert(lists::text_le(s[i].name, s[s.len() - 1].name));
                    lists::text_order_is_transitive(s[i].name, s.last().name, x.name);
                }
            }
        } else {
            let t = s.drop_last();
            assert(sorted_by_name(t)) by {
                assert forall|i: int, j: int| 0 <= i < j < t.len() implies lists::text_le(
                    (#[trigger] t[i]).name,
                    (#[trigger] t[j]).name,
                ) by {
                    assert(lists::text_le(s[i].name, s[j].name));
                }
            }
            lemma_inserted_sorted(t, x);
            let q = store::inserted_by_name(t, x);
            assert forall|i: int, j: int| 0 <= i < j < r.len() implies lists::text_le(
                (#[trigger] r[i]).name,
                (#[trigger] r[j]).name,
            ) by {
                if j == q.len() {
                    assert(q[i] == r[i]);
                    assert(q.contains(q[i]));
                    lemma_inserted_contains(t, x, q[i]);
                    if t.contains(q[i]) {
                        let k = choose|k: int| 0 <= k < t.len() && t[k] == q[i];
                        assert(lists::text_le(s[k].name, s[s.len() - 1].name));
                    } else {
                        lists::text_order_is_total(s.last().name, x.name);
                    }
                } else {
                    assert(lists::text_le(q[i].name, q[j].name));
                }
            }
        }
    }
}

/// A listing is sorted by name.
pub proof fn listing_is_sorted(
    rows: Seq<RowView>,
    kind: Option<ExtensionKind>,
    agent: Option<Seq<char>>,
)
    ensures
        sorted_by_name(store::listed(rows, kind, agent)),
    decreases rows.len(),
{
    if rows.len() > 0 {
        listing_is_sorted(rows.drop_last(), kind, agent);
        lemma_inserted_sorted(
            store::listed(rows.drop_last(), kind, agent),
            rows.last().ext,
        );
    }
}

} // verus!
