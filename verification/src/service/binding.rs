//! Binding of skills to a repository by hand: the user gives a pack, and the skill
//! gets an install record for it.

use vstd::prelude::*;

use crate::models;
use crate::models::{Extension, ExtensionKind, ExtensionView, InstallMetaView};
use crate::pack;
use crate::store;
use crate::store::laws;
use crate::store::{RowView, Store, StoreView};
use crate::text;

verus! {

/// The pack that is meant by what the user typed; none where nothing is left of
/// it.
pub open spec fn wanted_pack(typed: Option<Seq<char>>) -> Option<Seq<char>> {
    match typed {
        Some(p) => if pack::normal_pack(p).len() == 0 {
            None
        } else {
            Some(pack::normal_pack(p))
        },
        None => None,
    }
}

/// Whether an extension was bound by hand.
pub open spec fn is_bound_by_hand(e: ExtensionView) -> bool {
    e.install_meta matches Some(m) && m.install_type == "manual"@
}

/// Whether the install record of an extension does not follow its pack: no skill,
/// or one that was installed.
pub open spec fn keeps_record(e: ExtensionView) -> bool {
    e.kind != ExtensionKind::Skill || (e.install_meta is Some && !is_bound_by_hand(e))
}

/// Rows after the install record of one of them has followed its pack.
pub open spec fn followed(
    rows: Seq<RowView>,
    id: Seq<char>,
    wanted: Option<Seq<char>>,
) -> Seq<RowView> {
    match store::row_with(rows, id) {
        None => rows,
        Some(e) => if keeps_record(e) {
            rows
        } else {
            match wanted {
                Some(p) => if pack::is_pack(p) {
                    store::with_meta(rows, id, Some(pack::manual_meta(p)))
                } else {
                    rows
                },
                None => if is_bound_by_hand(e) {
                    store::with_meta(rows, id, None)
                } else {
                    rows
                },
            }
        },
    }
}

/// Rows after the install records of some of them have followed their packs.
pub open spec fn all_followed(
    rows: Seq<RowView>,
    ids: Seq<Seq<char>>,
    wanted: Option<Seq<char>>,
) -> Seq<RowView>
    decreases ids.len(),
{
    if ids.len() == 0 {
        rows
    } else {
        followed(all_followed(rows, ids.drop_last(), wanted), ids.last(), wanted)
    }
}

/// Rows after the user gave a pack for some of them.
pub open spec fn bound(
    rows: Seq<RowView>,
    ids: Seq<Seq<char>>,
    typed: Option<Seq<char>>,
) -> Seq<RowView> {
    all_followed(
        store::with_packs(rows, ids, wanted_pack(typed)),
        ids,
        wanted_pack(typed),
    )
}

fn has_manual_record(e: &Extension) -> (r: bool)
    ensures
        r == is_bound_by_hand(e@),
{
    match &e.install_meta {
        Some(m) => text::str_eq(&m.install_type, "manual"),
        None => false,
    }
}

fn record_stays(e: &Extension) -> (r: bool)
    ensures
        r == keeps_record(e@),
{
    e.kind != ExtensionKind::Skill || (e.install_meta.is_some() && !has_manual_record(e))
}

fn find_wanted_pack(typed: Option<&str>) -> (r: Option<String>)
    ensures
        text::ostr(r) == wanted_pack(
            match typed {
                Some(p) => Some(p@),
                None => None,
            },
        ),
{
    match typed {
        Some(p) => {
            let n = pack::normalize_pack(p);
            if n.as_str().is_empty() {
                None
            } else {
                Some(n)
            }
        },
        None => None,
    }
}

fn follow(store: &mut Store, id: &str, wanted: &Option<String>)
    ensures
        final(store)@ == (StoreView {
            rows: followed(old(store)@.rows, id@, text::ostr(*wanted)),
            ..old(store)@
        }),
{
    let e = match store.get_extension(id) {
        None => {
            return ;
        },
        Some(e) => e,
    };
    if record_stays(&e) {
        return ;
    }
    match wanted {
        Some(p) => {
            if pack::is_valid_pack_format(p) {
                store.set_install_meta(id, &pack::synthesize_manual_install_meta(p));
            }
        },
        None => {
            if has_manual_record(&e) {
                store.clear_install_meta(id);
            }
        },
    }
}

/// Gives a group of extensions a pack, or takes it away, and lets the install
/// records of skills follow:
///
/// - a skill without a record, or one that was bound by hand, is bound to a pack
///   of the form `owner/repo`;
/// - a skill that was bound by hand loses its record with its pack;
/// - a record of an installation is left alone, and so is everything that is no
///   skill;
/// - a pack of another form is kept, and changes no record.
pub fn bind_pack(store: &mut Store, ids: &Vec<String>, pack: Option<&str>)
    ensures
        final(store)@ == (StoreView {
            rows: bound(
                old(store)@.rows,
                text::strs(ids@),
                match pack {
                    Some(p) => Some(p@),
                    None => None,
                },
            ),
            ..old(store)@
        }),
        final(store)@.rows == old(store)@.rows.map_values(
            |r: RowView|
                row_bound(
                    r,
                    text::strs(ids@),
                    match pack {
                        Some(p) => Some(p@),
                        None => None,
                    },
                ),
        ),
{
    let ghost known = store@.rows;
    let ghost typed = match pack {
        Some(p) => Some(p@),
        None => None,
    };
    proof {
        use_type_invariant(&*store);
    }
    let wanted = find_wanted_pack(pack);
    match &wanted {
        Some(p) => store.batch_update_pack(ids, Some(p.as_str())),
        None => store.batch_update_pack(ids, None),
    }
    let ghost rows = store@.rows;
    let ghost all = text::strs(ids@);
    let mut i: usize = 0;
    assert(all.take(0) =~= Seq::<Seq<char>>::empty());
    while i < ids.len()
        invariant
            all == text::strs(ids@),
            i <= ids.len(),
            store@ == (StoreView {
                rows: all_followed(rows, all.take(i as int), text::ostr(wanted)),
                ..old(store)@
            }),
        decreases ids.len() - i,
    {
        assert(all.take(i + 1).drop_last() =~= all.take(i as int));
        assert(all.take(i + 1).last() == ids@[i as int]@);
        follow(store, &ids[i], &wanted);
        i += 1;
    }
    assert(all.take(i as int) =~= all);
    proof {
        lemma_bound_len(known, all, typed);
        assert forall|k: int| 0 <= k < known.len() implies (#[trigger] store@.rows[k])
            == row_bound(known[k], all, typed) by {
            binding_by_rows(known, all, typed, k);
        }
        assert(store@.rows =~= known.map_values(|r: RowView| row_bound(r, all, typed)));
    }
}

// ---------------------------------------------------------------------------
// What binding means, row by row
// ---------------------------------------------------------------------------

/// The install record of an extension after it was given a pack.
pub open spec fn record_for(e: ExtensionView, wanted: Option<Seq<char>>) -> Option<
    InstallMetaView,
> {
    if keeps_record(e) {
        e.install_meta
    } else {
        match wanted {
            Some(p) => if pack::is_pack(p) {
                Some(pack::manual_meta(p))
            } else {
                e.install_meta
            },
            None => None,
        }
    }
}

/// A row after the user gave a pack for a group of extensions.
pub open spec fn row_bound(
    r: RowView,
    ids: Seq<Seq<char>>,
    typed: Option<Seq<char>>,
) -> RowView {
    if ids.contains(r.ext.id) {
        RowView {
            ext: ExtensionView {
                pack: wanted_pack(typed),
                install_meta: record_for(r.ext, wanted_pack(typed)),
                ..r.ext
            },
            ..r
        }
    } else {
        r
    }
}

/// Binding gives each extension of the group the pack and the install record that
/// goes with it, and leaves the others alone.
pub proof fn binding_by_rows(
    rows: Seq<RowView>,
    ids: Seq<Seq<char>>,
    typed: Option<Seq<char>>,
    i: int,
)
    requires
        store::ids_distinct(rows),
        0 <= i < rows.len(),
    ensures
        bound(rows, ids, typed).len() == rows.len(),
        bound(rows, ids, typed)[i] == row_bound(rows[i], ids, typed),
{
    let wanted = wanted_pack(typed);
    let mid = store::with_packs(rows, ids, wanted);
    lemma_packs_by_rows(rows, ids, wanted, i);
    assert(store::ids_distinct(mid)) by {
        assert forall|k: int| 0 <= k < rows.len() implies mid[k].ext.id == (
        #[trigger] rows[k]).ext.id by {
            lemma_packs_by_rows(rows, ids, wanted, k);
        }
        assert forall|a: int, b: int| 0 <= a < b < mid.len() implies (#[trigger] mid[a]).ext.id != (
        #[trigger] mid[b]).ext.id by {
            assert(rows[a].ext.id != rows[b].ext.id);
        }
    }
    lemma_followed_by_rows(mid, ids, wanted, i);
}

proof fn lemma_packs_by_rows(
    rows: Seq<RowView>,
    ids: Seq<Seq<char>>,
    wanted: Option<Seq<char>>,
    i: int,
)
    requires
        0 <= i < rows.len(),
    ensures
        store::with_packs(rows, ids, wanted).len() == rows.len(),
        store::with_packs(rows, ids, wanted)[i] == (if ids.contains(rows[i].ext.id) {
            RowView { ext: ExtensionView { pack: wanted, ..rows[i].ext }, ..rows[i] }
        } else {
            rows[i]
        }),
    decreases ids.len(),
{
    if ids.len() > 0 {
        lemma_packs_by_rows(rows, ids.drop_last(), wanted, i);
        lemma_contains_last(ids, rows[i].ext.id);
    }
}

proof fn lemma_contains_last(ids: Seq<Seq<char>>, id: Seq<char>)
    requires
        ids.len() > 0,
    ensures
        ids.contains(id) <==> ids.drop_last().contains(id) || ids.last() == id,
{
    let t = ids.drop_last();
    if t.contains(id) {
        let k = choose|k: int| 0 <= k < t.len() && t[k] == id;
        assert(ids[k] == id);
    }
    if ids.last() == id {
        assert(ids[ids.len() - 1] == id);
    }
    if ids.contains(id) {
        let k = choose|k: int| 0 <= k < ids.len() && ids[k] == id;
        if k < t.len() {
            assert(t[k] == id);
        }
    }
}

proof fn lemma_row_at(rows: Seq<RowView>, i: int)
    requires
        store::ids_distinct(rows),
        0 <= i < rows.len(),
    ensures
        store::row_with(rows, rows[i].ext.id) == Some(rows[i].ext),
    decreases rows.len(),
{
    if i > 0 {
        let t = rows.drop_first();
        assert(rows[0].ext.id != rows[i].ext.id);
        assert(t[i - 1] == rows[i]);
        assert(store::ids_distinct(t)) by {
            assert forall|a: int, b: int| 0 <= a < b < t.len() implies (#[trigger] t[a]).ext.id != (
            #[trigger] t[b]).ext.id by {
                assert(rows[a + 1].ext.id != rows[b + 1].ext.id);
            }
        }
        lemma_row_at(t, i - 1);
    }
}

proof fn lemma_followed_by_rows(
    rows: Seq<RowView>,
    ids: Seq<Seq<char>>,
    wanted: Option<Seq<char>>,
    i: int,
)
    requires
        store::ids_distinct(rows),
        0 <= i < rows.len(),
    ensures
        laws::same_ids(rows, all_followed(rows, ids, wanted)),
        all_followed(rows, ids, wanted)[i] == (if ids.contains(rows[i].ext.id) {
            RowView {
                ext: ExtensionView { install_meta: record_for(rows[i].ext, wanted), ..rows[i].ext },
                ..rows[i]
            }
        } else {
            rows[i]
        }),
    decreases ids.len(),
{
    if ids.len() > 0 {
        let t = ids.drop_last();
        let before = all_followed(rows, t, wanted);
        lemma_followed_by_rows(rows, t, wanted, i);
        lemma_contains_last(ids, rows[i].ext.id);
        assert(store::ids_distinct(before)) by {
            assert forall|a: int, b: int| 0 <= a < b < before.len() implies (
            #[trigger] before[a]).ext.id != (#[trigger] before[b]).ext.id by {
                assert(rows[a].ext.id != rows[b].ext.id);
            }
        }
        lemma_row_at(before, i);
        assert(pack::manual_meta(wanted->0).install_type == "manual"@);
    }
}

/// The record of an installation survives every binding, and so does the record of
/// everything that is no skill.
pub proof fn binding_keeps_installations(
    rows: Seq<RowView>,
    ids: Seq<Seq<char>>,
    typed: Option<Seq<char>>,
    i: int,
)
    requires
        store::ids_distinct(rows),
        0 <= i < rows.len(),
        rows[i].ext.kind != ExtensionKind::Skill || (rows[i].ext.install_meta matches Some(m)
            && m.install_type != "manual"@),
    ensures
        bound(rows, ids, typed)[i].ext.install_meta == rows[i].ext.install_meta,
{
    binding_by_rows(rows, ids, typed, i);
}

/// Taking the pack away undoes a binding: a skill that had no install record has
/// none again, and no pack.
pub proof fn clearing_undoes_binding(
    rows: Seq<RowView>,
    ids: Seq<Seq<char>>,
    typed: Option<Seq<char>>,
    i: int,
)
    requires
        store::ids_distinct(rows),
        0 <= i < rows.len(),
        ids.contains(rows[i].ext.id),
        rows[i].ext.kind == ExtensionKind::Skill,
        rows[i].ext.install_meta is None,
    ensures
        bound(bound(rows, ids, typed), ids, None)[i] == (RowView {
            ext: ExtensionView { pack: None, ..rows[i].ext },
            ..rows[i]
        }),
{
    let once = bound(rows, ids, typed);
    lemma_bound_distinct(rows, ids, typed);
    binding_by_rows(rows, ids, typed, i);
    binding_by_rows(once, ids, None, i);
}

/// Binding to the same pack again changes nothing.
pub proof fn binding_twice_is_binding_once(
    rows: Seq<RowView>,
    ids: Seq<Seq<char>>,
    typed: Option<Seq<char>>,
)
    requires
        store::ids_distinct(rows),
    ensures
        bound(bound(rows, ids, typed), ids, typed) == bound(rows, ids, typed),
{
    let once = bound(rows, ids, typed);
    let twice = bound(once, ids, typed);
    lemma_bound_distinct(rows, ids, typed);
    assert(twice.len() == once.len()) by {
        if once.len() > 0 {
            binding_by_rows(once, ids, typed, 0);
        } else {
            lemma_bound_len(once, ids, typed);
        }
    }
    assert forall|i: int| 0 <= i < once.len() implies #[trigger] twice[i] == once[i] by {
        binding_by_rows(rows, ids, typed, i);
        binding_by_rows(once, ids, typed, i);
    }
    assert(twice =~= once);
}

proof fn lemma_bound_len(rows: Seq<RowView>, ids: Seq<Seq<char>>, typed: Option<Seq<char>>)
    ensures
        bound(rows, ids, typed).len() == rows.len(),
{
    lemma_packs_len(rows, ids, wanted_pack(typed));
    lemma_followed_len(
        store::with_packs(rows, ids, wanted_pack(typed)),
        ids,
        wanted_pack(typed),
    );
}

proof fn lemma_packs_len(rows: Seq<RowView>, ids: Seq<Seq<char>>, wanted: Option<Seq<char>>)
    ensures
        store::with_packs(rows, ids, wanted).len() == rows.len(),
    decreases ids.len(),
{
    if ids.len() > 0 {
        lemma_packs_len(rows, ids.drop_last(), wanted);
    }
}

proof fn lemma_followed_len(rows: Seq<RowView>, ids: Seq<Seq<char>>, wanted: Option<Seq<char>>)
    ensures
        all_followed(rows, ids, wanted).len() == rows.len(),
    decreases ids.len(),
{
    if ids.len() > 0 {
        lemma_followed_len(rows, ids.drop_last(), wanted);
    }
}

proof fn lemma_bound_distinct(rows: Seq<RowView>, ids: Seq<Seq<char>>, typed: Option<Seq<char>>)
    requires
        store::ids_distinct(rows),
    ensures
        bound(rows, ids, typed).len() == rows.len(),
        store::ids_distinct(bound(rows, ids, typed)),
{
    let once = bound(rows, ids, typed);
    lemma_bound_len(rows, ids, typed);
    assert forall|a: int, b: int| 0 <= a < b < once.len() implies (#[trigger] once[a]).ext.id != (
    #[trigger] once[b]).ext.id by {
        binding_by_rows(rows, ids, typed, a);
        binding_by_rows(rows, ids, typed, b);
        assert(rows[a].ext.id != rows[b].ext.id);
    }
}

// ---------------------------------------------------------------------------
// Packs from before
// ---------------------------------------------------------------------------

/// The pack that an extension is bound to when packs are taken over: a skill with
/// a pack of the form `owner/repo` and no install record.
pub open spec fn pack_to_bind(e: ExtensionView) -> Option<Seq<char>> {
    if e.kind == ExtensionKind::Skill && e.install_meta is None {
        match e.pack {
            Some(p) => if pack::is_pack(pack::normal_pack(p)) {
                Some(pack::normal_pack(p))
            } else {
                None
            },
            None => None,
        }
    } else {
        None
    }
}

/// Rows after the pack of one extension was taken over.
pub open spec fn taken_over(rows: Seq<RowView>, e: ExtensionView) -> Seq<RowView> {
    match pack_to_bind(e) {
        None => rows,
        Some(p) => store::with_meta(
            if e.pack == Some(p) {
                rows
            } else {
                store::with_pack(rows, e.id, Some(p))
            },
            e.id,
            Some(pack::manual_meta(p)),
        ),
    }
}

/// Rows after the packs of some extensions were taken over.
pub open spec fn all_taken_over(rows: Seq<RowView>, found: Seq<ExtensionView>) -> Seq<RowView>
    decreases found.len(),
{
    if found.len() == 0 {
        rows
    } else {
        taken_over(all_taken_over(rows, found.drop_last()), found.last())
    }
}

/// How many extensions have a pack to be taken over.
pub open spec fn count_to_bind(found: Seq<ExtensionView>) -> nat
    decreases found.len(),
{
    if found.len() == 0 {
        0
    } else if pack_to_bind(found.last()) is Some {
        count_to_bind(found.drop_last()) + 1
    } else {
        count_to_bind(found.drop_last())
    }
}

fn find_pack_to_bind(e: &Extension) -> (r: Option<String>)
    ensures
        text::ostr(r) == pack_to_bind(e@),
{
    if e.kind != ExtensionKind::Skill || e.install_meta.is_some() {
        return None;
    }
    match &e.pack {
        Some(raw) => {
            let p = pack::normalize_pack(raw);
            if pack::is_valid_pack_format(&p) {
                Some(p)
            } else {
                None
            }
        },
        None => None,
    }
}

fn take_over(store: &mut Store, e: &Extension) -> (r: bool)
    ensures
        r == (pack_to_bind(e@) is Some),
        final(store)@ == (StoreView { rows: taken_over(old(store)@.rows, e@), ..old(store)@ }),
{
    match find_pack_to_bind(e) {
        None => false,
        Some(p) => {
            let unchanged = match &e.pack {
                Some(raw) => text::str_eq(raw, &p),
                None => false,
            };
            if !unchanged {
                store.update_pack(&e.id, Some(p.as_str()));
            }
            store.set_install_meta(&e.id, &pack::synthesize_manual_install_meta(&p));
            true
        },
    }
}

/// Binds every skill that has a pack of the form `owner/repo` but no install
/// record, and puts its pack into that form. Tells how many there were.
pub fn migrate_pack_to_manual_meta(store: &mut Store) -> (r: usize)
    ensures
        final(store)@ == (StoreView {
            rows: all_taken_over(
                old(store)@.rows,
                store::listed(old(store)@.rows, None, None),
            ),
            ..old(store)@
        }),
        final(store)@.rows == old(store)@.rows.map_values(|r: RowView| row_taken_over(r)),
        r == count_to_bind(store::listed(old(store)@.rows, None, None)),
{
    proof {
        use_type_invariant(&*store);
    }
    let found = store.list_extensions(None, None);
    let ghost rows = store@.rows;
    let ghost all = models::list_view(found@);
    let mut n: usize = 0;
    let mut i: usize = 0;
    assert(all.take(0) =~= Seq::<ExtensionView>::empty());
    while i < found.len()
        invariant
            all == models::list_view(found@),
            i <= found.len(),
            n <= i,
            n == count_to_bind(all.take(i as int)),
            store@ == (StoreView {
                rows: all_taken_over(rows, all.take(i as int)),
                ..old(store)@
            }),
        decreases found.len() - i,
    {
        assert(all.take(i + 1).drop_last() =~= all.take(i as int));
        assert(all.take(i + 1).last() == found@[i as int]@);
        if take_over(store, &found[i]) {
            n += 1;
        }
        i += 1;
    }
    assert(all.take(i as int) =~= all);
    proof {
        lemma_taken_over_len(rows, all);
        assert forall|k: int| 0 <= k < rows.len() implies (#[trigger] store@.rows[k])
            == row_taken_over(rows[k]) by {
            taking_over_by_rows(rows, k);
        }
        assert(store@.rows =~= rows.map_values(|r: RowView| row_taken_over(r)));
    }
    n
}

/// A row after its pack was taken over.
pub open spec fn row_taken_over(r: RowView) -> RowView {
    match pack_to_bind(r.ext) {
        None => r,
        Some(p) => RowView {
            ext: ExtensionView {
                pack: Some(p),
                install_meta: Some(pack::manual_meta(p)),
                ..r.ext
            },
            ..r
        },
    }
}

proof fn lemma_taken_over_by_rows(rows: Seq<RowView>, found: Seq<ExtensionView>, i: int)
    requires
        store::ids_distinct(rows),
        0 <= i < rows.len(),
        forall|k: int|
            0 <= k < found.len() ==> exists|j: int|
                0 <= j < rows.len() && (#[trigger] rows[j]).ext == #[trigger] found[k],
    ensures
        laws::same_ids(rows, all_taken_over(rows, found)),
        all_taken_over(rows, found)[i] == (if found.contains(rows[i].ext) {
            row_taken_over(rows[i])
        } else {
            rows[i]
        }),
    decreases found.len(),
{
    if found.len() > 0 {
        let t = found.drop_last();
        let e = found.last();
        assert forall|k: int| 0 <= k < t.len() implies exists|j: int|
            0 <= j < rows.len() && (#[trigger] rows[j]).ext == #[trigger] t[k] by {
            assert(t[k] == found[k]);
        }
        lemma_taken_over_by_rows(rows, t, i);
        assert(found.contains(rows[i].ext) <==> t.contains(rows[i].ext) || e == rows[i].ext) by {
            if t.contains(rows[i].ext) {
                let k = choose|k: int| 0 <= k < t.len() && t[k] == rows[i].ext;
                assert(found[k] == rows[i].ext);
            }
            if e == rows[i].ext {
                assert(found[found.len() - 1] == e);
            }
            if found.contains(rows[i].ext) {
                let k = choose|k: int| 0 <= k < found.len() && found[k] == rows[i].ext;
                if k < t.len() {
                    assert(t[k] == rows[i].ext);
                }
            }
        }
        assert(found[found.len() - 1] == e);
        let j = choose|j: int| 0 <= j < rows.len() && (#[trigger] rows[j]).ext == e;
        assert(rows[j].ext == e);
        if e.id == rows[i].ext.id {
            assert(i == j);
        }
    }
}

/// Taking packs over binds each skill with a pack of the right form and no install
/// record, and leaves the others alone.
pub proof fn taking_over_by_rows(rows: Seq<RowView>, i: int)
    requires
        store::ids_distinct(rows),
        0 <= i < rows.len(),
    ensures
        all_taken_over(rows, store::listed(rows, None, None)).len() == rows.len(),
        all_taken_over(rows, store::listed(rows, None, None))[i] == row_taken_over(rows[i]),
{
    let found = store::listed(rows, None, None);
    assert forall|k: int| 0 <= k < found.len() implies exists|j: int|
        0 <= j < rows.len() && (#[trigger] rows[j]).ext == #[trigger] found[k] by {
        laws::listing_holds_what_is_asked_for(rows, None, None, found[k]);
        assert(found.contains(found[k]));
    }
    lemma_taken_over_by_rows(rows, found, i);
    laws::listing_holds_what_is_asked_for(rows, None, None, rows[i].ext);
}

proof fn lemma_taken_over_len(rows: Seq<RowView>, found: Seq<ExtensionView>)
    ensures
        all_taken_over(rows, found).len() == rows.len(),
    decreases found.len(),
{
    if found.len() > 0 {
        lemma_taken_over_len(rows, found.drop_last());
    }
}

proof fn lemma_none_to_bind(rows: Seq<RowView>, found: Seq<ExtensionView>)
    requires
        forall|k: int| 0 <= k < found.len() ==> pack_to_bind(#[trigger] found[k]) is None,
    ensures
        count_to_bind(found) == 0,
        all_taken_over(rows, found) == rows,
    decreases found.len(),
{
    if found.len() > 0 {
        let t = found.drop_last();
        assert forall|k: int| 0 <= k < t.len() implies pack_to_bind(#[trigger] t[k]) is None by {
            assert(t[k] == found[k]);
        }
        lemma_none_to_bind(rows, t);
        assert(pack_to_bind(found[found.len() - 1]) is None);
    }
}

/// Taking packs over a second time finds none, and changes nothing.
pub proof fn taking_over_twice_finds_none(rows: Seq<RowView>)
    requires
        store::ids_distinct(rows),
    ensures
        ({
            let once = all_taken_over(rows, store::listed(rows, None, None));
            &&& count_to_bind(store::listed(once, None, None)) == 0
            &&& all_taken_over(once, store::listed(once, None, None)) == once
        }),
{
    let once = all_taken_over(rows, store::listed(rows, None, None));
    let found = store::listed(once, None, None);
    lemma_taken_over_len(rows, store::listed(rows, None, None));
    assert forall|k: int| 0 <= k < found.len() implies pack_to_bind(
        #[trigger] found[k],
    ) is None by {
        laws::listing_holds_what_is_asked_for(once, None, None, found[k]);
        assert(found.contains(found[k]));
        let j = choose|j: int| 0 <= j < once.len() && (#[trigger] once[j]).ext == found[k];
        assert(once[j].ext == found[k]);
        taking_over_by_rows(rows, j);
    }
    lemma_none_to_bind(once, found);
}

} // verus!
