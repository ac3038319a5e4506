//! What giving a pack to extensions changes, and what taking over their packs does.

use vstd::prelude::*;

use crate::models::{ExtensionKind, ExtensionView, InstallMetaView};
use crate::pack;
use crate::service::binding;
use crate::store;
use crate::store::RowView;

verus! {

/// Whether an install record is the one that is made up for a pack: bound by hand, to
/// the repository of the pack on GitHub, and never checked for updates.
pub open spec fn is_made_up_for(m: InstallMetaView, p: Seq<char>) -> bool {
    &&& m.install_type == "manual"@
    &&& m.url == Some("https://github.com/"@ + p + ".git"@)
    &&& m.url_resolved is None
    &&& m.branch is None
    &&& m.subpath is None
    &&& m.revision is None
    &&& m.remote_revision is None
    &&& m.checked_at is None
    &&& m.check_error is None
}

/// Whether two extensions differ in nothing but their pack and their install record.
pub open spec fn same_but_for_pack(a: ExtensionView, b: ExtensionView) -> bool {
    a == (ExtensionView { pack: a.pack, install_meta: a.install_meta, ..b })
}

/// Giving a pack to a group changes the pack of each of the group to what was meant, or
/// takes it away where nothing was typed. The install record of a skill that was not
/// installed follows: it is made up for a pack, goes with it, and stays where no pack
/// has that form. Nothing else of a row changes, and no row outside of the group.
pub proof fn given_packs_go_to_the_group(
    rows: Seq<RowView>,
    ids: Seq<Seq<char>>,
    typed: Option<Seq<char>>,
    i: int,
)
    requires
        store::ids_distinct(rows),
        0 <= i < rows.len(),
    ensures
        ({
            let e = rows[i].ext;
            let after = binding::bound(rows, ids, typed);
            let t = after[i].ext;
            let cleared = typed is None || pack::normal_pack(typed->0).len() == 0;
            let p = pack::normal_pack(typed->0);
            let follows = e.kind == ExtensionKind::Skill && (e.install_meta is None
                || e.install_meta->0.install_type == "manual"@);
            &&& after.len() == rows.len()
            &&& !ids.contains(e.id) ==> after[i] == rows[i]
            &&& ids.contains(e.id) ==> {
                &&& after[i].disabled_config == rows[i].disabled_config
                &&& same_but_for_pack(t, e)
                &&& cleared ==> t.pack is None
                &&& !cleared ==> t.pack == Some(p)
                &&& !follows ==> t.install_meta == e.install_meta
                &&& follows && cleared ==> t.install_meta is None
                &&& follows && !cleared && pack::is_pack(p) ==> t.install_meta is Some
                    && is_made_up_for(t.install_meta->0, p)
                &&& follows && !cleared && !pack::is_pack(p) ==> t.install_meta == e.install_meta
            }
        }),
{
    binding::binding_by_rows(rows, ids, typed, i);
}

/// Whether the pack of an extension is there to be taken over: it is a skill without an
/// install record, and what its pack means has the form of one.
pub open spec fn has_pack_only(e: ExtensionView) -> bool {
    &&& e.kind == ExtensionKind::Skill
    &&& e.install_meta is None
    &&& e.pack is Some
    &&& pack::is_pack(pack::normal_pack(e.pack->0))
}

/// Taking over packs makes up install records for exactly the skills that have a pack
/// and no record; the pack is written down as it is meant. Nothing else changes.
pub proof fn packs_without_records_are_taken_over(rows: Seq<RowView>, i: int)
    requires
        store::ids_distinct(rows),
        0 <= i < rows.len(),
    ensures
        ({
            let e = rows[i].ext;
            let after = binding::all_taken_over(rows, store::listed(rows, None, None));
            let t = after[i].ext;
            &&& after.len() == rows.len()
            &&& !has_pack_only(e) ==> after[i] == rows[i]
            &&& has_pack_only(e) ==> {
                let p = pack::normal_pack(e.pack->0);
                &&& after[i].disabled_config == rows[i].disabled_config
                &&& same_but_for_pack(t, e)
                &&& t.pack == Some(p)
                &&& t.install_meta is Some
                &&& is_made_up_for(t.install_meta->0, p)
            }
        }),
{
    binding::taking_over_by_rows(rows, i);
}

/// What is counted are the skills whose packs are taken over.
pub proof fn taken_over_packs_are_counted(found: Seq<ExtensionView>)
    ensures
        binding::count_to_bind(found) == found.filter(|e: ExtensionView| has_pack_only(e)).len(),
    decreases found.len(),
{
    reveal(Seq::filter);
    if found.len() > 0 {
        taken_over_packs_are_counted(found.drop_last());
    }
}

} // verus!
