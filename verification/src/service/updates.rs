//! Which extensions can be updated, and the update of skills that another tool
//! manages.

use vstd::prelude::*;

use crate::models;
use crate::models::{
    ConfigScope, ConfigScopeView, Extension, ExtensionKind, ExtensionView, HkError, InstallMeta,
    InstallMetaView,
};
use crate::store;
use crate::store::laws;
use crate::store::{RowView, Store, StoreView};
use crate::text;

verus! {

/// Whether an extension can be updated: a skill that is global, or that was
/// installed into its project.
pub open spec fn can_update(e: ExtensionView) -> bool {
    e.kind == ExtensionKind::Skill && (e.scope is Global || e.install_meta is Some)
}

/// Whether an extension can be updated. Only skills can. A skill of a project
/// without an install record belongs to the user, and must not be tied to another
/// skill that happens to have its name.
pub fn is_update_eligible(ext: &Extension) -> (r: bool)
    ensures
        r == can_update(ext@),
{
    ext.kind == ExtensionKind::Skill && (ext.scope.is_global() || ext.install_meta.is_some())
}

/// Whether another tool owns the files of an extension.
pub open spec fn is_managed_elsewhere(e: ExtensionView) -> bool {
    e.kind == ExtensionKind::Skill && e.source.from_manifest
}

/// Whether another tool owns the files of an extension: a skill whose source
/// comes from the lock file of that tool.
pub fn is_externally_managed(ext: &Extension) -> (r: bool)
    ensures
        r == is_managed_elsewhere(ext@),
{
    ext.kind == ExtensionKind::Skill && ext.source.from_manifest
}

/// Whether two scopes are the same. The name of a project does not matter.
pub open spec fn scopes_agree(a: ConfigScopeView, b: ConfigScopeView) -> bool {
    match (a, b) {
        (ConfigScopeView::Global, ConfigScopeView::Global) => true,
        (
            ConfigScopeView::Project { path: p, .. },
            ConfigScopeView::Project { path: q, .. },
        ) => p == q,
        _ => false,
    }
}

/// Whether two scopes are the same: both global, or the same project. An update
/// in one scope leaves the copies in the others alone.
pub fn same_scope(a: &ConfigScope, b: &ConfigScope) -> (r: bool)
    ensures
        r == scopes_agree(a@, b@),
{
    match a {
        ConfigScope::Global => b.is_global(),
        ConfigScope::Project { path: p, .. } => match b {
            ConfigScope::Global => false,
            ConfigScope::Project { path: q, .. } => text::str_eq(p, q),
        },
    }
}

/// Being in the same scope is an equivalence.
pub proof fn same_scope_is_an_equivalence(
    a: ConfigScopeView,
    b: ConfigScopeView,
    c: ConfigScopeView,
)
    ensures
        scopes_agree(a, a),
        scopes_agree(a, b) == scopes_agree(b, a),
        scopes_agree(a, b) && scopes_agree(b, c) ==> scopes_agree(a, c),
{
}

// ---------------------------------------------------------------------------
// Recording a revision
// ---------------------------------------------------------------------------

/// The install record that a revision goes into: that of the extension, or one
/// for its repository.
pub open spec fn base_meta(e: ExtensionView) -> InstallMetaView {
    match e.install_meta {
        Some(m) => m,
        None => InstallMetaView {
            install_type: "git"@,
            url: e.source.url,
            url_resolved: None,
            branch: None,
            subpath: None,
            revision: None,
            remote_revision: None,
            checked_at: None,
            check_error: None,
        },
    }
}

/// The install record of an extension at a revision, as if it had not been checked
/// for updates.
pub open spec fn meta_at(e: ExtensionView, revision: Seq<char>) -> InstallMetaView {
    InstallMetaView {
        revision: Some(revision),
        remote_revision: None,
        checked_at: None,
        check_error: None,
        ..base_meta(e)
    }
}

/// Whether `x` is a copy of the extension `e`: of its kind, name and scope.
pub open spec fn is_copy(e: ExtensionView, x: ExtensionView) -> bool {
    x.kind == e.kind && x.name == e.name && scopes_agree(x.scope, e.scope)
}

/// Rows after a revision of `e` was recorded: the copies get the install record of
/// `e` at that revision.
pub open spec fn with_revision(
    rows: Seq<RowView>,
    e: ExtensionView,
    revision: Seq<char>,
) -> Seq<RowView> {
    rows.map_values(
        |r: RowView|
            if is_copy(e, r.ext) {
                RowView {
                    ext: ExtensionView { install_meta: Some(meta_at(e, revision)), ..r.ext },
                    ..r
                }
            } else {
                r
            },
    )
}

fn make_meta_at(ext: &Extension, revision: &str) -> (r: InstallMeta)
    ensures
        r@ == meta_at(ext@, revision@),
{
    match &ext.install_meta {
        Some(m) => {
            let mut q = m.clone();
            q.revision = Some(revision.to_owned());
            q.remote_revision = None;
            q.checked_at = None;
            q.check_error = None;
            q
        },
        None => InstallMeta {
            install_type: "git".to_owned(),
            url: text::clone_opt(&ext.source.url),
            url_resolved: None,
            branch: None,
            subpath: None,
            revision: Some(revision.to_owned()),
            remote_revision: None,
            checked_at: None,
            check_error: None,
        },
    }
}

/// Records a revision on every copy of a skill in its scope, so that the check for
/// updates finds them up to date.
pub fn record_skill_revision(store: &mut Store, ext: &Extension, revision: &str)
    ensures
        final(store)@ == (StoreView {
            rows: with_revision(old(store)@.rows, ext@, revision@),
            ..old(store)@
        }),
{
    proof {
        use_type_invariant(&*store);
    }
    let updated = make_meta_at(ext, revision);
    let found = store.list_extensions(Some(ext.kind), None);
    let ghost rows = store@.rows;
    let ghost all = models::list_view(found@);
    let mut i: usize = 0;
    assert(marked(rows, all.take(0), ext@, updated@) =~= rows);
    while i < found.len()
        invariant
            all == models::list_view(found@),
            all == store::listed(rows, Some(ext.kind), None),
            rows == old(store)@.rows,
            i <= found.len(),
            updated@ == meta_at(ext@, revision@),
            store@ == (StoreView {
                rows: marked(rows, all.take(i as int), ext@, updated@),
                ..old(store)@
            }),
        decreases found.len() - i,
    {
        let ghost before = store@.rows;
        let ghost x = all[i as int];
        assert(all.take(i + 1).drop_last() =~= all.take(i as int));
        assert(all.take(i + 1).last() == found@[i as int]@);
        assert(x.kind == ext.kind) by {
            laws::listing_holds_what_is_asked_for(rows, Some(ext.kind), None, x);
            assert(all.contains(x));
        }
        if text::str_eq(&found[i].name, &ext.name) && same_scope(&found[i].scope, &ext.scope) {
            store.set_install_meta(&found[i].id, &updated);
            assert(store@.rows =~= marked(rows, all.take(i + 1), ext@, updated@)) by {
                lemma_marked_step(rows, all.take(i + 1), ext@, updated@);
            }
        } else {
            assert(store@.rows =~= marked(rows, all.take(i + 1), ext@, updated@)) by {
                lemma_marked_step(rows, all.take(i + 1), ext@, updated@);
            }
        }
        i += 1;
    }
    assert(all.take(i as int) =~= all);
    assert forall|k: int| 0 <= k < rows.len() implies is_copy(ext@, rows[k].ext) == listed_copy(
        all,
        ext@,
        (#[trigger] rows[k]).ext.id,
    ) by {
        let id = rows[k].ext.id;
        if is_copy(ext@, rows[k].ext) {
            laws::listing_holds_what_is_asked_for(rows, Some(ext.kind), None, rows[k].ext);
            assert(all.contains(rows[k].ext));
            let n = choose|n: int| 0 <= n < all.len() && all[n] == rows[k].ext;
            assert(all[n].id == id);
        }
        if listed_copy(all, ext@, id) {
            let n = choose|n: int|
                0 <= n < all.len() && (#[trigger] all[n]).id == id && is_copy(ext@, all[n]);
            assert(all.contains(all[n]));
            laws::listing_holds_what_is_asked_for(rows, Some(ext.kind), None, all[n]);
            let j = choose|j: int| 0 <= j < rows.len() && (#[trigger] rows[j]).ext == all[n];
            assert(rows[j].ext.id == id);
            assert(j == k);
        }
    }
    assert(store@.rows =~= with_revision(rows, ext@, revision@));
}

/// Whether a list has a copy of `e` with an identifier.
spec fn listed_copy(found: Seq<ExtensionView>, e: ExtensionView, id: Seq<char>) -> bool {
    exists|i: int| 0 <= i < found.len() && (#[trigger] found[i]).id == id && is_copy(e, found[i])
}

/// Rows with the record of those replaced whose identifier a copy in the list has.
spec fn marked(
    rows: Seq<RowView>,
    found: Seq<ExtensionView>,
    e: ExtensionView,
    meta: InstallMetaView,
) -> Seq<RowView> {
    rows.map_values(
        |r: RowView|
            if listed_copy(found, e, r.ext.id) {
                RowView { ext: ExtensionView { install_meta: Some(meta), ..r.ext }, ..r }
            } else {
                r
            },
    )
}

proof fn lemma_marked_step(
    rows: Seq<RowView>,
    found: Seq<ExtensionView>,
    e: ExtensionView,
    meta: InstallMetaView,
)
    requires
        found.len() > 0,
    ensures
        is_copy(e, found.last()) ==> marked(rows, found, e, meta) == store::with_meta(
            marked(rows, found.drop_last(), e, meta),
            found.last().id,
            Some(meta),
        ),
        !is_copy(e, found.last()) ==> marked(rows, found, e, meta) == marked(
            rows,
            found.drop_last(),
            e,
            meta,
        ),
{
    let t = found.drop_last();
    assert forall|id: Seq<char>| #[trigger] listed_copy(found, e, id) == (listed_copy(t, e, id) || (
    found.last().id == id && is_copy(e, found.last()))) by {
        if listed_copy(t, e, id) {
            let i = choose|i: int|
                0 <= i < t.len() && (#[trigger] t[i]).id == id && is_copy(e, t[i]);
            assert(found[i] == t[i]);
        }
        if found.last().id == id && is_copy(e, found.last()) {
            assert(found[found.len() - 1].id == id);
        }
        if listed_copy(found, e, id) {
            let i = choose|i: int|
                0 <= i < found.len() && (#[trigger] found[i]).id == id && is_copy(e, found[i]);
            if i < t.len() {
                assert(t[i] == found[i]);
            }
        }
    }
    if is_copy(e, found.last()) {
        assert(marked(rows, found, e, meta) =~= store::with_meta(
            marked(rows, t, e, meta),
            found.last().id,
            Some(meta),
        ));
    } else {
        assert(marked(rows, found, e, meta) =~= marked(rows, t, e, meta));
    }
}

/// Recording a revision changes nothing but install records, and those of exactly
/// the copies in the scope of the extension.
pub proof fn revision_stays_in_scope(
    rows: Seq<RowView>,
    e: ExtensionView,
    revision: Seq<char>,
    i: int,
)
    requires
        0 <= i < rows.len(),
    ensures
        with_revision(rows, e, revision).len() == rows.len(),
        is_copy(e, rows[i].ext) ==> with_revision(rows, e, revision)[i] == (RowView {
            ext: ExtensionView { install_meta: Some(meta_at(e, revision)), ..rows[i].ext },
            ..rows[i]
        }),
        !is_copy(e, rows[i].ext) ==> with_revision(rows, e, revision)[i] == rows[i],
{
}

// ---------------------------------------------------------------------------
// Updates by another tool
// ---------------------------------------------------------------------------

/// Where the repository of an extension is: by its install record, else by its
/// source.
pub open spec fn update_url(e: ExtensionView) -> Option<Seq<char>> {
    match e.install_meta {
        Some(m) => match m.url {
            Some(u) => Some(u),
            None => e.source.url,
        },
        None => e.source.url,
    }
}

/// What follows an update by another tool: the newest revision of the repository
/// is recorded, if it can be told.
pub open spec fn revision_recorded<H: FnOnce(String) -> Result<String, HkError>>(
    head: H,
    e: ExtensionView,
    before: StoreView,
    after: StoreView,
) -> bool {
    match update_url(e) {
        None => after == before,
        Some(url) => exists|u: String, h: Result<String, HkError>|
            u@ == url && #[trigger] call_ensures(head, (u,), h) && after == (match h {
                Ok(revision) => StoreView {
                    rows: with_revision(before.rows, e, revision@),
                    ..before
                },
                Err(_) => before,
            }),
    }
}

/// What follows the reply of the tool that was asked to update an extension.
pub open spec fn reply_handled<H: FnOnce(String) -> Result<String, HkError>>(
    reply: Result<bool, HkError>,
    head: H,
    e: ExtensionView,
    before: StoreView,
    after: StoreView,
    r: Result<bool, HkError>,
) -> bool {
    r == reply && match reply {
        Ok(true) => revision_recorded(head, e, before, after),
        _ => after == before,
    }
}

fn find_update_url(ext: &Extension) -> (r: Option<String>)
    ensures
        text::ostr(r) == update_url(ext@),
{
    match &ext.install_meta {
        Some(m) => match &m.url {
            Some(u) => Some(u.clone()),
            None => text::clone_opt(&ext.source.url),
        },
        None => text::clone_opt(&ext.source.url),
    }
}

/// The repository that is asked for its newest revision after the reply of the tool
/// that was asked to update an extension: none where it did not update it.
pub open spec fn asked_url(e: ExtensionView, reply: Result<bool, HkError>) -> Option<Seq<char>> {
    match reply {
        Ok(true) => update_url(e),
        _ => None,
    }
}

/// The repository that is asked for its newest revision after the reply of the tool
/// that was asked to update an extension: none where it did not update it.
pub fn find_url_to_ask(ext: &Extension, reply: &Result<bool, HkError>) -> (r: Option<String>)
    ensures
        text::ostr(r) == asked_url(ext@, *reply),
{
    match reply {
        Ok(true) => find_update_url(ext),
        _ => None,
    }
}

/// Hands the update of a skill to the tool that manages it. `update` asks that
/// tool, by name and scope, and tells whether it could; `head` tells the newest
/// revision of a repository. An extension that no other tool manages is not
/// handed over.
///
/// After an update the newest revision is recorded on every copy in the scope, so
/// that they do not count as outdated. That it cannot be told is no error.
///
/// `update` need only be ready for a skill that another tool manages, and `head` for
/// the repository of one that was updated.
pub fn try_delegate_skill_update<
    U: FnOnce(String, ConfigScope) -> Result<bool, HkError>,
    H: FnOnce(String) -> Result<String, HkError>,
>(store: &mut Store, ext: &Extension, update: U, head: H) -> (r: Result<bool, HkError>)
    requires
        is_managed_elsewhere(ext@) ==> forall|n: String, s: ConfigScope|
            n@ == ext@.name && s@ == ext@.scope ==> #[trigger] call_requires(update, (n, s)),
        is_managed_elsewhere(ext@) ==> forall|
            n: String,
            s: ConfigScope,
            reply: Result<bool, HkError>,
            u: String,
        |
            #![trigger call_ensures(update, (n, s), reply), call_requires(head, (u,))]
            n@ == ext@.name && s@ == ext@.scope && call_ensures(update, (n, s), reply)
                && asked_url(ext@, reply) == Some(u@) ==> call_requires(head, (u,)),
    ensures
        !is_managed_elsewhere(ext@) ==> r == Ok::<bool, HkError>(false) && final(store)@ == old(
            store,
        )@,
        is_managed_elsewhere(ext@) ==> exists|
            n: String,
            s: ConfigScope,
            reply: Result<bool, HkError>,
        |
            n@ == ext@.name && s@ == ext@.scope && #[trigger] call_ensures(update, (n, s), reply)
                && reply_handled(reply, head, ext@, old(store)@, final(store)@, r),
{
    if !is_externally_managed(ext) {
        return Ok(false);
    }
    let name = ext.name.clone();
    let scope = ext.scope.clone();
    let ghost (n, s) = (name, scope);
    let reply = update(name, scope);
    assert(call_ensures(update, (n, s), reply));
    if let Some(url) = find_url_to_ask(ext, &reply) {
        let ghost u = url;
        let h = head(url);
        assert(call_ensures(head, (u,), h));
        if let Ok(revision) = &h {
            record_skill_revision(store, ext, revision);
        }
        assert(revision_recorded(head, ext@, old(store)@, store@));
    }
    assert(reply_handled(reply, head, ext@, old(store)@, store@, reply));
    reply
}

} // verus!
