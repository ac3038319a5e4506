//! Which extensions can be updated, and what an update puts on record.

use vstd::prelude::*;

use crate::models::{ConfigScopeView, ExtensionKind, ExtensionView, HkError};
use crate::service::updates;
use crate::store::RowView;

verus! {

/// Exactly the skills can be updated that are global or were installed into their
/// project; and exactly the skills whose manifest another tool wrote belong to that
/// tool.
pub proof fn skills_are_updated_where_they_were_installed(e: ExtensionView)
    ensures
        e.kind != ExtensionKind::Skill ==> !updates::can_update(e)
            && !updates::is_managed_elsewhere(e),
        e.kind == ExtensionKind::Skill && e.scope is Global ==> updates::can_update(e),
        e.kind == ExtensionKind::Skill && !(e.scope is Global) ==> (updates::can_update(e)
            <==> e.install_meta is Some),
        e.kind == ExtensionKind::Skill ==> (updates::is_managed_elsewhere(e)
            <==> e.source.from_manifest),
{
}

/// Whether two scopes are one: both global, or projects at the same path.
pub open spec fn is_one_scope(a: ConfigScopeView, b: ConfigScopeView) -> bool {
    (a is Global && b is Global) || (!(a is Global) && !(b is Global) && a->path == b->path)
}

/// Recording a revision of an extension gives it to every row of the same kind and
/// name in the same scope, and touches nothing else. The record is the one that the
/// extension has, or one for its repository, at that revision and as if it had not been
/// checked for updates.
pub proof fn revision_goes_to_every_copy(
    rows: Seq<RowView>,
    e: ExtensionView,
    revision: Seq<char>,
    i: int,
)
    requires
        0 <= i < rows.len(),
    ensures
        ({
            let after = updates::with_revision(rows, e, revision);
            let r = rows[i].ext;
            let copy = r.kind == e.kind && r.name == e.name && is_one_scope(r.scope, e.scope);
            &&& after.len() == rows.len()
            &&& !copy ==> after[i] == rows[i]
            &&& copy ==> {
                let t = after[i].ext;
                &&& after[i].disabled_config == rows[i].disabled_config
                &&& t == (ExtensionView { install_meta: t.install_meta, ..r })
                &&& t.install_meta matches Some(m) && m.revision == Some(revision)
                    && m.remote_revision is None && m.checked_at is None && m.check_error is None
                    && (match e.install_meta {
                    Some(old) => m.install_type == old.install_type && m.url == old.url
                        && m.url_resolved == old.url_resolved && m.branch == old.branch && m.subpath
                        == old.subpath,
                    None => m.install_type == "git"@ && m.url == e.source.url
                        && m.url_resolved is None && m.branch is None && m.subpath is None,
                })
            }
        }),
{
}

/// The repository that is asked for its newest revision is the one that an extension
/// was installed from, else the one that it comes from; it is asked exactly if the
/// other tool did update the extension.
pub proof fn only_updated_repositories_are_asked(e: ExtensionView, reply: Result<bool, HkError>)
    ensures
        reply != Ok::<bool, HkError>(true) ==> updates::asked_url(e, reply) is None,
        reply == Ok::<bool, HkError>(true) ==> updates::asked_url(e, reply) == (
        if e.install_meta is Some && e.install_meta->0.url is Some {
            e.install_meta->0.url
        } else {
            e.source.url
        }),
{
}

} // verus!
