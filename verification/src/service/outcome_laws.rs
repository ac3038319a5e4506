//! What is left when an operation is done: what the caller is told, and what has become
//! of the table.

use vstd::prelude::*;

use crate::agents::AgentView;
use crate::files::FileTreeView;
use crate::lists;
use crate::models;
use crate::models::{
    AuditInput, AuditResult, AuditResultView, ConfigScopeView, ExtensionContent, ExtensionKind,
    ExtensionView, HkError, Timestamp,
};
use crate::service::audit;
use crate::service::content;
use crate::service::deploy;
use crate::service::deploy::{Deployed, DeploymentView};
use crate::service::finishing;
use crate::service::removal;
use crate::service::removal::{RemovalPlanView, RemovalView};
use crate::service::updates;
use crate::store;
use crate::store::laws;
use crate::store::StoreView;

verus! {

// ---------------------------------------------------------------------------
// Audits
// ---------------------------------------------------------------------------

proof fn lemma_results_ids(s: StoreView, results: Seq<AuditResultView>, id: Seq<char>)
    ensures
        store::has_id(audit::with_results(s, results).rows, id) <==> store::has_id(s.rows, id),
    decreases results.len(),
{
    if results.len() > 0 {
        let t = results.drop_last();
        let before = audit::with_results(s, t).rows;
        let after = audit::with_results(s, results).rows;
        lemma_results_ids(s, t, id);
        if store::has_id(before, id) {
            let i = choose|i: int| 0 <= i < before.len() && (#[trigger] before[i]).ext.id == id;
            assert(after[i].ext.id == id);
        }
        if store::has_id(after, id) {
            let i = choose|i: int| 0 <= i < after.len() && (#[trigger] after[i]).ext.id == id;
            assert(before[i].ext.id == id);
        }
    }
}

/// The results for extensions that are known are written down behind the earlier ones,
/// in their order; the others are not.
pub proof fn results_are_written_down_in_order(s: StoreView, results: Seq<AuditResultView>)
    ensures
        audit::with_results(s, results).audits == s.audits + results.filter(
            |x: AuditResultView| store::has_id(s.rows, x.extension_id),
        ),
    decreases results.len(),
{
    reveal(Seq::filter);
    let known = |x: AuditResultView| store::has_id(s.rows, x.extension_id);
    if results.len() > 0 {
        let t = results.drop_last();
        results_are_written_down_in_order(s, t);
        lemma_results_ids(s, t, results.last().extension_id);
        assert(s.audits + t.filter(known).push(results.last()) =~= (s.audits + t.filter(
            known,
        )).push(results.last()));
    } else {
        assert(s.audits + results.filter(known) =~= s.audits);
    }
}

/// An extension has the score of the last result for it; without one its score stays.
pub proof fn score_is_that_of_the_last_result(
    s: StoreView,
    results: Seq<AuditResultView>,
    i: int,
    k: int,
)
    requires
        0 <= i < s.rows.len(),
    ensures
        0 <= k < results.len() && results[k].extension_id == s.rows[i].ext.id && (forall|j: int|
            k < j < results.len() ==> (#[trigger] results[j]).extension_id != s.rows[i].ext.id)
            ==> audit::with_results(s, results).rows[i].ext.trust_score == Some(
            results[k].trust_score,
        ),
        (forall|j: int|
            0 <= j < results.len() ==> (#[trigger] results[j]).extension_id != s.rows[i].ext.id)
            ==> audit::with_results(s, results).rows[i].ext.trust_score
            == s.rows[i].ext.trust_score,
    decreases results.len(),
{
    if results.len() > 0 {
        let t = results.drop_last();
        let id = s.rows[i].ext.id;
        let last = results.last();
        let before = audit::with_results(s, t);
        score_is_that_of_the_last_result(s, t, i, k);
        audit::results_change_only_scores(s, t, i);
        assert forall|j: int| 0 <= j < t.len() implies #[trigger] t[j] == results[j] by {}
        if last.extension_id == id {
            assert(before.rows[i].ext.id == id);
            assert(store::has_id(before.rows, id));
        }
        if 0 <= k < t.len() && results[k].extension_id == id && (forall|j: int|
            k < j < results.len() ==> (#[trigger] results[j]).extension_id != id) {
            assert(results[results.len() - 1].extension_id != id);
            assert(t[k].extension_id == id);
            assert forall|j: int| k < j < t.len() implies (#[trigger] t[j]).extension_id != id by {
                assert(results[j].extension_id != id);
            }
        }
        if forall|j: int| 0 <= j < results.len() ==> (#[trigger] results[j]).extension_id != id {
            assert(results[results.len() - 1].extension_id != id);
            assert forall|j: int| 0 <= j < t.len() implies (#[trigger] t[j]).extension_id != id by {
                assert(results[j].extension_id != id);
            }
        }
    }
}

// ---------------------------------------------------------------------------
// Removals
// ---------------------------------------------------------------------------

proof fn lemma_audits_without(audits: Seq<AuditResultView>, id: Seq<char>, a: AuditResultView)
    ensures
        store::audits_without(audits, id).contains(a) <==> audits.contains(a) && a.extension_id
            != id,
    decreases audits.len(),
{
    if audits.len() > 0 {
        let t = audits.drop_last();
        lemma_audits_without(t, id, a);
        lists::lemma_last_contains(audits, a);
        lists::lemma_push_contains(store::audits_without(t, id), audits.last(), a);
    } else {
        assert(!audits.contains(a));
        assert(!store::audits_without(audits, id).contains(a));
    }
}

proof fn lemma_without_all(s: StoreView, ids: Seq<Seq<char>>, x: Seq<char>, a: AuditResultView)
    ensures
        store::row_with(removal::without_all(s, ids).rows, x) == (if ids.contains(x) {
            None
        } else {
            store::row_with(s.rows, x)
        }),
        removal::without_all(s, ids).audits.contains(a) <==> s.audits.contains(a) && !ids.contains(
            a.extension_id,
        ),
        removal::without_all(s, ids).projects == s.projects,
    decreases ids.len(),
{
    if ids.len() > 0 {
        let t = ids.drop_last();
        let before = removal::without_all(s, t);
        lemma_without_all(s, t, x, a);
        laws::removed_extension_is_gone(before, ids.last(), x);
        lemma_audits_without(before.audits, ids.last(), a);
        lists::lemma_last_contains(ids, x);
        lists::lemma_last_contains(ids, a.extension_id);
    } else {
        assert(!ids.contains(x));
        assert(!ids.contains(a.extension_id));
    }
}

/// A removal takes the extension and its copies out of the table, with their audit
/// results, whichever way it is carried out; all other extensions and results stay, and
/// so do the projects.
pub proof fn removal_leaves_all_else(
    s: StoreView,
    fs: FileTreeView,
    agents: Seq<AgentView>,
    plan: RemovalPlanView,
    x: Seq<char>,
    a: AuditResultView,
)
    ensures
        ({
            let after = removal::carried_out(s, plan);
            let leaves = |y: Seq<char>| y == plan.id || plan.copies.contains(y);
            &&& store::row_with(after.rows, x) == (if leaves(x) {
                None
            } else {
                store::row_with(s.rows, x)
            })
            &&& after.audits.contains(a) <==> s.audits.contains(a) && !leaves(a.extension_id)
            &&& after.projects == s.projects
        }),
        removal::removal_of(s, fs, agents, plan.id) == Some(plan) ==> removal::removed(
            s,
            fs,
            store::row_with(s.rows, plan.id)->0,
            plan.id,
        ) == removal::carried_out(s, plan),
{
    let once = store::without_extension(s, plan.id);
    laws::removed_extension_is_gone(s, plan.id, x);
    lemma_audits_without(s.audits, plan.id, a);
    lemma_without_all(once, plan.copies, x, a);
}

/// Where nothing has to be removed the extension leaves the table at once.
pub proof fn nothing_to_remove_succeeds(
    replies: Seq<Result<(), HkError>>,
    before: StoreView,
    gone: StoreView,
    after: StoreView,
    r: Result<(), HkError>,
)
    requires
        removal::replies_handled(Seq::<RemovalView>::empty(), replies, before, gone, after, r),
        replies.len() == 0,
    ensures
        r is Ok,
        after == gone,
{
}

// ---------------------------------------------------------------------------
// Updates
// ---------------------------------------------------------------------------

/// The caller is told what the tool said that was asked to update an extension. The
/// table changes only where it did, the repository is known, and its newest revision can
/// be told: then that revision is recorded.
pub proof fn updates_record_the_newest_revision<H: FnOnce(String) -> Result<String, HkError>>(
    reply: Result<bool, HkError>,
    head: H,
    e: ExtensionView,
    before: StoreView,
    after: StoreView,
    r: Result<bool, HkError>,
)
    requires
        updates::reply_handled(reply, head, e, before, after, r),
    ensures
        r == reply,
        reply != Ok::<bool, HkError>(true) ==> after == before,
        updates::asked_url(e, reply) is None ==> after == before,
        after.projects == before.projects && after.audits == before.audits,
        updates::asked_url(e, reply) matches Some(url) ==> exists|u: String, h: Result<String, HkError>|
            u@ == url && #[trigger] call_ensures(head, (u,), h) && (h is Err ==> after == before)
                && (h matches Ok(revision) ==> after.rows == updates::with_revision(
                before.rows,
                e,
                revision@,
            )),
{
}

// ---------------------------------------------------------------------------
// Installations
// ---------------------------------------------------------------------------

/// Where writing fails the caller is told, and nothing changes. Else the caller is told
/// the name; and a skill that has an install record hands it on, with its pack, to the
/// one agent that it was written for: as if it had been installed there. Nothing else
/// changes the table.
pub proof fn installed_skills_hand_on_their_record<A: Fn(AuditInput) -> AuditResult>(
    judge: A,
    before: StoreView,
    after: StoreView,
    e: ExtensionView,
    d: DeploymentView,
    target: Seq<char>,
    scope: ConfigScopeView,
    now: Timestamp,
    reply: Result<Deployed, HkError>,
    r: Result<String, HkError>,
)
    requires
        deploy::write_handled(judge, before, after, e, d, target, scope, now, reply, r),
    ensures
        reply matches Err(x) ==> r == Err::<String, HkError>(x) && after == before,
        reply matches Ok(w) ==> r is Ok && r->Ok_0@ == deploy::reported(d, w.name@) && {
            let hands_on = e.kind == ExtensionKind::Skill && e.install_meta is Some;
            &&& !hands_on ==> after == before
            &&& hands_on ==> exists|results: Seq<AuditResult>|
                #![trigger models::list_view(results)]
                after == audit::with_results(
                    finishing::installed(
                        before,
                        w.fs@,
                        models::list_view(w.agents@),
                        seq![target],
                        w.name@,
                        e.install_meta,
                        e.pack,
                        scope,
                        now,
                    ).0,
                    models::list_view(results),
                ) && results.len() == deploy::judged_inputs(before, e, target, scope, now, w).len()
        },
{
}

/// After an installation exactly the skills with its name are judged that were found
/// then, if its record was handed on; else nothing is.
pub proof fn installed_skills_are_judged(
    before: StoreView,
    e: ExtensionView,
    target: Seq<char>,
    scope: ConfigScopeView,
    now: Timestamp,
    w: Deployed,
    x: ExtensionView,
)
    ensures
        ({
            let judged = deploy::judged_inputs(before, e, target, scope, now, w);
            let agents = models::list_view(w.agents@);
            let found = finishing::installed(
                before,
                w.fs@,
                agents,
                seq![target],
                w.name@,
                e.install_meta,
                e.pack,
                scope,
                now,
            ).1;
            &&& e.kind != ExtensionKind::Skill || e.install_meta is None ==> judged.len() == 0
            &&& e.kind == ExtensionKind::Skill && e.install_meta is Some && found.contains(x)
                && x.kind == ExtensionKind::Skill && x.name == w.name@ ==> judged.contains(
                audit::audit_input(w.fs@, agents, x),
            )
        }),
{
    let agents = models::list_view(w.agents@);
    let found = finishing::installed(
        before,
        w.fs@,
        agents,
        seq![target],
        w.name@,
        e.install_meta,
        e.pack,
        scope,
        now,
    ).1;
    let told = audit::audit_input(w.fs@, agents, x);
    crate::service::audit_laws::audit_by_name_is_told_of_the_skills(
        w.fs@,
        agents,
        found,
        w.name@,
        told,
    );
    if found.contains(x) {
        let i = choose|i: int| 0 <= i < found.len() && found[i] == x;
        assert(found[i].name == x.name);
    }
}

// ---------------------------------------------------------------------------
// Reading
// ---------------------------------------------------------------------------

/// What was read is shown as it is, with the path and the link that belong to it; that
/// it cannot be read is told as it is.
pub proof fn read_text_is_shown(
    path: Seq<char>,
    symlink_target: Option<Seq<char>>,
    reply: Result<String, HkError>,
    r: Result<ExtensionContent, HkError>,
)
    requires
        content::read_handled(path, symlink_target, reply, r),
    ensures
        reply matches Err(x) ==> r == Err::<ExtensionContent, HkError>(x),
        reply matches Ok(c) ==> r is Ok && r->Ok_0@.content == c@ && r->Ok_0@.path == Some(path)
            && r->Ok_0@.symlink_target == symlink_target,
{
}

} // verus!
