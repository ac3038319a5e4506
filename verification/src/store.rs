//! The table of known extensions, with projects and audit results.

use vstd::prelude::*;

use crate::lists;
use crate::models;
use crate::models::{
    AuditResult, AuditResultView, Extension, ExtensionKind, ExtensionView, HkError, HkErrorView,
    InstallMeta, InstallMetaView, Timestamp,
};
use crate::text;

pub mod laws;
pub mod merging;
pub mod sync;

verus! {

// ---------------------------------------------------------------------------
// Rows
// ---------------------------------------------------------------------------

/// A known extension.
#[derive(Debug)]
pub struct Row {
    /// The extension.
    pub ext: Extension,
    /// What was taken out of a configuration file when it was disabled.
    pub disabled_config: Option<String>,
}

/// The mathematical value of a [`Row`].
#[verifier::ext_equal]
pub struct RowView {
    pub ext: ExtensionView,
    pub disabled_config: Option<Seq<char>>,
}

impl View for Row {
    type V = RowView;

    open spec fn view(&self) -> RowView {
        RowView {
            ext: self.ext@,
            disabled_config: text::ostr(self.disabled_config),
        }
    }
}

impl Clone for Row {
    fn clone(&self) -> (r: Self)
        ensures
            r@ == self@,
    {
        Row {
            ext: self.ext.clone(),
            disabled_config: text::clone_opt(&self.disabled_config),
        }
    }
}

/// A copy of a list of rows.
pub(crate) fn clone_rows(v: &Vec<Row>) -> (r: Vec<Row>)
    ensures
        models::list_view(r@) == models::list_view(v@),
{
    let mut out: Vec<Row> = Vec::new();
    let mut i: usize = 0;
    while i < v.len()
        invariant
            i <= v.len(),
            out.len() == i,
            forall|j: int| 0 <= j < i ==> (#[trigger] out@[j])@ == v@[j]@,
        decreases v.len() - i,
    {
        out.push(v[i].clone());
        i += 1;
    }
    assert(models::list_view(out@) =~= models::list_view(v@));
    out
}

/// A known project.
#[derive(Debug)]
pub struct Project {
    /// Its identifier.
    pub id: String,
    /// Its name.
    pub name: String,
    /// Where it lies.
    pub path: String,
    /// When it was added.
    pub created_at: Timestamp,
}

/// The mathematical value of a [`Project`].
#[verifier::ext_equal]
pub struct ProjectView {
    pub id: Seq<char>,
    pub name: Seq<char>,
    pub path: Seq<char>,
    pub created_at: Timestamp,
}

impl View for Project {
    type V = ProjectView;

    open spec fn view(&self) -> ProjectView {
        ProjectView {
            id: self.id@,
            name: self.name@,
            path: self.path@,
            created_at: self.created_at,
        }
    }
}

/// The table of known extensions, with projects and audit results.
pub struct Store {
    rows: Vec<Row>,
    projects: Vec<Project>,
    audits: Vec<AuditResult>,
}

/// The mathematical value of a [`Store`].
#[verifier::ext_equal]
pub struct StoreView {
    pub rows: Seq<RowView>,
    pub projects: Seq<ProjectView>,
    pub audits: Seq<AuditResultView>,
}

impl View for Store {
    type V = StoreView;

    closed spec fn view(&self) -> StoreView {
        StoreView {
            rows: models::list_view(self.rows@),
            projects: models::list_view(self.projects@),
            audits: models::list_view(self.audits@),
        }
    }
}

/// Whether a row with an identifier exists.
pub open spec fn has_id(rows: Seq<RowView>, id: Seq<char>) -> bool {
    exists|i: int| 0 <= i < rows.len() && (#[trigger] rows[i]).ext.id == id
}

/// Whether no two rows have the same identifier.
pub open spec fn ids_distinct(rows: Seq<RowView>) -> bool {
    forall|i: int, j: int|
        0 <= i < j < rows.len() ==> (#[trigger] rows[i]).ext.id != (#[trigger] rows[j]).ext.id
}

/// The extension with an identifier.
pub open spec fn row_with(rows: Seq<RowView>, id: Seq<char>) -> Option<ExtensionView>
    decreases rows.len(),
{
    if rows.len() == 0 {
        None
    } else if rows[0].ext.id == id {
        Some(rows[0].ext)
    } else {
        row_with(rows.drop_first(), id)
    }
}

/// Rows with the install record of one of them replaced.
pub open spec fn with_meta(
    rows: Seq<RowView>,
    id: Seq<char>,
    meta: Option<InstallMetaView>,
) -> Seq<RowView> {
    rows.map_values(
        |r: RowView|
            if r.ext.id == id {
                RowView { ext: ExtensionView { install_meta: meta, ..r.ext }, ..r }
            } else {
                r
            },
    )
}

/// Rows with the pack of one of them replaced.
pub open spec fn with_pack(rows: Seq<RowView>, id: Seq<char>, pack: Option<Seq<char>>) -> Seq<
    RowView,
> {
    rows.map_values(
        |r: RowView|
            if r.ext.id == id {
                RowView { ext: ExtensionView { pack, ..r.ext }, ..r }
            } else {
                r
            },
    )
}

/// Rows with the packs of some of them replaced.
pub open spec fn with_packs(rows: Seq<RowView>, ids: Seq<Seq<char>>, pack: Option<Seq<char>>) -> Seq<
    RowView,
>
    decreases ids.len(),
{
    if ids.len() == 0 {
        rows
    } else {
        with_pack(with_packs(rows, ids.drop_last(), pack), ids.last(), pack)
    }
}

/// Rows with the score of one of them replaced.
pub open spec fn with_score(rows: Seq<RowView>, id: Seq<char>, score: u8) -> Seq<RowView> {
    rows.map_values(
        |r: RowView|
            if r.ext.id == id {
                RowView { ext: ExtensionView { trust_score: Some(score), ..r.ext }, ..r }
            } else {
                r
            },
    )
}

/// Rows with one of them enabled or disabled.
pub open spec fn with_enabled(rows: Seq<RowView>, id: Seq<char>, enabled: bool) -> Seq<RowView> {
    rows.map_values(
        |r: RowView|
            if r.ext.id == id {
                RowView { ext: ExtensionView { enabled, ..r.ext }, ..r }
            } else {
                r
            },
    )
}

/// Rows with what was taken out of the configuration for one of them replaced.
pub open spec fn with_disabled_config(
    rows: Seq<RowView>,
    id: Seq<char>,
    config: Option<Seq<char>>,
) -> Seq<RowView> {
    rows.map_values(
        |r: RowView|
            if r.ext.id == id {
                RowView { disabled_config: config, ..r }
            } else {
                r
            },
    )
}

/// Rows without the one that has an identifier.
pub open spec fn without_id(rows: Seq<RowView>, id: Seq<char>) -> Seq<RowView>
    decreases rows.len(),
{
    if rows.len() == 0 {
        Seq::<RowView>::empty()
    } else if rows.last().ext.id == id {
        without_id(rows.drop_last(), id)
    } else {
        without_id(rows.drop_last(), id).push(rows.last())
    }
}

/// Audit results without those of one extension.
pub open spec fn audits_without(audits: Seq<AuditResultView>, id: Seq<char>) -> Seq<AuditResultView>
    decreases audits.len(),
{
    if audits.len() == 0 {
        Seq::<AuditResultView>::empty()
    } else if audits.last().extension_id == id {
        audits_without(audits.drop_last(), id)
    } else {
        audits_without(audits.drop_last(), id).push(audits.last())
    }
}

/// A store without an extension and its audit results.
pub open spec fn without_extension(s: StoreView, id: Seq<char>) -> StoreView {
    StoreView {
        rows: without_id(s.rows, id),
        audits: audits_without(s.audits, id),
        ..s
    }
}

/// A row after its extension was seen again. What the user or an installation
/// put there stays: tags, score, install record, the time of installation, and
/// the pack if there is one. Whether it is enabled stays too where it is `recorded`;
/// a scan of its agent knows better, unless the extension was disabled by taking it
/// out of a configuration file.
pub open spec fn refreshed(r: RowView, e: ExtensionView, recorded: bool) -> RowView {
    RowView {
        ext: ExtensionView {
            tags: r.ext.tags,
            trust_score: r.ext.trust_score,
            install_meta: r.ext.install_meta,
            installed_at: r.ext.installed_at,
            enabled: if recorded || r.disabled_config is Some {
                r.ext.enabled
            } else {
                e.enabled
            },
            pack: if r.ext.pack is Some {
                r.ext.pack
            } else {
                e.pack
            },
            ..e
        },
        ..r
    }
}

/// A row for an extension that is seen for the first time; its install record is
/// taken over only where it is `recorded`.
pub open spec fn fresh_row(e: ExtensionView, recorded: bool) -> RowView {
    RowView {
        ext: if recorded {
            e
        } else {
            ExtensionView { install_meta: None, ..e }
        },
        disabled_config: None,
    }
}

/// Rows after an extension was seen: because it is to be `recorded`, or by a scan of
/// its agent.
pub open spec fn upserted(rows: Seq<RowView>, e: ExtensionView, recorded: bool) -> Seq<RowView> {
    if has_id(rows, e.id) {
        rows.map_values(
            |r: RowView|
                if r.ext.id == e.id {
                    refreshed(r, e, recorded)
                } else {
                    r
                },
        )
    } else {
        rows.push(fresh_row(e, recorded))
    }
}

/// Whether a row is asked for.
pub open spec fn is_listed(e: ExtensionView, kind: Option<ExtensionKind>, agent: Option<Seq<char>>) -> bool {
    (kind is None || e.kind == kind->0) && (agent is None || e.agents.contains(agent->0))
}

/// A list that is sorted by name with one more extension, behind those whose name
/// is not greater.
pub open spec fn inserted_by_name(s: Seq<ExtensionView>, x: ExtensionView) -> Seq<ExtensionView>
    decreases s.len(),
{
    if s.len() == 0 {
        seq![x]
    } else if lists::text_le(s.last().name, x.name) {
        s.push(x)
    } else {
        inserted_by_name(s.drop_last(), x).push(s.last())
    }
}

/// The extensions that are asked for, by name; those with the same name in the
/// order of the rows.
pub open spec fn listed(
    rows: Seq<RowView>,
    kind: Option<ExtensionKind>,
    agent: Option<Seq<char>>,
) -> Seq<ExtensionView>
    decreases rows.len(),
{
    if rows.len() == 0 {
        Seq::<ExtensionView>::empty()
    } else {
        let before = listed(rows.drop_last(), kind, agent);
        if is_listed(rows.last().ext, kind, agent) {
            inserted_by_name(before, rows.last().ext)
        } else {
            before
        }
    }
}

/// The identifiers of the extensions with a name and a kind.
pub open spec fn ids_named(rows: Seq<RowView>, name: Seq<char>, kind: Seq<char>) -> Seq<Seq<char>>
    decreases rows.len(),
{
    if rows.len() == 0 {
        Seq::<Seq<char>>::empty()
    } else {
        let before = ids_named(rows.drop_last(), name, kind);
        let e = rows.last().ext;
        if e.name == name && e.kind.text() == kind {
            before.push(e.id)
        } else {
            before
        }
    }
}

/// Whether a project with an identifier or a path is known.
pub open spec fn knows_project(projects: Seq<ProjectView>, id: Seq<char>, p: Seq<char>) -> bool {
    exists|i: int|
        0 <= i < projects.len() && ((#[trigger] projects[i]).id == id || projects[i].path == p)
}

/// Whether one point in time is later than another.
pub open spec fn later(a: Timestamp, b: Timestamp) -> bool {
    a.secs > b.secs || (a.secs == b.secs && a.nanos > b.nanos)
}

/// Projects from the newest to the oldest with one more of them, behind those
/// that are not older.
pub open spec fn inserted_by_age(s: Seq<ProjectView>, x: ProjectView) -> Seq<ProjectView>
    decreases s.len(),
{
    if s.len() == 0 {
        seq![x]
    } else if later(x.created_at, s.last().created_at) {
        inserted_by_age(s.drop_last(), x).push(s.last())
    } else {
        s.push(x)
    }
}

/// The projects from the newest to the oldest.
pub open spec fn by_age(projects: Seq<ProjectView>) -> Seq<ProjectView>
    decreases projects.len(),
{
    if projects.len() == 0 {
        Seq::<ProjectView>::empty()
    } else {
        inserted_by_age(by_age(projects.drop_last()), projects.last())
    }
}

/// The names and paths of the projects, from the newest to the oldest.
pub open spec fn project_tuples(projects: Seq<ProjectView>) -> Seq<(Seq<char>, Seq<char>)> {
    by_age(projects).map_values(|p: ProjectView| (p.name, p.path))
}

fn push_row(rows: &mut Vec<Row>, r: Row)
    ensures
        models::list_view(final(rows)@) == models::list_view(old(rows)@).push(r@),
{
    rows.push(r);
    assert(models::list_view(rows@) =~= models::list_view(old(rows)@).push(r@));
}

fn rows_have(rows: &Vec<Row>, id: &str) -> (r: bool)
    ensures
        r == has_id(models::list_view(rows@), id@),
{
    let ghost v = models::list_view(rows@);
    let mut i: usize = 0;
    while i < rows.len()
        invariant
            v == models::list_view(rows@),
            i <= rows.len(),
            forall|j: int| 0 <= j < i ==> (#[trigger] v[j]).ext.id != id@,
        decreases rows.len() - i,
    {
        assert(v[i as int] == rows@[i as int]@);
        if text::str_eq(&rows[i].ext.id, id) {
            assert(v[i as int].ext.id == id@);
            return true;
        }
        i += 1;
    }
    false
}

fn refresh_row(r: &Row, e: &Extension, recorded: bool) -> (q: Row)
    ensures
        q@ == refreshed(r@, e@, recorded),
{
    let mut ext = e.clone();
    ext.tags = text::clone_strings(&r.ext.tags);
    ext.trust_score = r.ext.trust_score;
    ext.install_meta = match &r.ext.install_meta {
        Some(m) => Some(m.clone()),
        None => None,
    };
    ext.installed_at = r.ext.installed_at;
    if recorded || r.disabled_config.is_some() {
        ext.enabled = r.ext.enabled;
    }
    if r.ext.pack.is_some() {
        ext.pack = text::clone_opt(&r.ext.pack);
    }
    Row { ext, disabled_config: text::clone_opt(&r.disabled_config) }
}

pub(crate) fn upsert(rows: &mut Vec<Row>, e: &Extension, recorded: bool)
    ensures
        models::list_view(final(rows)@) == upserted(models::list_view(old(rows)@), e@, recorded),
{
    let ghost v = models::list_view(rows@);
    if !rows_have(rows, &e.id) {
        let mut ext = e.clone();
        if !recorded {
            ext.install_meta = None;
        }
        push_row(rows, Row { ext, disabled_config: None });
        return;
    }
    let mut i: usize = 0;
    while i < rows.len()
        invariant
            v == models::list_view(old(rows)@),
            rows.len() == v.len(),
            i <= rows.len(),
            forall|j: int|
                0 <= j < i ==> (#[trigger] rows@[j])@ == (if v[j].ext.id == e@.id {
                    refreshed(v[j], e@, recorded)
                } else {
                    v[j]
                }),
            forall|j: int| i <= j < rows.len() ==> (#[trigger] rows@[j])@ == v[j],
        decreases rows.len() - i,
    {
        if text::str_eq(&rows[i].ext.id, &e.id) {
            let q = refresh_row(&rows[i], e, recorded);
            rows.set(i, q);
        }
        i += 1;
    }
    assert(models::list_view(rows@) =~= upserted(v, e@, recorded));
}

fn is_row_listed(e: &Extension, kind: Option<ExtensionKind>, agent: Option<&str>) -> (r: bool)
    ensures
        r == is_listed(
            e@,
            kind,
            match agent {
                Some(a) => Some(a@),
                None => None,
            },
        ),
{
    let by_kind = match kind {
        Some(k) => e.kind == k,
        None => true,
    };
    let by_agent = match agent {
        Some(a) => text::list_has(&e.agents, a),
        None => true,
    };
    by_kind && by_agent
}

fn insert_by_name(v: &mut Vec<Extension>, x: Extension)
    ensures
        models::list_view(final(v)@) == inserted_by_name(models::list_view(old(v)@), x@),
{
    let ghost s = models::list_view(v@);
    let ghost xv = x@;
    let mut pos: usize = v.len();
    assert(s.take(pos as int) =~= s);
    assert(inserted_by_name(s, xv) =~= inserted_by_name(s.take(pos as int), xv) + s.skip(
        pos as int,
    ));
    while pos > 0 && !lists::str_le(&v[pos - 1].name, &x.name)
        invariant
            v@ == old(v)@,
            s == models::list_view(v@),
            xv == x@,
            pos <= v.len(),
            inserted_by_name(s, xv) == inserted_by_name(s.take(pos as int), xv) + s.skip(
                pos as int,
            ),
        decreases pos,
    {
        assert(s.take(pos as int).last() == v@[pos - 1]@);
        assert(s.take(pos as int).drop_last() =~= s.take(pos - 1));
        assert(inserted_by_name(s.take(pos - 1), xv) + s.skip(pos - 1) =~= inserted_by_name(
            s.take(pos - 1),
            xv,
        ).push(s[pos - 1]) + s.skip(pos as int));
        pos -= 1;
    }
    if pos > 0 {
        assert(s.take(pos as int).last() == v@[pos - 1]@);
    }
    v.insert(pos, x);
    assert(models::list_view(v@) =~= s.take(pos as int).push(xv) + s.skip(pos as int));
    assert(inserted_by_name(s.take(pos as int), xv) =~= s.take(pos as int).push(xv));
}

impl Store {
    /// No two rows have the same identifier.
    #[verifier::type_invariant]
    pub open spec fn has_distinct_ids(self) -> bool {
        ids_distinct(self@.rows)
    }

    /// Takes the rows out, to put others in their place.
    fn take_rows(&mut self) -> (r: Vec<Row>)
        ensures
            models::list_view(r@) == old(self)@.rows,
            ids_distinct(old(self)@.rows),
            final(self)@ == (StoreView { rows: Seq::<RowView>::empty(), ..old(self)@ }),
    {
        proof {
            use_type_invariant(&*self);
        }
        let mut rows: Vec<Row> = Vec::new();
        assert(models::list_view(rows@) =~= Seq::<RowView>::empty());
        std::mem::swap(&mut rows, &mut self.rows);
        rows
    }

    /// The empty store.
    pub fn new() -> (r: Store)
        ensures
            r@ == (StoreView {
                rows: Seq::<RowView>::empty(),
                projects: Seq::<ProjectView>::empty(),
                audits: Seq::<AuditResultView>::empty(),
            }),
    {
        let r = Store { rows: Vec::new(), projects: Vec::new(), audits: Vec::new() };
        assert(r@.rows =~= Seq::<RowView>::empty());
        assert(r@.projects =~= Seq::<ProjectView>::empty());
        assert(r@.audits =~= Seq::<AuditResultView>::empty());
        r
    }

    /// Records an extension that was seen or installed.
    pub fn insert_extension(&mut self, ext: &Extension)
        ensures
            final(self)@ == (StoreView {
                rows: upserted(old(self)@.rows, ext@, true),
                ..old(self)@
            }),
    {
        let mut rows = self.take_rows();
        upsert(&mut rows, ext, true);
        proof {
            laws::lemma_upserted_distinct(old(self)@.rows, ext@, true);
        }
        self.rows = rows;
    }

    /// The extension with an identifier.
    pub fn get_extension(&self, id: &str) -> (r: Option<Extension>)
        ensures
            models::opt_view(r) == row_with(self@.rows, id@),
    {
        let ghost v = models::list_view(self.rows@);
        let mut i: usize = 0;
        assert(v.skip(0) =~= v);
        while i < self.rows.len()
            invariant
                v == models::list_view(self.rows@),
                v == self@.rows,
                i <= self.rows.len(),
                row_with(v.skip(i as int), id@) == row_with(v, id@),
            decreases self.rows.len() - i,
        {
            assert(v.skip(i as int)[0] == self.rows@[i as int]@);
            assert(v.skip(i as int).drop_first() =~= v.skip(i + 1));
            if text::str_eq(&self.rows[i].ext.id, id) {
                return Some(self.rows[i].ext.clone());
            }
            i += 1;
        }
        None
    }

    /// The extensions of a kind and of an agent, or of any, by name.
    pub fn list_extensions(&self, kind: Option<ExtensionKind>, agent: Option<&str>) -> (r: Vec<
        Extension,
    >)
        ensures
            models::list_view(r@) == listed(
                self@.rows,
                kind,
                match agent {
                    Some(a) => Some(a@),
                    None => None,
                },
            ),
    {
        let ghost v = models::list_view(self.rows@);
        let ghost a = match agent {
            Some(a) => Some(a@),
            None => None,
        };
        let mut out: Vec<Extension> = Vec::new();
        let mut i: usize = 0;
        assert(v.take(0) =~= Seq::<RowView>::empty());
        assert(models::list_view(out@) =~= listed(v.take(0), kind, a));
        while i < self.rows.len()
            invariant
                v == models::list_view(self.rows@),
                a == (match agent {
                    Some(a) => Some(a@),
                    None => None,
                }),
                i <= self.rows.len(),
                models::list_view(out@) == listed(v.take(i as int), kind, a),
            decreases self.rows.len() - i,
        {
            assert(v.take(i + 1).drop_last() =~= v.take(i as int));
            assert(v.take(i + 1).last() == self.rows@[i as int]@);
            if is_row_listed(&self.rows[i].ext, kind, agent) {
                insert_by_name(&mut out, self.rows[i].ext.clone());
            }
            i += 1;
        }
        assert(v.take(i as int) =~= v);
        out
    }

    /// Replaces the install record of an extension.
    fn put_meta(&mut self, id: &str, meta: Option<&InstallMeta>)
        ensures
            final(self)@ == (StoreView {
                rows: with_meta(
                    old(self)@.rows,
                    id@,
                    match meta {
                        Some(m) => Some(m@),
                        None => None,
                    },
                ),
                ..old(self)@
            }),
    {
        let ghost v = self@.rows;
        let mut rows = self.take_rows();
        let ghost mv = match meta {
            Some(m) => Some(m@),
            None => None,
        };
        let mut i: usize = 0;
        while i < rows.len()
            invariant
                v == old(self)@.rows,
                mv == (match meta {
                    Some(m) => Some(m@),
                    None => None,
                }),
                rows.len() == v.len(),
                i <= rows.len(),
                forall|j: int|
                    0 <= j < i ==> (#[trigger] rows@[j])@ == (if v[j].ext.id == id@ {
                        RowView { ext: ExtensionView { install_meta: mv, ..v[j].ext }, ..v[j] }
                    } else {
                        v[j]
                    }),
                forall|j: int| i <= j < rows.len() ==> (#[trigger] rows@[j])@ == v[j],
            decreases rows.len() - i,
        {
            if text::str_eq(&rows[i].ext.id, id) {
                let mut q = rows[i].clone();
                q.ext.install_meta = match meta {
                    Some(m) => Some(m.clone()),
                    None => None,
                };
                rows.set(i, q);
            }
            i += 1;
        }
        assert(models::list_view(rows@) =~= with_meta(v, id@, mv));
        proof {
            laws::lemma_same_ids_distinct(v, with_meta(v, id@, mv));
        }
        self.rows = rows;
    }

    /// Replaces the install record of an extension; nothing happens where there is
    /// no such extension.
    pub fn set_install_meta(&mut self, id: &str, meta: &InstallMeta)
        ensures
            final(self)@ == (StoreView {
                rows: with_meta(old(self)@.rows, id@, Some(meta@)),
                ..old(self)@
            }),
    {
        self.put_meta(id, Some(meta));
    }

    /// Removes the install record of an extension.
    pub fn clear_install_meta(&mut self, id: &str)
        ensures
            final(self)@ == (StoreView {
                rows: with_meta(old(self)@.rows, id@, None),
                ..old(self)@
            }),
    {
        self.put_meta(id, None);
    }

    /// Replaces the pack of an extension.
    pub fn update_pack(&mut self, id: &str, pack: Option<&str>)
        ensures
            final(self)@ == (StoreView {
                rows: with_pack(
                    old(self)@.rows,
                    id@,
                    match pack {
                        Some(p) => Some(p@),
                        None => None,
                    },
                ),
                ..old(self)@
            }),
    {
        let ghost v = self@.rows;
        let mut rows = self.take_rows();
        let ghost pv = match pack {
            Some(p) => Some(p@),
            None => None,
        };
        let mut i: usize = 0;
        while i < rows.len()
            invariant
                v == old(self)@.rows,
                pv == (match pack {
                    Some(p) => Some(p@),
                    None => None,
                }),
                rows.len() == v.len(),
                i <= rows.len(),
                forall|j: int|
                    0 <= j < i ==> (#[trigger] rows@[j])@ == (if v[j].ext.id == id@ {
                        RowView { ext: ExtensionView { pack: pv, ..v[j].ext }, ..v[j] }
                    } else {
                        v[j]
                    }),
                forall|j: int| i <= j < rows.len() ==> (#[trigger] rows@[j])@ == v[j],
            decreases rows.len() - i,
        {
            if text::str_eq(&rows[i].ext.id, id) {
                let mut q = rows[i].clone();
                q.ext.pack = match pack {
                    Some(p) => Some(p.to_owned()),
                    None => None,
                };
                rows.set(i, q);
            }
            i += 1;
        }
        assert(models::list_view(rows@) =~= with_pack(v, id@, pv));
        proof {
            laws::lemma_same_ids_distinct(v, with_pack(v, id@, pv));
        }
        self.rows = rows;
    }

    /// Replaces the packs of some extensions.
    pub fn batch_update_pack(&mut self, ids: &Vec<String>, pack: Option<&str>)
        ensures
            final(self)@ == (StoreView {
                rows: with_packs(
                    old(self)@.rows,
                    text::strs(ids@),
                    match pack {
                        Some(p) => Some(p@),
                        None => None,
                    },
                ),
                ..old(self)@
            }),
    {
        let ghost all = text::strs(ids@);
        let ghost pv = match pack {
            Some(p) => Some(p@),
            None => None,
        };
        let mut i: usize = 0;
        assert(all.take(0) =~= Seq::<Seq<char>>::empty());
        while i < ids.len()
            invariant
                all == text::strs(ids@),
                pv == (match pack {
                    Some(p) => Some(p@),
                    None => None,
                }),
                i <= ids.len(),
                self@ == (StoreView {
                    rows: with_packs(old(self)@.rows, all.take(i as int), pv),
                    ..old(self)@
                }),
            decreases ids.len() - i,
        {
            assert(all.take(i + 1).drop_last() =~= all.take(i as int));
            assert(all.take(i + 1).last() == ids@[i as int]@);
            self.update_pack(&ids[i], pack);
            i += 1;
        }
        assert(all.take(i as int) =~= all);
    }

    /// Replaces whether an extension is enabled.
    pub fn set_enabled(&mut self, id: &str, enabled: bool)
        ensures
            final(self)@ == (StoreView {
                rows: with_enabled(old(self)@.rows, id@, enabled),
                ..old(self)@
            }),
    {
        let ghost v = self@.rows;
        let mut rows = self.take_rows();
        let mut i: usize = 0;
        while i < rows.len()
            invariant
                v == old(self)@.rows,
                rows.len() == v.len(),
                i <= rows.len(),
                forall|j: int|
                    0 <= j < i ==> (#[trigger] rows@[j])@ == (if v[j].ext.id == id@ {
                        RowView { ext: ExtensionView { enabled, ..v[j].ext }, ..v[j] }
                    } else {
                        v[j]
                    }),
                forall|j: int| i <= j < rows.len() ==> (#[trigger] rows@[j])@ == v[j],
            decreases rows.len() - i,
        {
            if text::str_eq(&rows[i].ext.id, id) {
                let mut q = rows[i].clone();
                q.ext.enabled = enabled;
                rows.set(i, q);
            }
            i += 1;
        }
        assert(models::list_view(rows@) =~= with_enabled(v, id@, enabled));
        proof {
            laws::lemma_same_ids_distinct(v, with_enabled(v, id@, enabled));
        }
        self.rows = rows;
    }

    /// Replaces what was taken out of the configuration for an extension.
    pub fn set_disabled_config(&mut self, id: &str, config: Option<&str>)
        ensures
            final(self)@ == (StoreView {
                rows: with_disabled_config(
                    old(self)@.rows,
                    id@,
                    match config {
                        Some(c) => Some(c@),
                        None => None,
                    },
                ),
                ..old(self)@
            }),
    {
        let ghost v = self@.rows;
        let mut rows = self.take_rows();
        let ghost cv = match config {
            Some(c) => Some(c@),
            None => None,
        };
        let mut i: usize = 0;
        while i < rows.len()
            invariant
                v == old(self)@.rows,
                cv == (match config {
                    Some(c) => Some(c@),
                    None => None,
                }),
                rows.len() == v.len(),
                i <= rows.len(),
                forall|j: int|
                    0 <= j < i ==> (#[trigger] rows@[j])@ == (if v[j].ext.id == id@ {
                        RowView { disabled_config: cv, ..v[j] }
                    } else {
                        v[j]
                    }),
                forall|j: int| i <= j < rows.len() ==> (#[trigger] rows@[j])@ == v[j],
            decreases rows.len() - i,
        {
            if text::str_eq(&rows[i].ext.id, id) {
                let mut q = rows[i].clone();
                q.disabled_config = match config {
                    Some(c) => Some(c.to_owned()),
                    None => None,
                };
                rows.set(i, q);
            }
            i += 1;
        }
        assert(models::list_view(rows@) =~= with_disabled_config(v, id@, cv));
        proof {
            laws::lemma_same_ids_distinct(v, with_disabled_config(v, id@, cv));
        }
        self.rows = rows;
    }

    /// The identifiers of the extensions with a name and a kind.
    pub fn find_ids_by_name_and_kind(&self, name: &str, kind: &str) -> (r: Vec<String>)
        ensures
            text::strs(r@) == ids_named(self@.rows, name@, kind@),
    {
        let ghost v = models::list_view(self.rows@);
        let mut out = text::no_strings();
        let mut i: usize = 0;
        assert(v.take(0) =~= Seq::<RowView>::empty());
        while i < self.rows.len()
            invariant
                v == models::list_view(self.rows@),
                i <= self.rows.len(),
                text::strs(out@) == ids_named(v.take(i as int), name@, kind@),
            decreases self.rows.len() - i,
        {
            assert(v.take(i + 1).drop_last() =~= v.take(i as int));
            assert(v.take(i + 1).last() == self.rows@[i as int]@);
            let ghost before = text::strs(out@);
            if text::str_eq(&self.rows[i].ext.name, name) && text::str_eq(
                self.rows[i].ext.kind.as_str(),
                kind,
            ) {
                out.push(self.rows[i].ext.id.clone());
                assert(text::strs(out@) =~= before.push(self.rows@[i as int]@.ext.id));
            }
            i += 1;
        }
        assert(v.take(i as int) =~= v);
        out
    }

    /// Removes an extension and its audit results.
    pub fn delete_extension(&mut self, id: &str)
        ensures
            final(self)@ == without_extension(old(self)@, id@),
    {
        let ghost v = models::list_view(self.rows@);
        let ghost a = models::list_view(self.audits@);
        let mut rows: Vec<Row> = Vec::new();
        let mut i: usize = 0;
        assert(v.take(0) =~= Seq::<RowView>::empty());
        assert(models::list_view(rows@) =~= without_id(v.take(0), id@));
        while i < self.rows.len()
            invariant
                v == models::list_view(self.rows@),
                self@ == old(self)@,
                a == models::list_view(self.audits@),
                i <= self.rows.len(),
                models::list_view(rows@) == without_id(v.take(i as int), id@),
            decreases self.rows.len() - i,
        {
            assert(v.take(i + 1).drop_last() =~= v.take(i as int));
            assert(v.take(i + 1).last() == self.rows@[i as int]@);
            if !text::str_eq(&self.rows[i].ext.id, id) {
                push_row(&mut rows, self.rows[i].clone());
            }
            i += 1;
        }
        assert(v.take(i as int) =~= v);
        let mut audits: Vec<AuditResult> = Vec::new();
        let mut k: usize = 0;
        assert(a.take(0) =~= Seq::<AuditResultView>::empty());
        assert(models::list_view(audits@) =~= audits_without(a.take(0), id@));
        while k < self.audits.len()
            invariant
                a == models::list_view(self.audits@),
                self@ == old(self)@,
                v == models::list_view(self.rows@),
                k <= self.audits.len(),
                models::list_view(audits@) == audits_without(a.take(k as int), id@),
            decreases self.audits.len() - k,
        {
            assert(a.take(k + 1).drop_last() =~= a.take(k as int));
            assert(a.take(k + 1).last() == self.audits@[k as int]@);
            if !text::str_eq(&self.audits[k].extension_id, id) {
                let ghost before = models::list_view(audits@);
                audits.push(self.audits[k].clone());
                assert(models::list_view(audits@) =~= before.push(self.audits@[k as int]@));
            }
            k += 1;
        }
        assert(a.take(k as int) =~= a);
        proof {
            use_type_invariant(&*self);
            laws::lemma_without_id_distinct(v, id@);
        }
        self.rows = rows;
        self.audits = audits;
    }

    /// Records an audit result and the score that it gives. Fails where the
    /// extension is not known, and then changes nothing.
    pub fn insert_audit_result(&mut self, result: &AuditResult) -> (r: Result<(), HkError>)
        ensures
            has_id(old(self)@.rows, result@.extension_id) ==> r is Ok && final(self)@ == (
            StoreView {
                rows: with_score(
                    old(self)@.rows,
                    result@.extension_id,
                    result@.trust_score,
                ),
                audits: old(self)@.audits.push(result@),
                ..old(self)@
            }),
            !has_id(old(self)@.rows, result@.extension_id) ==> r is Err && r->Err_0@
                == HkErrorView::Database("FOREIGN KEY constraint failed"@) && final(self)@ == old(
                self,
            )@,
    {
        if !rows_have(&self.rows, &result.extension_id) {
            return Err(HkError::Database("FOREIGN KEY constraint failed".to_owned()));
        }
        let ghost v = self@.rows;
        proof {
            use_type_invariant(&*self);
        }
        let mut audits: Vec<AuditResult> = Vec::new();
        std::mem::swap(&mut audits, &mut self.audits);
        let ghost known = audits@;
        audits.push(result.clone());
        assert(models::list_view(audits@) =~= models::list_view(known).push(result@));
        self.audits = audits;
        let mut rows = self.take_rows();
        let ghost id = result@.extension_id;
        let mut i: usize = 0;
        while i < rows.len()
            invariant
                v == old(self)@.rows,
                id == result@.extension_id,
                rows.len() == v.len(),
                i <= rows.len(),
                forall|j: int|
                    0 <= j < i ==> (#[trigger] rows@[j])@ == (if v[j].ext.id == id {
                        RowView {
                            ext: ExtensionView {
                                trust_score: Some(result@.trust_score),
                                ..v[j].ext
                            },
                            ..v[j]
                        }
                    } else {
                        v[j]
                    }),
                forall|j: int| i <= j < rows.len() ==> (#[trigger] rows@[j])@ == v[j],
            decreases rows.len() - i,
        {
            if text::str_eq(&rows[i].ext.id, &result.extension_id) {
                let mut q = rows[i].clone();
                q.ext.trust_score = Some(result.trust_score);
                rows.set(i, q);
            }
            i += 1;
        }
        assert(models::list_view(rows@) =~= with_score(v, id, result@.trust_score));
        proof {
            laws::lemma_same_ids_distinct(v, with_score(v, id, result@.trust_score));
        }
        self.rows = rows;
        Ok(())
    }

    /// Adds a project, unless one with its identifier or its path is known.
    pub fn insert_project(&mut self, project: Project)
        ensures
            final(self)@ == (if knows_project(old(self)@.projects, project@.id, project@.path) {
                old(self)@
            } else {
                StoreView { projects: old(self)@.projects.push(project@), ..old(self)@ }
            }),
    {
        let ghost v = models::list_view(self.projects@);
        let mut i: usize = 0;
        while i < self.projects.len()
            invariant
                v == models::list_view(self.projects@),
                self@ == old(self)@,
                v == old(self)@.projects,
                i <= self.projects.len(),
                forall|j: int|
                    0 <= j < i ==> (#[trigger] v[j]).id != project@.id && v[j].path
                        != project@.path,
            decreases self.projects.len() - i,
        {
            assert(v[i as int] == self.projects@[i as int]@);
            if text::str_eq(&self.projects[i].id, &project.id) || text::str_eq(
                &self.projects[i].path,
                &project.path,
            ) {
                assert(v[i as int].id == project@.id || v[i as int].path == project@.path);
                return;
            }
            i += 1;
        }
        proof {
            use_type_invariant(&*self);
        }
        let mut projects: Vec<Project> = Vec::new();
        std::mem::swap(&mut projects, &mut self.projects);
        projects.push(project);
        assert(models::list_view(projects@) =~= v.push(project@));
        self.projects = projects;
    }

    /// The names and paths of the projects, from the newest to the oldest.
    pub fn list_project_tuples(&self) -> (r: Vec<(String, String)>)
        ensures
            models::pairs_view(r@) == project_tuples(self@.projects),
    {
        let ghost v = models::list_view(self.projects@);
        let mut order: Vec<usize> = Vec::new();
        let ghost mut s = Seq::<ProjectView>::empty();
        let mut i: usize = 0;
        assert(v.take(0) =~= Seq::<ProjectView>::empty());
        while i < self.projects.len()
            invariant
                v == models::list_view(self.projects@),
                i <= self.projects.len(),
                s == by_age(v.take(i as int)),
                order.len() == s.len(),
                forall|j: int|
                    0 <= j < order.len() ==> (#[trigger] order@[j]) < self.projects.len()
                        && self.projects@[order@[j] as int]@ == s[j],
            decreases self.projects.len() - i,
        {
            assert(v.take(i + 1).drop_last() =~= v.take(i as int));
            assert(v.take(i + 1).last() == self.projects@[i as int]@);
            let ghost x = self.projects@[i as int]@;
            let mut pos: usize = order.len();
            assert(s.take(pos as int) =~= s);
            assert(inserted_by_age(s, x) =~= inserted_by_age(s.take(pos as int), x) + s.skip(
                pos as int,
            ));
            while pos > 0 && is_later(
                self.projects[i].created_at,
                self.projects[order[pos - 1]].created_at,
            )
                invariant
                    i < self.projects.len(),
                    x == self.projects@[i as int]@,
                    pos <= order.len(),
                    order.len() == s.len(),
                    forall|j: int|
                        0 <= j < order.len() ==> (#[trigger] order@[j]) < self.projects.len()
                            && self.projects@[order@[j] as int]@ == s[j],
                    inserted_by_age(s, x) == inserted_by_age(s.take(pos as int), x) + s.skip(
                        pos as int,
                    ),
                decreases pos,
            {
                assert(self.projects@[order@[pos - 1] as int]@ == s[pos - 1]);
                assert(s.take(pos as int).last() == s[pos - 1]);
                assert(s.take(pos as int).drop_last() =~= s.take(pos - 1));
                assert(inserted_by_age(s.take(pos - 1), x) + s.skip(pos - 1) =~= inserted_by_age(
                    s.take(pos - 1),
                    x,
                ).push(s[pos - 1]) + s.skip(pos as int));
                pos -= 1;
            }
            if pos > 0 {
                assert(self.projects@[order@[pos - 1] as int]@ == s[pos - 1]);
                assert(s.take(pos as int).last() == s[pos - 1]);
            }
            assert(inserted_by_age(s.take(pos as int), x) =~= s.take(pos as int).push(x));
            let ghost o = order@;
            order.insert(pos, i);
            proof {
                let t = inserted_by_age(s, x);
                assert(t =~= s.take(pos as int).push(x) + s.skip(pos as int));
                assert forall|j: int| 0 <= j < order.len() implies (#[trigger] order@[j])
                    < self.projects.len() && self.projects@[order@[j] as int]@ == t[j] by {
                    if j < pos {
                        assert(order@[j] == o[j]);
                    } else if j > pos {
                        assert(order@[j] == o[j - 1]);
                    }
                }
                s = t;
            }
            i += 1;
        }
        assert(v.take(i as int) =~= v);
        let mut out: Vec<(String, String)> = Vec::new();
        let mut k: usize = 0;
        while k < order.len()
            invariant
                order.len() == s.len(),
                forall|j: int|
                    0 <= j < order.len() ==> (#[trigger] order@[j]) < self.projects.len()
                        && self.projects@[order@[j] as int]@ == s[j],
                k <= order.len(),
                out.len() == k,
                forall|j: int|
                    0 <= j < k ==> (#[trigger] out@[j]).0@ == s[j].name && out@[j].1@ == s[j].path,
            decreases order.len() - k,
        {
            assert(self.projects@[order@[k as int] as int]@ == s[k as int]);
            let p: &Project = &self.projects[order[k]];
            out.push((p.name.clone(), p.path.clone()));
            k += 1;
        }
        assert(models::pairs_view(out@) =~= project_tuples(self@.projects));
        out
    }
}

fn is_later(a: Timestamp, b: Timestamp) -> (r: bool)
    ensures
        r == later(a, b),
{
    a.secs > b.secs || (a.secs == b.secs && a.nanos > b.nanos)
}

} // verus!
