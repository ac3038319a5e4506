//! Bringing the table in line with a scan of one agent, or of everything.

use vstd::prelude::*;

use crate::files::{FileTree, FileTreeView};
use crate::models;
use crate::models::{
    ConfigScope, ConfigScopeView, Extension, ExtensionKind, ExtensionView, InstallMeta, InstallMetaView,
    SourceOrigin,
};
use crate::outside;
use crate::pack;
use crate::path;
use crate::skills;
use crate::store;
use crate::store::laws;
use crate::store::{Project, ProjectView, Row, RowView, Store, StoreView};
use crate::text;

verus! {

// ---------------------------------------------------------------------------
// Pruning
// ---------------------------------------------------------------------------

/// Whether a row that a scan did not see is given up. Kept are rows that are
/// disabled, tools with an install record, and other rows with an install record
/// whose file is still there or is not known.
pub open spec fn should_prune(
    fs: FileTreeView,
    enabled: bool,
    has_meta: bool,
    kind: ExtensionKind,
    source_path: Option<Seq<char>>,
) -> bool {
    enabled && (has_meta ==> kind != ExtensionKind::Cli && source_path is Some && !fs.at(
        source_path->0,
    ).exists)
}

/// Whether a row that a scan did not see is given up.
pub fn stale_row_should_prune(
    fs: &FileTree,
    enabled: bool,
    has_install_meta: bool,
    kind: ExtensionKind,
    source_path: &Option<String>,
) -> (r: bool)
    ensures
        r == should_prune(fs@, enabled, has_install_meta, kind, text::ostr(*source_path)),
{
    if !enabled {
        return false;
    }
    if has_install_meta {
        if kind == ExtensionKind::Cli {
            return false;
        }
        match source_path {
            None => {
                return false;
            },
            Some(p) => {
                if fs.has(p) {
                    return false;
                }
            },
        }
    }
    true
}

/// Whether a row of an agent is given up after a scan that saw the extensions
/// with the given identifiers.
pub open spec fn is_stale(
    fs: FileTreeView,
    e: ExtensionView,
    agent: Seq<char>,
    seen: Seq<Seq<char>>,
) -> bool {
    e.agents.contains(agent) && !seen.contains(e.id) && should_prune(
        fs,
        e.enabled,
        e.install_meta is Some,
        e.kind,
        e.source_path,
    )
}

/// A store without those of the given rows that are given up.
pub open spec fn pruned(
    s: StoreView,
    fs: FileTreeView,
    rows: Seq<RowView>,
    agent: Seq<char>,
    seen: Seq<Seq<char>>,
) -> StoreView
    decreases rows.len(),
{
    if rows.len() == 0 {
        s
    } else {
        let before = pruned(s, fs, rows.drop_last(), agent, seen);
        if is_stale(fs, rows.last().ext, agent, seen) {
            store::without_extension(before, rows.last().ext.id)
        } else {
            before
        }
    }
}

// ---------------------------------------------------------------------------
// One row
// ---------------------------------------------------------------------------

/// An install record of which only the type, the address and the revision are
/// known.
pub open spec fn plain_meta(
    install_type: Seq<char>,
    url: Option<Seq<char>>,
    revision: Option<Seq<char>>,
) -> InstallMetaView {
    InstallMetaView {
        install_type,
        url,
        url_resolved: None,
        branch: None,
        subpath: None,
        revision,
        remote_revision: None,
        checked_at: None,
        check_error: None,
    }
}

/// An extension without an install record gets one if it lies in a repository
/// with a remote, or is a tool.
pub open spec fn with_filled_meta(e: ExtensionView) -> ExtensionView {
    if e.install_meta is Some {
        e
    } else if e.source.origin == SourceOrigin::Git && e.source.url is Some {
        ExtensionView {
            install_meta: Some(plain_meta("git"@, e.source.url, e.source.commit_hash)),
            ..e
        }
    } else if e.kind == ExtensionKind::Cli && e.cli_meta is Some {
        ExtensionView { install_meta: Some(plain_meta("cli-registry"@, None, None)), ..e }
    } else {
        e
    }
}

/// What is looked at to tell whether a skill is a link: the directory of a
/// `SKILL.md`, or the file itself.
pub open spec fn entry_path(p: Seq<char>) -> Seq<char> {
    if path::file_name_of(p) == Some("SKILL.md"@) && path::parent_of(p) is Some {
        path::parent_of(p)->0
    } else {
        p
    }
}

/// Whether a skill that was seen is a link and lies in no repository, so that a
/// `git` install record for it is wrong.
pub open spec fn is_linked_skill(fs: FileTreeView, e: ExtensionView) -> bool {
    e.kind == ExtensionKind::Skill && e.source.origin != SourceOrigin::Git && e.source_path is Some
        && fs.at(entry_path(e.source_path->0)).is_symlink
}

/// Whether one of the extensions that were seen is such a skill and has the given
/// identifier.
pub open spec fn is_linked_id(fs: FileTreeView, seen: Seq<ExtensionView>, id: Seq<char>) -> bool {
    exists|i: int| 0 <= i < seen.len() && (#[trigger] seen[i]).id == id && is_linked_skill(fs, seen[i])
}

/// Whether an extension has a `git` install record.
pub open spec fn is_git(e: ExtensionView) -> bool {
    e.install_meta is Some && e.install_meta->0.install_type == "git"@
}

/// An extension without a wrong `git` install record.
pub open spec fn with_healed_meta(
    fs: FileTreeView,
    seen: Seq<ExtensionView>,
    e: ExtensionView,
) -> ExtensionView {
    if is_git(e) && is_linked_id(fs, seen, e.id) {
        ExtensionView { install_meta: None, pack: None, ..e }
    } else {
        e
    }
}

/// The pack of an address in lower case.
pub open spec fn lower_pack(url: Option<Seq<char>>) -> Option<Seq<char>> {
    match skills::pack_of_url(url) {
        Some(k) => Some(outside::lowercase(k)),
        None => None,
    }
}

/// Whether the manifest of a skill or plugin names another repository than its
/// `git` install record. `new_pack` and `old_pack` are the two packs in lower
/// case.
pub open spec fn is_outdated(
    e: ExtensionView,
    new_pack: Option<Seq<char>>,
    old_pack: Option<Seq<char>>,
) -> bool {
    is_git(e) && (e.kind == ExtensionKind::Skill || e.kind == ExtensionKind::Plugin)
        && e.source.url is Some && e.source.from_manifest && new_pack is Some && new_pack
        != old_pack
}

/// An extension whose `git` install record follows what its manifest says: a
/// record of another repository is replaced, and the pack with it.
pub open spec fn with_current_meta(e: ExtensionView) -> ExtensionView {
    if e.install_meta is Some && is_outdated(
        e,
        lower_pack(e.source.url),
        lower_pack(e.install_meta->0.url),
    ) {
        ExtensionView {
            install_meta: Some(plain_meta("git"@, e.source.url, e.source.commit_hash)),
            pack: None,
            ..e
        }
    } else {
        e
    }
}

/// An extension without a pack gets the one of the address that it was installed
/// from, or that it comes from.
pub open spec fn with_own_pack(e: ExtensionView) -> ExtensionView {
    let installed = match e.install_meta {
        Some(m) => m.url,
        None => None,
    };
    let url = if installed is Some {
        installed
    } else {
        e.source.url
    };
    if e.pack is None {
        ExtensionView { pack: skills::pack_of_url(url), ..e }
    } else {
        e
    }
}

/// A row after all that concerns it alone was brought in line.
pub open spec fn settled(fs: FileTreeView, seen: Seq<ExtensionView>, r: RowView) -> RowView {
    RowView {
        ext: with_own_pack(with_current_meta(with_healed_meta(fs, seen, with_filled_meta(r.ext)))),
        ..r
    }
}

// ---------------------------------------------------------------------------
// Packs of tools and of what belongs to them
// ---------------------------------------------------------------------------

/// The pack of the first row that belongs to a tool and has one.
pub open spec fn child_pack(rows: Seq<RowView>, id: Seq<char>) -> Option<Seq<char>>
    decreases rows.len(),
{
    if rows.len() == 0 {
        None
    } else if rows[0].ext.cli_parent_id == Some(id) && rows[0].ext.pack is Some {
        rows[0].ext.pack
    } else {
        child_pack(rows.drop_first(), id)
    }
}

/// The pack of the first row that has an identifier and a pack.
pub open spec fn pack_of_id(rows: Seq<RowView>, id: Seq<char>) -> Option<Seq<char>>
    decreases rows.len(),
{
    if rows.len() == 0 {
        None
    } else if rows[0].ext.id == id && rows[0].ext.pack is Some {
        rows[0].ext.pack
    } else {
        pack_of_id(rows.drop_first(), id)
    }
}

/// A tool without a pack gets that of what belongs to it.
pub open spec fn with_child_pack(rows: Seq<RowView>, r: RowView) -> RowView {
    if r.ext.pack is None && r.ext.kind == ExtensionKind::Cli {
        RowView { ext: ExtensionView { pack: child_pack(rows, r.ext.id), ..r.ext }, ..r }
    } else {
        r
    }
}

/// What belongs to a tool and has no pack gets that of the tool.
pub open spec fn with_parent_pack(rows: Seq<RowView>, r: RowView) -> RowView {
    if r.ext.pack is None && r.ext.cli_parent_id is Some {
        RowView {
            ext: ExtensionView { pack: pack_of_id(rows, r.ext.cli_parent_id->0), ..r.ext },
            ..r
        }
    } else {
        r
    }
}

/// Rows after all of them were brought in line.
pub open spec fn all_settled(
    fs: FileTreeView,
    seen: Seq<ExtensionView>,
    rows: Seq<RowView>,
) -> Seq<RowView> {
    let a = rows.map_values(|r: RowView| settled(fs, seen, r));
    let b = a.map_values(|r: RowView| with_child_pack(a, r));
    b.map_values(|r: RowView| with_parent_pack(b, r))
}

/// Rows after some extensions were seen.
pub open spec fn all_upserted(rows: Seq<RowView>, seen: Seq<ExtensionView>) -> Seq<RowView>
    decreases seen.len(),
{
    if seen.len() == 0 {
        rows
    } else {
        store::upserted(all_upserted(rows, seen.drop_last()), seen.last(), false)
    }
}

/// The identifiers of extensions.
pub open spec fn ids_of(seen: Seq<ExtensionView>) -> Seq<Seq<char>> {
    seen.map_values(|e: ExtensionView| e.id)
}

/// A store after a scan of an agent: with what was seen, without what is given
/// up, and with install records and packs brought in line.
pub open spec fn synced(
    s: StoreView,
    fs: FileTreeView,
    agent: Seq<char>,
    seen: Seq<ExtensionView>,
) -> StoreView {
    let a = StoreView { rows: all_upserted(s.rows, seen), ..s };
    let b = pruned(a, fs, a.rows, agent, ids_of(seen));
    StoreView { rows: all_settled(fs, seen, b.rows), ..b }
}

// ---------------------------------------------------------------------------
// A scan of everything
// ---------------------------------------------------------------------------

/// A store without those of the given rows of which `leaves` holds.
pub open spec fn thinned(
    s: StoreView,
    rows: Seq<RowView>,
    leaves: spec_fn(ExtensionView) -> bool,
) -> StoreView
    decreases rows.len(),
{
    if rows.len() == 0 {
        s
    } else {
        let before = thinned(s, rows.drop_last(), leaves);
        if leaves(rows.last().ext) {
            store::without_extension(before, rows.last().ext.id)
        } else {
            before
        }
    }
}

/// The paths of projects.
pub open spec fn paths_of(projects: Seq<ProjectView>) -> Seq<Seq<char>> {
    projects.map_values(|p: ProjectView| p.path)
}

/// Whether an extension belongs to a project that is not known any more.
pub open spec fn is_orphan(projects: Seq<ProjectView>, e: ExtensionView) -> bool {
    match e.scope {
        ConfigScopeView::Global => false,
        ConfigScopeView::Project { path, .. } => !paths_of(projects).contains(path),
    }
}

/// Whether a row is given up after a scan of everything that saw the extensions with
/// the given identifiers.
pub open spec fn is_gone(fs: FileTreeView, e: ExtensionView, seen: Seq<Seq<char>>) -> bool {
    !seen.contains(e.id) && should_prune(
        fs,
        e.enabled,
        e.install_meta is Some,
        e.kind,
        e.source_path,
    )
}

/// A store after a scan of everything: with what was seen, without what belongs to
/// unknown projects, without what is given up, and with install records and packs
/// brought in line.
pub open spec fn all_synced(s: StoreView, fs: FileTreeView, seen: Seq<ExtensionView>) -> StoreView {
    let a = StoreView { rows: all_upserted(s.rows, seen), ..s };
    let b = thinned(a, a.rows, |e: ExtensionView| is_orphan(s.projects, e));
    let c = thinned(b, b.rows, |e: ExtensionView| is_gone(fs, e, ids_of(seen)));
    StoreView { rows: all_settled(fs, seen, c.rows), ..c }
}

// ---------------------------------------------------------------------------
// Doing it
// ---------------------------------------------------------------------------

fn make_meta(install_type: &str, url: Option<String>, revision: Option<String>) -> (r: InstallMeta)
    ensures
        r@ == plain_meta(install_type@, text::ostr(url), text::ostr(revision)),
{
    InstallMeta {
        install_type: install_type.to_owned(),
        url,
        url_resolved: None,
        branch: None,
        subpath: None,
        revision,
        remote_revision: None,
        checked_at: None,
        check_error: None,
    }
}

fn fill_meta(e: &mut Extension)
    ensures
        final(e)@ == with_filled_meta(old(e)@),
{
    if e.install_meta.is_some() {
        return;
    }
    if e.source.origin == SourceOrigin::Git && e.source.url.is_some() {
        e.install_meta =
        Some(
            make_meta(
                "git",
                text::clone_opt(&e.source.url),
                text::clone_opt(&e.source.commit_hash),
            ),
        );
    } else if e.kind == ExtensionKind::Cli && e.cli_meta.is_some() {
        e.install_meta = Some(make_meta("cli-registry", None, None));
    }
}

/// What is looked at to tell whether a skill is a link.
pub fn skill_entry_path(p: &str) -> (r: String)
    ensures
        r@ == entry_path(p@),
{
    match path::file_name(p) {
        Some(f) => if text::str_eq(&f, "SKILL.md") {
            match path::parent(p) {
                Some(d) => d,
                None => p.to_owned(),
            }
        } else {
            p.to_owned()
        },
        None => p.to_owned(),
    }
}

fn has_git_meta(e: &Extension) -> (r: bool)
    ensures
        r == is_git(e@),
{
    match &e.install_meta {
        Some(m) => text::str_eq(&m.install_type, "git"),
        None => false,
    }
}

fn is_linked(fs: &FileTree, seen: &Vec<Extension>, id: &str) -> (r: bool)
    ensures
        r == is_linked_id(fs@, models::list_view(seen@), id@),
{
    let ghost v = models::list_view(seen@);
    let mut i: usize = 0;
    while i < seen.len()
        invariant
            v == models::list_view(seen@),
            i <= seen.len(),
            forall|j: int|
                0 <= j < i ==> !((#[trigger] v[j]).id == id@ && is_linked_skill(fs@, v[j])),
        decreases seen.len() - i,
    {
        assert(v[i as int] == seen@[i as int]@);
        if text::str_eq(&seen[i].id, id) && seen[i].kind == ExtensionKind::Skill
            && seen[i].source.origin != SourceOrigin::Git {
            if let Some(p) = &seen[i].source_path {
                if fs.is_symlink(&skill_entry_path(p)) {
                    assert(v[i as int].id == id@ && is_linked_skill(fs@, v[i as int]));
                    return true;
                }
            }
        }
        i += 1;
    }
    false
}

fn heal_meta(fs: &FileTree, seen: &Vec<Extension>, e: &mut Extension)
    ensures
        final(e)@ == with_healed_meta(fs@, models::list_view(seen@), old(e)@),
{
    if has_git_meta(e) && is_linked(fs, seen, &e.id) {
        e.install_meta = None;
        e.pack = None;
    }
}

fn find_lower_pack(url: &Option<String>) -> (r: Option<String>)
    ensures
        text::ostr(r) == lower_pack(text::ostr(*url)),
{
    match url {
        None => None,
        Some(u) => match pack::extract_pack_from_url(u) {
            None => None,
            Some(k) => Some(outside::to_lowercase(&k)),
        },
    }
}

/// Whether the manifest of a skill or plugin names another repository than its
/// `git` install record; `new_pack` and `old_pack` are the two packs in lower
/// case.
pub fn names_other_repository(
    e: &Extension,
    new_pack: &Option<String>,
    old_pack: &Option<String>,
) -> (r: bool)
    ensures
        r == is_outdated(e@, text::ostr(*new_pack), text::ostr(*old_pack)),
{
    has_git_meta(e) && (e.kind == ExtensionKind::Skill || e.kind == ExtensionKind::Plugin)
        && e.source.url.is_some() && e.source.from_manifest && new_pack.is_some()
        && !text::opt_eq(new_pack, old_pack)
}

fn update_meta(e: &mut Extension)
    ensures
        final(e)@ == with_current_meta(old(e)@),
{
    let old_pack = match &e.install_meta {
        None => {
            return;
        },
        Some(m) => find_lower_pack(&m.url),
    };
    let new_pack = find_lower_pack(&e.source.url);
    if names_other_repository(e, &new_pack, &old_pack) {
        e.install_meta =
        Some(
            make_meta(
                "git",
                text::clone_opt(&e.source.url),
                text::clone_opt(&e.source.commit_hash),
            ),
        );
        e.pack = None;
    }
}

fn fill_pack(e: &mut Extension)
    ensures
        final(e)@ == with_own_pack(old(e)@),
{
    if e.pack.is_some() {
        return;
    }
    let installed = match &e.install_meta {
        Some(m) => text::clone_opt(&m.url),
        None => None,
    };
    let url = if installed.is_some() {
        installed
    } else {
        text::clone_opt(&e.source.url)
    };
    e.pack =
    match &url {
        Some(u) => pack::extract_pack_from_url(u),
        None => None,
    };
}

fn settle(fs: &FileTree, seen: &Vec<Extension>, r: &Row) -> (q: Row)
    ensures
        q@ == settled(fs@, models::list_view(seen@), r@),
{
    let mut q = r.clone();
    fill_meta(&mut q.ext);
    heal_meta(fs, seen, &mut q.ext);
    update_meta(&mut q.ext);
    fill_pack(&mut q.ext);
    q
}

fn find_child_pack(rows: &Vec<Row>, id: &str) -> (r: Option<String>)
    ensures
        text::ostr(r) == child_pack(models::list_view(rows@), id@),
{
    let ghost v = models::list_view(rows@);
    let mut i: usize = 0;
    assert(v.skip(0) =~= v);
    while i < rows.len()
        invariant
            v == models::list_view(rows@),
            i <= rows.len(),
            child_pack(v.skip(i as int), id@) == child_pack(v, id@),
        decreases rows.len() - i,
    {
        assert(v.skip(i as int)[0] == rows@[i as int]@);
        assert(v.skip(i as int).drop_first() =~= v.skip(i + 1));
        let here = match &rows[i].ext.cli_parent_id {
            Some(p) => text::str_eq(p, id),
            None => false,
        };
        if here && rows[i].ext.pack.is_some() {
            return text::clone_opt(&rows[i].ext.pack);
        }
        i += 1;
    }
    None
}

fn find_pack_of_id(rows: &Vec<Row>, id: &str) -> (r: Option<String>)
    ensures
        text::ostr(r) == pack_of_id(models::list_view(rows@), id@),
{
    let ghost v = models::list_view(rows@);
    let mut i: usize = 0;
    assert(v.skip(0) =~= v);
    while i < rows.len()
        invariant
            v == models::list_view(rows@),
            i <= rows.len(),
            pack_of_id(v.skip(i as int), id@) == pack_of_id(v, id@),
        decreases rows.len() - i,
    {
        assert(v.skip(i as int)[0] == rows@[i as int]@);
        assert(v.skip(i as int).drop_first() =~= v.skip(i + 1));
        if text::str_eq(&rows[i].ext.id, id) && rows[i].ext.pack.is_some() {
            return text::clone_opt(&rows[i].ext.pack);
        }
        i += 1;
    }
    None
}

fn settle_all(fs: &FileTree, seen: &Vec<Extension>, rows: &Vec<Row>) -> (r: Vec<Row>)
    ensures
        models::list_view(r@) == all_settled(
            fs@,
            models::list_view(seen@),
            models::list_view(rows@),
        ),
{
    let ghost sv = models::list_view(seen@);
    let ghost v = models::list_view(rows@);
    let mut a: Vec<Row> = Vec::new();
    let mut i: usize = 0;
    while i < rows.len()
        invariant
            sv == models::list_view(seen@),
            i <= rows.len(),
            a.len() == i,
            forall|j: int| 0 <= j < i ==> (#[trigger] a@[j])@ == settled(fs@, sv, rows@[j]@),
        decreases rows.len() - i,
    {
        a.push(settle(fs, seen, &rows[i]));
        i += 1;
    }
    let ghost av = v.map_values(|r: RowView| settled(fs@, sv, r));
    assert(models::list_view(a@) =~= av);
    let mut b: Vec<Row> = Vec::new();
    let mut j: usize = 0;
    while j < a.len()
        invariant
            av == models::list_view(a@),
            j <= a.len(),
            b.len() == j,
            forall|k: int| 0 <= k < j ==> (#[trigger] b@[k])@ == with_child_pack(av, a@[k]@),
        decreases a.len() - j,
    {
        let mut q = a[j].clone();
        if q.ext.pack.is_none() && q.ext.kind == ExtensionKind::Cli {
            q.ext.pack = find_child_pack(&a, &q.ext.id);
        }
        b.push(q);
        j += 1;
    }
    let ghost bv = av.map_values(|r: RowView| with_child_pack(av, r));
    assert(models::list_view(b@) =~= bv);
    let mut c: Vec<Row> = Vec::new();
    let mut k: usize = 0;
    while k < b.len()
        invariant
            bv == models::list_view(b@),
            k <= b.len(),
            c.len() == k,
            forall|n: int| 0 <= n < k ==> (#[trigger] c@[n])@ == with_parent_pack(bv, b@[n]@),
        decreases b.len() - k,
    {
        let mut q = b[k].clone();
        if q.ext.pack.is_none() {
            if let Some(p) = &b[k].ext.cli_parent_id {
                q.ext.pack = find_pack_of_id(&b, p);
            }
        }
        c.push(q);
        k += 1;
    }
    assert(models::list_view(c@) =~= all_settled(fs@, sv, v));
    c
}

fn list_ids(seen: &Vec<Extension>) -> (r: Vec<String>)
    ensures
        text::strs(r@) == ids_of(models::list_view(seen@)),
{
    let mut out: Vec<String> = Vec::new();
    let mut i: usize = 0;
    while i < seen.len()
        invariant
            i <= seen.len(),
            out.len() == i,
            forall|j: int| 0 <= j < i ==> (#[trigger] out@[j])@ == seen@[j]@.id,
        decreases seen.len() - i,
    {
        out.push(seen[i].id.clone());
        i += 1;
    }
    assert(text::strs(out@) =~= ids_of(models::list_view(seen@)));
    out
}

fn list_paths(projects: &Vec<Project>) -> (r: Vec<String>)
    ensures
        text::strs(r@) == paths_of(models::list_view(projects@)),
{
    let mut out: Vec<String> = Vec::new();
    let mut i: usize = 0;
    while i < projects.len()
        invariant
            i <= projects.len(),
            out.len() == i,
            forall|j: int| 0 <= j < i ==> (#[trigger] out@[j])@ == projects@[j]@.path,
        decreases projects.len() - i,
    {
        out.push(projects[i].path.clone());
        i += 1;
    }
    assert(text::strs(out@) =~= paths_of(models::list_view(projects@)));
    out
}

impl Store {
    /// Records what a scan saw.
    fn record_seen(&mut self, seen: &Vec<Extension>)
        ensures
            final(self)@ == (StoreView {
                rows: all_upserted(old(self)@.rows, models::list_view(seen@)),
                ..old(self)@
            }),
    {
        let ghost start = self@;
        let ghost sv = models::list_view(seen@);
        let mut rows = self.take_rows();
        let mut i: usize = 0;
        assert(sv.take(0) =~= Seq::<ExtensionView>::empty());
        while i < seen.len()
            invariant
                sv == models::list_view(seen@),
                i <= seen.len(),
                models::list_view(rows@) == all_upserted(start.rows, sv.take(i as int)),
            decreases seen.len() - i,
        {
            assert(sv.take(i + 1).drop_last() =~= sv.take(i as int));
            assert(sv.take(i + 1).last() == seen@[i as int]@);
            store::upsert(&mut rows, &seen[i], false);
            i += 1;
        }
        assert(sv.take(i as int) =~= sv);
        proof {
            laws::lemma_all_upserted_distinct(start.rows, sv);
        }
        self.rows = rows;
    }

    /// Brings install records and packs in line.
    fn settle_rows(&mut self, fs: &FileTree, seen: &Vec<Extension>)
        ensures
            final(self)@ == (StoreView {
                rows: all_settled(fs@, models::list_view(seen@), old(self)@.rows),
                ..old(self)@
            }),
    {
        let ghost sv = models::list_view(seen@);
        let ghost b = self@;
        let settled_rows = settle_all(fs, seen, &self.rows);
        proof {
            use_type_invariant(&*self);
            laws::lemma_same_ids_distinct(b.rows, all_settled(fs@, sv, b.rows));
        }
        self.rows = settled_rows;
    }

    /// Removes the rows of projects that are not known.
    fn drop_orphans(&mut self)
        ensures
            final(self)@ == thinned(
                old(self)@,
                old(self)@.rows,
                |e: ExtensionView| is_orphan(old(self)@.projects, e),
            ),
    {
        let known = list_paths(&self.projects);
        let ghost a = self@;
        let ghost leaves = |e: ExtensionView| is_orphan(a.projects, e);
        let before = store::clone_rows(&self.rows);
        let ghost rv = models::list_view(before@);
        let mut k: usize = 0;
        assert(rv.take(0) =~= Seq::<RowView>::empty());
        while k < before.len()
            invariant
                rv == models::list_view(before@),
                text::strs(known@) == paths_of(a.projects),
                leaves == (|e: ExtensionView| is_orphan(a.projects, e)),
                k <= before.len(),
                self@ == thinned(a, rv.take(k as int), leaves),
            decreases before.len() - k,
        {
            assert(rv.take(k + 1).drop_last() =~= rv.take(k as int));
            assert(rv.take(k + 1).last() == before@[k as int]@);
            let e: &Extension = &before[k].ext;
            let orphan = match &e.scope {
                ConfigScope::Global => false,
                ConfigScope::Project { path, .. } => !text::list_has(&known, path),
            };
            if orphan {
                self.delete_extension(&e.id);
            }
            k += 1;
        }
        assert(rv.take(k as int) =~= rv);
    }

    /// Brings the table in line with a scan of everything: records what was seen,
    /// removes the rows of projects that are not known, gives up rows that were not
    /// seen, and fills in install records and packs.
    pub fn sync_extensions(&mut self, fs: &FileTree, seen: &Vec<Extension>)
        ensures
            final(self)@ == all_synced(old(self)@, fs@, models::list_view(seen@)),
    {
        let ghost sv = models::list_view(seen@);
        self.record_seen(seen);
        self.drop_orphans();
        let ghost b = self@;
        let ids = list_ids(seen);
        let ghost idv = ids_of(sv);
        let ghost leaves = |e: ExtensionView| is_gone(fs@, e, idv);
        let before = store::clone_rows(&self.rows);
        let ghost rv = models::list_view(before@);
        let mut k: usize = 0;
        assert(rv.take(0) =~= Seq::<RowView>::empty());
        while k < before.len()
            invariant
                rv == models::list_view(before@),
                idv == text::strs(ids@),
                leaves == (|e: ExtensionView| is_gone(fs@, e, idv)),
                k <= before.len(),
                self@ == thinned(b, rv.take(k as int), leaves),
            decreases before.len() - k,
        {
            assert(rv.take(k + 1).drop_last() =~= rv.take(k as int));
            assert(rv.take(k + 1).last() == before@[k as int]@);
            let e: &Extension = &before[k].ext;
            if !text::list_has(&ids, &e.id) && stale_row_should_prune(
                fs,
                e.enabled,
                e.install_meta.is_some(),
                e.kind,
                &e.source_path,
            ) {
                self.delete_extension(&e.id);
            }
            k += 1;
        }
        assert(rv.take(k as int) =~= rv);
        self.settle_rows(fs, seen);
    }

    /// Brings the table in line with a scan of one agent: records what was seen,
    /// gives up rows of that agent that were not seen, and fills in install
    /// records and packs.
    pub fn sync_extensions_for_agent(&mut self, fs: &FileTree, agent: &str, seen: &Vec<Extension>)
        ensures
            final(self)@ == synced(old(self)@, fs@, agent@, models::list_view(seen@)),
    {
        let ghost sv = models::list_view(seen@);
        self.record_seen(seen);
        let ghost a = self@;
        let ids = list_ids(seen);
        let ghost idv = ids_of(sv);
        let before = store::clone_rows(&self.rows);
        let ghost rv = models::list_view(before@);
        assert(rv == a.rows);
        let mut k: usize = 0;
        assert(rv.take(0) =~= Seq::<RowView>::empty());
        while k < before.len()
            invariant
                rv == models::list_view(before@),
                idv == text::strs(ids@),
                k <= before.len(),
                self@ == pruned(a, fs@, rv.take(k as int), agent@, idv),
            decreases before.len() - k,
        {
            assert(rv.take(k + 1).drop_last() =~= rv.take(k as int));
            assert(rv.take(k + 1).last() == before@[k as int]@);
            let e: &Extension = &before[k].ext;
            if text::list_has(&e.agents, agent) && !text::list_has(&ids, &e.id)
                && stale_row_should_prune(
                fs,
                e.enabled,
                e.install_meta.is_some(),
                e.kind,
                &e.source_path,
            ) {
                self.delete_extension(&e.id);
            }
            k += 1;
        }
        assert(rv.take(k as int) =~= rv);
        self.settle_rows(fs, seen);
    }
}

} // verus!
