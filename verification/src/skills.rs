//! Skills on disk: how they are found, and how one is found again.

use vstd::multiset::Multiset;
use vstd::prelude::*;

use crate::agents::{Agent, AgentView};
use crate::files;
use crate::files::{FileTree, FileTreeView};
use crate::frontmatter;
use crate::ids;
use crate::models;
use crate::models::{
    ConfigScope, ConfigScopeView, Extension, ExtensionKind, ExtensionView, SkillLocation,
    SkillLocationView, Source, SourceOrigin, SourceView, Timestamp,
};
use crate::pack;
use crate::path;
use crate::permissions;
use crate::sources;
use crate::sources::SkillLockView;
use crate::text;

verus! {

// ---------------------------------------------------------------------------
// Lists of extensions
// ---------------------------------------------------------------------------

/// Adds an extension to a list.
pub(crate) fn push_ext(v: &mut Vec<Extension>, e: Extension)
    ensures
        models::list_view(final(v)@) == models::list_view(old(v)@).push(e@),
{
    v.push(e);
    assert(models::list_view(v@) =~= models::list_view(old(v)@).push(e@));
}

/// Adds the extensions of one list to another.
pub(crate) fn append_exts(v: &mut Vec<Extension>, more: Vec<Extension>)
    ensures
        models::list_view(final(v)@) == models::list_view(old(v)@) + models::list_view(more@),
{
    let mut more = more;
    let ghost m = more@;
    v.append(&mut more);
    assert(models::list_view(v@) =~= models::list_view(old(v)@) + models::list_view(m));
}

/// The empty list of extensions.
pub(crate) fn no_exts() -> (r: Vec<Extension>)
    ensures
        models::list_view(r@) == Seq::<ExtensionView>::empty(),
{
    let v: Vec<Extension> = Vec::new();
    assert(models::list_view(v@) =~= Seq::<ExtensionView>::empty());
    v
}

// ---------------------------------------------------------------------------
// Scanning
// ---------------------------------------------------------------------------

/// The file that holds the text of the skill at `p`, and whether the skill is
/// disabled: `SKILL.md` or `SKILL.md.disabled` of a directory, or a single file
/// with the extension `md`.
pub open spec fn skill_file(fs: FileTreeView, p: Seq<char>) -> Option<(Seq<char>, bool)> {
    if fs.at(p).is_dir {
        if fs.at(path::extended(p, "SKILL.md"@)).exists {
            Some((path::extended(p, "SKILL.md"@), false))
        } else if fs.at(path::extended(p, "SKILL.md.disabled"@)).exists {
            Some((path::extended(p, "SKILL.md.disabled"@), true))
        } else {
            None
        }
    } else if path::extension_of(p) == Some("md"@) {
        Some((p, false))
    } else {
        None
    }
}

/// The name of the skill at `p`: the one that its text gives, else that of its
/// file.
pub open spec fn skill_name(p: Seq<char>, content: Seq<char>) -> Seq<char> {
    match frontmatter::frontmatter_of(content) {
        Some(f) => f.0,
        None => path::stem_or_empty(p),
    }
}

/// The description that the text of a skill gives.
pub open spec fn skill_description(content: Seq<char>) -> Seq<char> {
    match frontmatter::frontmatter_of(content) {
        Some(f) => f.1,
        None => Seq::<char>::empty(),
    }
}

/// Where `p` really lies.
pub open spec fn resolved(fs: FileTreeView, p: Seq<char>) -> Seq<char> {
    match fs.at(p).canonical {
        Some(q) => q,
        None => p,
    }
}

/// The name under which a lock file lists the skill at `p`.
pub open spec fn lock_key(fs: FileTreeView, p: Seq<char>, name: Seq<char>) -> Seq<char> {
    let key = if fs.at(p).is_dir {
        path::file_name_of(p)
    } else {
        path::stem_of(p)
    };
    match key {
        Some(k) => k,
        None => name,
    }
}

/// The source of a skill: the one that a lock file records, else the repository
/// that its files really lie in. A commit that is checked out is kept.
pub open spec fn skill_source(detected: SourceView, locked: Option<SkillLockView>) -> SourceView {
    match locked {
        Some(l) => SourceView {
            origin: SourceOrigin::Git,
            url: Some(l.url),
            version: None,
            commit_hash: detected.commit_hash,
            from_manifest: true,
        },
        None => detected,
    }
}

/// The pack of an address that may be missing.
pub open spec fn pack_of_url(url: Option<Seq<char>>) -> Option<Seq<char>> {
    match url {
        Some(u) => pack::pack_of(u),
        None => None,
    }
}

/// The pack of a skill: by the lock file, else by the repository.
pub open spec fn skill_pack(detected: SourceView, locked: Option<SkillLockView>) -> Option<
    Seq<char>,
> {
    match locked {
        Some(l) => match pack::pack_of(l.url) {
            Some(k) => Some(k),
            None => Some(l.source),
        },
        None => pack_of_url(detected.url),
    }
}

/// The skill at `p` with the given text.
pub open spec fn skill_ext(
    fs: FileTreeView,
    p: Seq<char>,
    file: Seq<char>,
    disabled: bool,
    content: Seq<char>,
    agent: Seq<char>,
    now: Timestamp,
) -> ExtensionView {
    let name = skill_name(p, content);
    let true_path = resolved(fs, p);
    let detected = sources::source_of(fs, true_path, true);
    let locked = sources::locked_source(fs, true_path, lock_key(fs, p, name));
    ExtensionView {
        id: ids::global_id(name, "skill"@, agent),
        kind: ExtensionKind::Skill,
        name,
        description: skill_description(content),
        source: skill_source(detected, locked),
        agents: seq![agent],
        tags: Seq::<Seq<char>>::empty(),
        pack: skill_pack(detected, locked),
        permissions: permissions::skill_text_perms(content, fs.platform),
        enabled: !disabled,
        trust_score: None,
        installed_at: files::created_or(fs.at(p), now),
        updated_at: files::modified_or(fs.at(p), now),
        source_path: Some(
            if disabled {
                path::extended(p, "SKILL.md"@)
            } else {
                file
            },
        ),
        cli_parent_id: None,
        cli_meta: None,
        install_meta: None,
        scope: ConfigScopeView::Global,
    }
}

/// The skill at `p`, if there is one that can be read.
pub open spec fn skill_at(
    fs: FileTreeView,
    p: Seq<char>,
    agent: Seq<char>,
    now: Timestamp,
) -> Option<ExtensionView> {
    match skill_file(fs, p) {
        None => None,
        Some((file, disabled)) => match fs.at(file).content {
            None => None,
            Some(content) => Some(skill_ext(fs, p, file, disabled, content, agent, now)),
        },
    }
}

/// The skills at the given paths.
pub open spec fn skills_at(
    fs: FileTreeView,
    paths: Seq<Seq<char>>,
    agent: Seq<char>,
    now: Timestamp,
) -> Seq<ExtensionView>
    decreases paths.len(),
{
    if paths.len() == 0 {
        Seq::<ExtensionView>::empty()
    } else {
        let before = skills_at(fs, paths.drop_last(), agent, now);
        match skill_at(fs, paths.last(), agent, now) {
            Some(e) => before.push(e),
            None => before,
        }
    }
}

/// The skills in a directory.
pub open spec fn skills_in(
    fs: FileTreeView,
    dir: Seq<char>,
    agent: Seq<char>,
    now: Timestamp,
) -> Seq<ExtensionView> {
    match fs.at(dir).children {
        Some(entries) => skills_at(fs, entries, agent, now),
        None => Seq::<ExtensionView>::empty(),
    }
}

/// The skills in a list of directories.
pub open spec fn skills_in_all(
    fs: FileTreeView,
    dirs: Seq<Seq<char>>,
    agent: Seq<char>,
    now: Timestamp,
) -> Seq<ExtensionView>
    decreases dirs.len(),
{
    if dirs.len() == 0 {
        Seq::<ExtensionView>::empty()
    } else {
        skills_in_all(fs, dirs.drop_last(), agent, now) + skills_in(fs, dirs.last(), agent, now)
    }
}

fn pack_from(url: &Option<String>) -> (r: Option<String>)
    ensures
        text::ostr(r) == pack_of_url(text::ostr(*url)),
{
    match url {
        Some(u) => pack::extract_pack_from_url(u),
        None => None,
    }
}

fn scan_skill(fs: &FileTree, p: &str, agent: &str, now: Timestamp) -> (r: Option<Extension>)
    ensures
        models::opt_view(r) == skill_at(fs@, p@, agent@, now),
{
    let is_dir = fs.is_dir(p);
    let mut disabled = false;
    let file = if is_dir {
        let enabled_file = path::join(p, "SKILL.md");
        if fs.has(&enabled_file) {
            enabled_file
        } else {
            let disabled_file = path::join(p, "SKILL.md.disabled");
            if fs.has(&disabled_file) {
                disabled = true;
                disabled_file
            } else {
                return None;
            }
        }
    } else if path::has_extension(p, "md") {
        p.to_owned()
    } else {
        return None;
    };
    let content = match fs.read(&file) {
        None => {
            return None;
        },
        Some(c) => c,
    };
    let (name, description) = match frontmatter::parse_skill_frontmatter(&content) {
        Some((n, d, _)) => (n, d),
        None => (path::file_stem_or_empty(p), String::new()),
    };
    let true_path = match fs.canonicalize(p) {
        Some(q) => q,
        None => p.to_owned(),
    };
    let detected = sources::detect_source(fs, &true_path, true);
    let key = if is_dir {
        path::file_name(p)
    } else {
        path::file_stem(p)
    };
    let key = match key {
        Some(k) => k,
        None => name.clone(),
    };
    let ghost detected_view = detected@;
    let (source, found_pack) = match sources::skill_lock_source(fs, &true_path, &key) {
        Some(l) => {
            let found_pack = match pack::extract_pack_from_url(&l.url) {
                Some(k) => Some(k),
                None => Some(l.source.clone()),
            };
            let source = Source {
                origin: SourceOrigin::Git,
                url: Some(l.url),
                version: None,
                commit_hash: detected.commit_hash,
                from_manifest: true,
            };
            (source, found_pack)
        },
        None => {
            let found_pack = pack_from(&detected.url);
            (detected, found_pack)
        },
    };
    let source_path = if disabled {
        path::join(p, "SKILL.md")
    } else {
        file
    };
    let perms = permissions::infer_skill_permissions(&content, fs.platform());
    let e = Extension {
        id: ids::stable_id_for(&name, "skill", agent),
        kind: ExtensionKind::Skill,
        name,
        description,
        source,
        agents: text::one(agent.to_owned()),
        tags: text::no_strings(),
        pack: found_pack,
        permissions: perms,
        enabled: !disabled,
        trust_score: None,
        installed_at: fs.created_time(p, now),
        updated_at: fs.modified_time(p, now),
        source_path: Some(source_path),
        cli_parent_id: None,
        cli_meta: None,
        install_meta: None,
        scope: ConfigScope::Global,
    };
    Some(e)
}

/// The skills in a directory.
pub fn scan_skill_dir(fs: &FileTree, dir: &str, agent_name: &str, now: Timestamp) -> (r: Vec<
    Extension,
>)
    ensures
        models::list_view(r@) == skills_in(fs@, dir@, agent_name@, now),
{
    let mut out = no_exts();
    let entries = match fs.list(dir) {
        None => {
            return out;
        },
        Some(e) => e,
    };
    let ghost all = text::strs(entries@);
    let mut i: usize = 0;
    assert(all.take(0) =~= Seq::<Seq<char>>::empty());
    while i < entries.len()
        invariant
            all == text::strs(entries@),
            i <= entries.len(),
            models::list_view(out@) == skills_at(fs@, all.take(i as int), agent_name@, now),
        decreases entries.len() - i,
    {
        assert(all.take(i + 1).drop_last() =~= all.take(i as int));
        assert(all[i as int] == entries@[i as int]@);
        if let Some(e) = scan_skill(fs, &entries[i], agent_name, now) {
            push_ext(&mut out, e);
        }
        i += 1;
    }
    assert(all.take(i as int) =~= all);
    out
}

/// The skills that an agent loads from its global directories.
pub fn scan_skills_for(fs: &FileTree, agent: &Agent, now: Timestamp) -> (r: Vec<Extension>)
    ensures
        models::list_view(r@) == skills_in_all(fs@, agent@.skill_dirs, agent@.name, now),
{
    let mut out = no_exts();
    let ghost all = text::strs(agent.skill_dirs@);
    let mut i: usize = 0;
    assert(all.take(0) =~= Seq::<Seq<char>>::empty());
    while i < agent.skill_dirs.len()
        invariant
            all == text::strs(agent.skill_dirs@),
            i <= agent.skill_dirs.len(),
            models::list_view(out@) == skills_in_all(
                fs@,
                all.take(i as int),
                agent@.name,
                now,
            ),
        decreases agent.skill_dirs.len() - i,
    {
        assert(all.take(i + 1).drop_last() =~= all.take(i as int));
        assert(all[i as int] == agent.skill_dirs@[i as int]@);
        let more = scan_skill_dir(fs, &agent.skill_dirs[i], &agent.name, now);
        append_exts(&mut out, more);
        i += 1;
    }
    assert(all.take(i as int) =~= all);
    out
}

/// The name that the text of the skill at `p` gives.
pub open spec fn name_in_file(fs: FileTreeView, p: Seq<char>) -> Option<Seq<char>> {
    match fs.at(p).content {
        None => None,
        Some(c) => match frontmatter::frontmatter_of(c) {
            None => None,
            Some(f) => Some(f.0),
        },
    }
}

/// The name that the text of the skill at `p` gives.
pub fn parse_skill_name(fs: &FileTree, p: &str) -> (r: Option<String>)
    ensures
        text::ostr(r) == name_in_file(fs@, p@),
{
    match fs.read(p) {
        None => None,
        Some(c) => match frontmatter::parse_skill_frontmatter(&c) {
            None => None,
            Some((n, _, _)) => Some(n),
        },
    }
}

// ---------------------------------------------------------------------------
// Finding a skill again
// ---------------------------------------------------------------------------

/// A directory of skills, with the scope of what lies in it.
pub open spec fn places_view(v: Seq<(String, ConfigScope)>) -> Seq<(Seq<char>, ConfigScopeView)> {
    v.map_values(|x: (String, ConfigScope)| (x.0@, x.1@))
}

/// The directories of one project, with its scope.
pub open spec fn places_in_project(
    project: (Seq<char>, Seq<char>),
    rels: Seq<Seq<char>>,
) -> Seq<(Seq<char>, ConfigScopeView)> {
    Seq::new(
        rels.len(),
        |i: int|
            (
                path::extended(project.1, rels[i]),
                ConfigScopeView::Project { name: project.0, path: project.1 },
            ),
    )
}

/// The directories of the projects that exist, with their scopes.
pub open spec fn places_in_projects(
    fs: FileTreeView,
    projects: Seq<(Seq<char>, Seq<char>)>,
    rels: Seq<Seq<char>>,
) -> Seq<(Seq<char>, ConfigScopeView)>
    decreases projects.len(),
{
    if projects.len() == 0 {
        Seq::<(Seq<char>, ConfigScopeView)>::empty()
    } else {
        let before = places_in_projects(fs, projects.drop_last(), rels);
        if fs.at(projects.last().1).is_dir {
            before + places_in_project(projects.last(), rels)
        } else {
            before
        }
    }
}

/// The directories that an agent loads skills from: the global ones, then those
/// of the projects that exist.
pub open spec fn skill_places(
    fs: FileTreeView,
    agent: AgentView,
    projects: Seq<(Seq<char>, Seq<char>)>,
) -> Seq<(Seq<char>, ConfigScopeView)> {
    Seq::new(agent.skill_dirs.len(), |i: int| (agent.skill_dirs[i], ConfigScopeView::Global))
        + places_in_projects(fs, projects, agent.project_skill_dirs)
}

fn find_skill_places(fs: &FileTree, agent: &Agent, projects: &Vec<(String, String)>) -> (r: Vec<
    (String, ConfigScope),
>)
    ensures
        places_view(r@) == skill_places(fs@, agent@, models::pairs_view(projects@)),
{
    let mut out: Vec<(String, ConfigScope)> = Vec::new();
    let mut i: usize = 0;
    let ghost globals = Seq::new(
        agent@.skill_dirs.len(),
        |i: int| (agent@.skill_dirs[i], ConfigScopeView::Global),
    );
    while i < agent.skill_dirs.len()
        invariant
            i <= agent.skill_dirs.len(),
            out@.len() == i,
            forall|j: int|
                0 <= j < i ==> (#[trigger] out@[j]).0@ == agent.skill_dirs@[j]@ && out@[j].1@
                    == ConfigScopeView::Global,
        decreases agent.skill_dirs.len() - i,
    {
        out.push((agent.skill_dirs[i].clone(), ConfigScope::Global));
        i += 1;
    }
    assert(places_view(out@) =~= globals);
    let ghost all = models::pairs_view(projects@);
    let ghost rels = agent@.project_skill_dirs;
    let mut k: usize = 0;
    assert(all.take(0) =~= Seq::<(Seq<char>, Seq<char>)>::empty());
    assert(places_view(out@) =~= globals + places_in_projects(fs@, all.take(0), rels));
    while k < projects.len()
        invariant
            all == models::pairs_view(projects@),
            rels == text::strs(agent.project_skill_dirs@),
            k <= projects.len(),
            places_view(out@) == globals + places_in_projects(fs@, all.take(k as int), rels),
        decreases projects.len() - k,
    {
        assert(all.take(k + 1).drop_last() =~= all.take(k as int));
        assert(all[k as int] == (projects@[k as int].0@, projects@[k as int].1@));
        let ghost before = places_view(out@);
        let ghost here = places_in_project(all[k as int], rels);
        if fs.is_dir(&projects[k].1) {
            let mut j: usize = 0;
            assert(places_view(out@) =~= before + here.take(0));
            while j < agent.project_skill_dirs.len()
                invariant
                    k < projects.len(),
                    all == models::pairs_view(projects@),
                    rels == text::strs(agent.project_skill_dirs@),
                    all[k as int] == (projects@[k as int].0@, projects@[k as int].1@),
                    here == places_in_project(all[k as int], rels),
                    j <= agent.project_skill_dirs.len(),
                    places_view(out@) == before + here.take(j as int),
                decreases agent.project_skill_dirs.len() - j,
            {
                let dir = path::join(&projects[k].1, &agent.project_skill_dirs[j]);
                assert(rels[j as int] == agent.project_skill_dirs@[j as int]@);
                let ghost o = places_view(out@);
                out.push(
                    (
                        dir,
                        ConfigScope::Project {
                            name: projects[k].0.clone(),
                            path: projects[k].1.clone(),
                        },
                    ),
                );
                assert(places_view(out@) =~= o.push(here[j as int]));
                assert(places_view(out@) =~= before + here.take(j + 1));
                j += 1;
            }
            assert(here.take(j as int) =~= here);
            assert(places_view(out@) =~= globals + (places_in_projects(
                fs@,
                all.take(k as int),
                rels,
            ) + here));
        }
        k += 1;
    }
    assert(all.take(k as int) =~= all);
    out
}

/// The file with the text of a skill that is looked for at `p`; here a single
/// file that is disabled counts too.
pub open spec fn probed_file(fs: FileTreeView, p: Seq<char>) -> Option<Seq<char>> {
    let file = if fs.at(p).is_dir {
        if fs.at(path::extended(p, "SKILL.md"@)).exists {
            Some(path::extended(p, "SKILL.md"@))
        } else {
            Some(path::extended(p, "SKILL.md.disabled"@))
        }
    } else if path::extension_of(p) == Some("md"@) || path::extension_of(p) == Some("disabled"@) {
        Some(p)
    } else {
        None
    };
    if file is Some && fs.at(file->0).exists {
        file
    } else {
        None
    }
}

/// The name of a skill that is looked for at `p` with the given file.
pub open spec fn probed_name(fs: FileTreeView, p: Seq<char>, file: Seq<char>) -> Seq<char> {
    match name_in_file(fs, file) {
        Some(n) => n,
        None => path::stem_or_empty(p),
    }
}

/// The location of the skill at `p`, if it has the identifier that is sought.
pub open spec fn location_at(
    fs: FileTreeView,
    p: Seq<char>,
    place: (Seq<char>, ConfigScopeView),
    agent: Seq<char>,
    id: Seq<char>,
) -> Option<SkillLocationView> {
    match probed_file(fs, p) {
        None => None,
        Some(file) => if ids::scoped_id(probed_name(fs, p, file), "skill"@, agent, place.1) == id {
            Some(SkillLocationView { entry_path: p, skill_file: file, skill_dir: place.0 })
        } else {
            None
        },
    }
}

/// The first location among entries of a directory.
pub open spec fn location_among(
    fs: FileTreeView,
    entries: Seq<Seq<char>>,
    place: (Seq<char>, ConfigScopeView),
    agent: Seq<char>,
    id: Seq<char>,
) -> Option<SkillLocationView>
    decreases entries.len(),
{
    if entries.len() == 0 {
        None
    } else {
        match location_at(fs, entries[0], place, agent, id) {
            Some(l) => Some(l),
            None => location_among(fs, entries.drop_first(), place, agent, id),
        }
    }
}

/// The first location in a directory.
pub open spec fn location_in(
    fs: FileTreeView,
    place: (Seq<char>, ConfigScopeView),
    agent: Seq<char>,
    id: Seq<char>,
) -> Option<SkillLocationView> {
    match fs.at(place.0).children {
        None => None,
        Some(entries) => location_among(fs, entries, place, agent, id),
    }
}

/// The first location in a list of directories.
pub open spec fn location_in_places(
    fs: FileTreeView,
    places: Seq<(Seq<char>, ConfigScopeView)>,
    agent: Seq<char>,
    id: Seq<char>,
) -> Option<SkillLocationView>
    decreases places.len(),
{
    if places.len() == 0 {
        None
    } else {
        match location_in(fs, places[0], agent, id) {
            Some(l) => Some(l),
            None => location_in_places(fs, places.drop_first(), agent, id),
        }
    }
}

/// The first location of the skill with an identifier, among the agents that
/// are named.
pub open spec fn location_of(
    fs: FileTreeView,
    agents: Seq<AgentView>,
    id: Seq<char>,
    names: Seq<Seq<char>>,
    projects: Seq<(Seq<char>, Seq<char>)>,
) -> Option<SkillLocationView>
    decreases agents.len(),
{
    if agents.len() == 0 {
        None
    } else {
        let here = if names.contains(agents[0].name) {
            location_in_places(fs, skill_places(fs, agents[0], projects), agents[0].name, id)
        } else {
            None
        };
        match here {
            Some(l) => Some(l),
            None => location_of(fs, agents.drop_first(), id, names, projects),
        }
    }
}

fn probe(fs: &FileTree, p: &str, dir: &str, scope: &ConfigScope, agent: &str, id: &str) -> (r:
    Option<SkillLocation>)
    ensures
        models::opt_view(r) == location_at(fs@, p@, (dir@, scope@), agent@, id@),
{
    let file = if fs.is_dir(p) {
        let md = path::join(p, "SKILL.md");
        if fs.has(&md) {
            md
        } else {
            path::join(p, "SKILL.md.disabled")
        }
    } else if path::has_extension(p, "md") || path::has_extension(p, "disabled") {
        p.to_owned()
    } else {
        return None;
    };
    if !fs.has(&file) {
        return None;
    }
    let name = match parse_skill_name(fs, &file) {
        Some(n) => n,
        None => path::file_stem_or_empty(p),
    };
    let found = ids::stable_id_with_scope_for(&name, "skill", agent, scope);
    if text::str_eq(&found, id) {
        Some(
            SkillLocation { entry_path: p.to_owned(), skill_file: file, skill_dir: dir.to_owned() },
        )
    } else {
        None
    }
}

fn find_in_place(fs: &FileTree, dir: &str, scope: &ConfigScope, agent: &str, id: &str) -> (r:
    Option<SkillLocation>)
    ensures
        models::opt_view(r) == location_in(fs@, (dir@, scope@), agent@, id@),
{
    let entries = match fs.list(dir) {
        None => {
            return None;
        },
        Some(e) => e,
    };
    let ghost all = text::strs(entries@);
    let ghost place = (dir@, scope@);
    let mut i: usize = 0;
    assert(all.skip(0) =~= all);
    while i < entries.len()
        invariant
            all == text::strs(entries@),
            fs@.at(dir@).children == Some(all),
            place == (dir@, scope@),
            i <= entries.len(),
            location_among(fs@, all.skip(i as int), place, agent@, id@) == location_among(
                fs@,
                all,
                place,
                agent@,
                id@,
            ),
        decreases entries.len() - i,
    {
        assert(all.skip(i as int)[0] == entries@[i as int]@);
        assert(all.skip(i as int).drop_first() =~= all.skip(i + 1));
        let l = probe(fs, &entries[i], dir, scope, agent, id);
        if l.is_some() {
            return l;
        }
        i += 1;
    }
    None
}

/// Where the skill with an identifier lies, among the agents that are named: in
/// their global directories, or in those of the known projects.
pub fn find_skill_by_id(
    fs: &FileTree,
    agents: &Vec<Agent>,
    ext_id: &str,
    agent_filter: &Vec<String>,
    projects: &Vec<(String, String)>,
) -> (r: Option<SkillLocation>)
    ensures
        models::opt_view(r) == location_of(
            fs@,
            models::list_view(agents@),
            ext_id@,
            text::strs(agent_filter@),
            models::pairs_view(projects@),
        ),
{
    let ghost all = models::list_view(agents@);
    let ghost names = text::strs(agent_filter@);
    let ghost known = models::pairs_view(projects@);
    let mut i: usize = 0;
    assert(all.skip(0) =~= all);
    while i < agents.len()
        invariant
            all == models::list_view(agents@),
            names == text::strs(agent_filter@),
            known == models::pairs_view(projects@),
            i <= agents.len(),
            location_of(fs@, all.skip(i as int), ext_id@, names, known) == location_of(
                fs@,
                all,
                ext_id@,
                names,
                known,
            ),
        decreases agents.len() - i,
    {
        assert(all.skip(i as int)[0] == agents@[i as int]@);
        assert(all.skip(i as int).drop_first() =~= all.skip(i + 1));
        if text::list_has(agent_filter, &agents[i].name) {
            let places = find_skill_places(fs, &agents[i], projects);
            let ghost ps = places_view(places@);
            let ghost agent = agents@[i as int]@.name;
            let mut j: usize = 0;
            assert(ps.skip(0) =~= ps);
            while j < places.len()
                invariant
                    i < agents.len(),
                    all == models::list_view(agents@),
                    agent == agents@[i as int]@.name,
                    names.contains(agent),
                    all.skip(i as int)[0] == agents@[i as int]@,
                    all.skip(i as int).len() > 0,
                    ps == places_view(places@),
                    ps == skill_places(fs@, agents@[i as int]@, known),
                    j <= places.len(),
                    names == text::strs(agent_filter@),
                    known == models::pairs_view(projects@),
                    location_of(fs@, all.skip(i as int), ext_id@, names, known) == location_of(
                        fs@,
                        all,
                        ext_id@,
                        names,
                        known,
                    ),
                    location_in_places(fs@, ps.skip(j as int), agent, ext_id@)
                        == location_in_places(fs@, ps, agent, ext_id@),
                decreases places.len() - j,
            {
                assert(ps.skip(j as int)[0] == (places@[j as int].0@, places@[j as int].1@));
                assert(ps.skip(j as int).drop_first() =~= ps.skip(j + 1));
                let l = find_in_place(fs, &places[j].0, &places[j].1, &agents[i].name, ext_id);
                if l.is_some() {
                    return l;
                }
                j += 1;
            }
        }
        i += 1;
    }
    None
}

/// The text of the skill with an identifier and the file that holds it, among
/// the global directories of the agents that are named.
pub open spec fn content_of(
    fs: FileTreeView,
    agents: Seq<AgentView>,
    id: Seq<char>,
    names: Seq<Seq<char>>,
) -> (Seq<char>, Option<Seq<char>>) {
    match location_of(fs, agents, id, names, Seq::<(Seq<char>, Seq<char>)>::empty()) {
        Some(l) => (
            match fs.at(l.skill_file).content {
                Some(c) => c,
                None => Seq::<char>::empty(),
            },
            Some(l.skill_file),
        ),
        None => (Seq::<char>::empty(), None),
    }
}

/// The text of the skill with an identifier and the file that holds it, among
/// the global directories of the agents that are named.
pub fn find_skill_content(
    fs: &FileTree,
    agents: &Vec<Agent>,
    ext_id: &str,
    agent_filter: &Vec<String>,
) -> (r: (String, Option<String>))
    ensures
        (r.0@, text::ostr(r.1)) == content_of(
            fs@,
            models::list_view(agents@),
            ext_id@,
            text::strs(agent_filter@),
        ),
{
    let none: Vec<(String, String)> = Vec::new();
    assert(models::pairs_view(none@) =~= Seq::<(Seq<char>, Seq<char>)>::empty());
    match find_skill_by_id(fs, agents, ext_id, agent_filter, &none) {
        Some(l) => {
            let content = match fs.read(&l.skill_file) {
                Some(c) => c,
                None => String::new(),
            };
            (content, Some(l.skill_file))
        },
        None => (String::new(), None),
    }
}

// ---------------------------------------------------------------------------
// All places of a skill
// ---------------------------------------------------------------------------

/// Whether things of `scope` are asked for.
pub open spec fn scope_wanted(scope: ConfigScopeView, filter: Option<ConfigScopeView>) -> bool {
    match filter {
        None => true,
        Some(ConfigScopeView::Global) => scope is Global,
        Some(ConfigScopeView::Project { path: p, .. }) => match scope {
            ConfigScopeView::Project { path: q, .. } => p == q,
            ConfigScopeView::Global => false,
        },
    }
}

/// Whether the directory `p` holds a skill.
pub open spec fn holds_skill(fs: FileTreeView, p: Seq<char>) -> bool {
    fs.at(path::extended(p, "SKILL.md"@)).exists || fs.at(
        path::extended(p, "SKILL.md.disabled"@),
    ).exists
}

/// Whether the directory `p` holds a skill whose text gives one of two names.
pub open spec fn is_named(fs: FileTreeView, p: Seq<char>, name: Seq<char>, clean: Seq<char>) -> bool {
    let file = if fs.at(path::extended(p, "SKILL.md"@)).exists {
        path::extended(p, "SKILL.md"@)
    } else {
        path::extended(p, "SKILL.md.disabled"@)
    };
    &&& fs.at(p).is_dir
    &&& holds_skill(fs, p)
    &&& (name_in_file(fs, file) == Some(name) || name_in_file(fs, file) == Some(clean))
}

/// The first of some directories that holds a skill with one of two names.
pub open spec fn first_named(
    fs: FileTreeView,
    entries: Seq<Seq<char>>,
    name: Seq<char>,
    clean: Seq<char>,
) -> Option<Seq<char>>
    decreases entries.len(),
{
    if entries.len() == 0 {
        None
    } else if is_named(fs, entries[0], name, clean) {
        Some(entries[0])
    } else {
        first_named(fs, entries.drop_first(), name, clean)
    }
}

/// The directory of a skill inside a directory of skills: the one with its name,
/// else the first one whose text gives that name.
pub open spec fn skill_dir_in(fs: FileTreeView, dir: Seq<char>, name: Seq<char>) -> Option<
    Seq<char>,
> {
    let clean = text::trimmed_of(name, text::Class::Only('"'));
    let direct = path::extended(dir, clean);
    if holds_skill(fs, direct) {
        Some(direct)
    } else {
        match fs.at(dir).children {
            None => None,
            Some(entries) => first_named(fs, entries, name, clean),
        }
    }
}

/// The directories of a skill among some places of one agent.
pub open spec fn locations_in(
    fs: FileTreeView,
    places: Seq<(Seq<char>, ConfigScopeView)>,
    name: Seq<char>,
    agent: Seq<char>,
    filter: Option<ConfigScopeView>,
) -> Seq<(Seq<char>, Seq<char>)>
    decreases places.len(),
{
    if places.len() == 0 {
        Seq::<(Seq<char>, Seq<char>)>::empty()
    } else {
        let before = locations_in(fs, places.drop_last(), name, agent, filter);
        if !scope_wanted(places.last().1, filter) {
            before
        } else {
            match skill_dir_in(fs, places.last().0, name) {
                Some(p) => before.push((agent, p)),
                None => before,
            }
        }
    }
}

/// The directories of a skill, over all agents that are installed and all
/// projects, in the scopes that are asked for; each with the name of the agent.
pub open spec fn locations_of(
    fs: FileTreeView,
    name: Seq<char>,
    agents: Seq<AgentView>,
    projects: Seq<(Seq<char>, Seq<char>)>,
    filter: Option<ConfigScopeView>,
) -> Seq<(Seq<char>, Seq<char>)>
    decreases agents.len(),
{
    if agents.len() == 0 {
        Seq::<(Seq<char>, Seq<char>)>::empty()
    } else {
        let before = locations_of(fs, name, agents.drop_last(), projects, filter);
        let a = agents.last();
        if a.detected {
            before + locations_in(fs, skill_places(fs, a, projects), name, a.name, filter)
        } else {
            before
        }
    }
}

/// The view of an optional scope.
pub open spec fn filter_view(o: Option<&ConfigScope>) -> Option<ConfigScopeView> {
    match o {
        Some(s) => Some(s@),
        None => None,
    }
}

fn is_scope_wanted(scope: &ConfigScope, filter: Option<&ConfigScope>) -> (r: bool)
    ensures
        r == scope_wanted(scope@, filter_view(filter)),
{
    match filter {
        None => true,
        Some(ConfigScope::Global) => scope.is_global(),
        Some(ConfigScope::Project { path: p, .. }) => match scope {
            ConfigScope::Project { path: q, .. } => text::str_eq(p, q),
            ConfigScope::Global => false,
        },
    }
}

fn is_dir_of(fs: &FileTree, p: &str, name: &str, clean: &str) -> (r: bool)
    ensures
        r == is_named(fs@, p@, name@, clean@),
{
    if !fs.is_dir(p) {
        return false;
    }
    let md = path::join(p, "SKILL.md");
    let off = path::join(p, "SKILL.md.disabled");
    let file = if fs.has(&md) {
        md
    } else if fs.has(&off) {
        off
    } else {
        return false;
    };
    match parse_skill_name(fs, &file) {
        Some(n) => text::str_eq(&n, name) || text::str_eq(&n, clean),
        None => false,
    }
}

fn find_skill_dir(fs: &FileTree, dir: &str, name: &str) -> (r: Option<String>)
    ensures
        text::ostr(r) == skill_dir_in(fs@, dir@, name@),
{
    let clean = text::trim_matches(name, '"');
    let direct = path::join(dir, clean);
    if fs.has(&path::join(&direct, "SKILL.md")) || fs.has(
        &path::join(&direct, "SKILL.md.disabled"),
    ) {
        return Some(direct);
    }
    let entries = match fs.list(dir) {
        None => {
            return None;
        },
        Some(e) => e,
    };
    let ghost all = text::strs(entries@);
    let mut i: usize = 0;
    assert(all.skip(0) =~= all);
    while i < entries.len()
        invariant
            all == text::strs(entries@),
            fs@.at(dir@).children == Some(all),
            clean@ == text::trimmed_of(name@, text::Class::Only('"')),
            !holds_skill(fs@, path::extended(dir@, clean@)),
            i <= entries.len(),
            first_named(fs@, all.skip(i as int), name@, clean@) == first_named(
                fs@,
                all,
                name@,
                clean@,
            ),
        decreases entries.len() - i,
    {
        assert(all.skip(i as int)[0] == entries@[i as int]@);
        assert(all.skip(i as int).drop_first() =~= all.skip(i + 1));
        if is_dir_of(fs, &entries[i], name, clean) {
            return Some(entries[i].clone());
        }
        i += 1;
    }
    None
}

/// The directories in which a skill is installed, over all agents that are
/// installed and all known projects. With a scope given, only those of that
/// scope: a global skill and one of the same name in a project are two things.
pub fn skill_locations(
    fs: &FileTree,
    name: &str,
    agents: &Vec<Agent>,
    projects: &Vec<(String, String)>,
    scope_filter: Option<&ConfigScope>,
) -> (r: Vec<(String, String)>)
    ensures
        models::pairs_view(r@) == locations_of(
            fs@,
            name@,
            models::list_view(agents@),
            models::pairs_view(projects@),
            filter_view(scope_filter),
        ),
{
    let mut out: Vec<(String, String)> = Vec::new();
    let ghost all = models::list_view(agents@);
    let ghost known = models::pairs_view(projects@);
    let ghost filter = filter_view(scope_filter);
    let mut i: usize = 0;
    assert(all.take(0) =~= Seq::<AgentView>::empty());
    assert(models::pairs_view(out@) =~= locations_of(fs@, name@, all.take(0), known, filter));
    while i < agents.len()
        invariant
            all == models::list_view(agents@),
            known == models::pairs_view(projects@),
            filter == filter_view(scope_filter),
            i <= agents.len(),
            models::pairs_view(out@) == locations_of(
                fs@,
                name@,
                all.take(i as int),
                known,
                filter,
            ),
        decreases agents.len() - i,
    {
        assert(all.take(i + 1).drop_last() =~= all.take(i as int));
        assert(all.take(i + 1).last() == agents@[i as int]@);
        if agents[i].detected {
            let places = find_skill_places(fs, &agents[i], projects);
            let ghost ps = places_view(places@);
            let ghost agent = agents@[i as int]@.name;
            let ghost before = models::pairs_view(out@);
            let mut j: usize = 0;
            assert(ps.take(0) =~= Seq::<(Seq<char>, ConfigScopeView)>::empty());
            assert(models::pairs_view(out@) =~= before + locations_in(
                fs@,
                ps.take(0),
                name@,
                agent,
                filter,
            ));
            while j < places.len()
                invariant
                    i < agents.len(),
                    agent == agents@[i as int]@.name,
                    filter == filter_view(scope_filter),
                    ps == places_view(places@),
                    j <= places.len(),
                    models::pairs_view(out@) == before + locations_in(
                        fs@,
                        ps.take(j as int),
                        name@,
                        agent,
                        filter,
                    ),
                decreases places.len() - j,
            {
                assert(ps.take(j + 1).drop_last() =~= ps.take(j as int));
                assert(ps.take(j + 1).last() == (places@[j as int].0@, places@[j as int].1@));
                let ghost o = models::pairs_view(out@);
                if is_scope_wanted(&places[j].1, scope_filter) {
                    if let Some(p) = find_skill_dir(fs, &places[j].0, name) {
                        let ghost pv = p@;
                        out.push((agents[i].name.clone(), p));
                        assert(models::pairs_view(out@) =~= o.push((agent, pv)));
                    }
                }
                assert(models::pairs_view(out@) =~= before + locations_in(
                    fs@,
                    ps.take(j + 1),
                    name@,
                    agent,
                    filter,
                ));
                j += 1;
            }
            assert(ps.take(j as int) =~= ps);
        }
        i += 1;
    }
    assert(all.take(i as int) =~= all);
    out
}

// ---------------------------------------------------------------------------
// Laws
// ---------------------------------------------------------------------------

/// The skill that is found for an identifier has that identifier: in the scope
/// of a directory that one of the named agents loads skills from.
pub proof fn found_skill_has_the_id(
    fs: FileTreeView,
    agents: Seq<AgentView>,
    id: Seq<char>,
    names: Seq<Seq<char>>,
    projects: Seq<(Seq<char>, Seq<char>)>,
)
    ensures
        location_of(fs, agents, id, names, projects) matches Some(l) ==> exists|
            k: int,
            j: int,
        |
            0 <= k < agents.len() && names.contains(agents[k].name) && 0 <= j < skill_places(
                fs,
                agents[k],
                projects,
            ).len() && #[trigger] skill_places(fs, agents[k], projects)[j].0 == l.skill_dir
                && ids::scoped_id(
                probed_name(fs, l.entry_path, l.skill_file),
                "skill"@,
                agents[k].name,
                skill_places(fs, agents[k], projects)[j].1,
            ) == id,
    decreases agents.len(),
{
    if agents.len() > 0 {
        let ps = skill_places(fs, agents[0], projects);
        if names.contains(agents[0].name) && location_in_places(fs, ps, agents[0].name, id)
            is Some {
            lemma_found_in_places(fs, ps, agents[0].name, id);
            let l = location_in_places(fs, ps, agents[0].name, id)->0;
            let j = choose|j: int|
                0 <= j < ps.len() && #[trigger] ps[j].0 == l.skill_dir && ids::scoped_id(
                    probed_name(fs, l.entry_path, l.skill_file),
                    "skill"@,
                    agents[0].name,
                    ps[j].1,
                ) == id;
            assert(skill_places(fs, agents[0], projects)[j].0 == l.skill_dir);
        } else {
            found_skill_has_the_id(fs, agents.drop_first(), id, names, projects);
            match location_of(fs, agents.drop_first(), id, names, projects) {
                None => {},
                Some(l) => {
                    let rest = agents.drop_first();
                    let (k, j) = choose|k: int, j: int|
                        0 <= k < rest.len() && names.contains(rest[k].name) && 0 <= j
                            < skill_places(fs, rest[k], projects).len() && #[trigger] skill_places(
                            fs,
                            rest[k],
                            projects,
                        )[j].0 == l.skill_dir && ids::scoped_id(
                            probed_name(fs, l.entry_path, l.skill_file),
                            "skill"@,
                            rest[k].name,
                            skill_places(fs, rest[k], projects)[j].1,
                        ) == id;
                    assert(agents[k + 1] == rest[k]);
                    assert(skill_places(fs, agents[k + 1], projects)[j].0 == l.skill_dir);
                },
            }
        }
    }
}

proof fn lemma_found_in_places(
    fs: FileTreeView,
    places: Seq<(Seq<char>, ConfigScopeView)>,
    agent: Seq<char>,
    id: Seq<char>,
)
    ensures
        location_in_places(fs, places, agent, id) matches Some(l) ==> exists|j: int|
            0 <= j < places.len() && #[trigger] places[j].0 == l.skill_dir && ids::scoped_id(
                probed_name(fs, l.entry_path, l.skill_file),
                "skill"@,
                agent,
                places[j].1,
            ) == id,
    decreases places.len(),
{
    if places.len() > 0 {
        match location_in(fs, places[0], agent, id) {
            Some(l) => {
                lemma_found_among(fs, fs.at(places[0].0).children->0, places[0], agent, id);
                assert(places[0].0 == l.skill_dir);
            },
            None => {
                lemma_found_in_places(fs, places.drop_first(), agent, id);
                match location_in_places(fs, places.drop_first(), agent, id) {
                    None => {},
                    Some(l) => {
                        let rest = places.drop_first();
                        let j = choose|j: int|
                            0 <= j < rest.len() && #[trigger] rest[j].0 == l.skill_dir
                                && ids::scoped_id(
                                probed_name(fs, l.entry_path, l.skill_file),
                                "skill"@,
                                agent,
                                rest[j].1,
                            ) == id;
                        assert(places[j + 1] == rest[j]);
                        assert(places[j + 1].0 == l.skill_dir);
                    },
                }
            },
        }
    }
}

proof fn lemma_found_among(
    fs: FileTreeView,
    entries: Seq<Seq<char>>,
    place: (Seq<char>, ConfigScopeView),
    agent: Seq<char>,
    id: Seq<char>,
)
    ensures
        location_among(fs, entries, place, agent, id) matches Some(l) ==> l.skill_dir == place.0
            && ids::scoped_id(
            probed_name(fs, l.entry_path, l.skill_file),
            "skill"@,
            agent,
            place.1,
        ) == id,
    decreases entries.len(),
{
    if entries.len() > 0 {
        lemma_found_among(fs, entries.drop_first(), place, agent, id);
    }
}

/// A directory that is listed for a skill holds a skill: its text gives the
/// name, or the directory bears it.
pub proof fn listed_directory_holds_the_skill(fs: FileTreeView, dir: Seq<char>, name: Seq<char>)
    ensures
        skill_dir_in(fs, dir, name) matches Some(p) ==> holds_skill(fs, p),
{
    let clean = text::trimmed_of(name, text::Class::Only('"'));
    if !holds_skill(fs, path::extended(dir, clean)) && fs.at(dir).children is Some {
        lemma_first_named(fs, fs.at(dir).children->0, name, clean);
    }
}

proof fn lemma_first_named(
    fs: FileTreeView,
    entries: Seq<Seq<char>>,
    name: Seq<char>,
    clean: Seq<char>,
)
    ensures
        first_named(fs, entries, name, clean) matches Some(p) ==> is_named(fs, p, name, clean),
    decreases entries.len(),
{
    if entries.len() > 0 {
        lemma_first_named(fs, entries.drop_first(), name, clean);
    }
}

/// Whether two entries stand for the same skill: they agree in the identifier, the
/// name, the description and the file that it is recorded under.
pub open spec fn is_same_skill(a: ExtensionView, b: ExtensionView) -> bool {
    a.id == b.id && a.name == b.name && a.description == b.description && a.source_path
        == b.source_path
}

/// Whether the text of the skill at `p` is the same in two file systems.
pub open spec fn is_same_text(a: FileTreeView, b: FileTreeView, p: Seq<char>) -> bool {
    skill_file(a, p) == skill_file(b, p) && (skill_file(a, p) matches Some(f) ==> a.at(f.0).content
        == b.at(f.0).content)
}

/// Whether the skill in the directory `p` is enabled in one file system and
/// disabled in another, with the same text.
pub open spec fn is_disabling(on: FileTreeView, off: FileTreeView, p: Seq<char>) -> bool {
    let file = path::extended(p, "SKILL.md"@);
    let parked = path::extended(p, "SKILL.md.disabled"@);
    &&& on.at(p).is_dir && off.at(p).is_dir
    &&& on.at(file).exists && on.at(file).content is Some
    &&& !off.at(file).exists && off.at(parked).exists
    &&& off.at(parked).content == on.at(file).content
}

/// Disabling a skill, and enabling it again, changes nothing but whether it counts
/// as enabled: scans of its directory before and after find the same skills in the
/// same order, with the same identifiers, names, descriptions and files, and of
/// these the one alone is enabled before and disabled after.
pub proof fn enabling_keeps_identity(
    on: FileTreeView,
    off: FileTreeView,
    dir: Seq<char>,
    k: int,
    agent: Seq<char>,
    then: Timestamp,
    now: Timestamp,
)
    requires
        on.at(dir).children is Some,
        off.at(dir).children == on.at(dir).children,
        0 <= k < on.at(dir).children->0.len(),
        is_disabling(on, off, on.at(dir).children->0[k]),
        forall|j: int|
            0 <= j < on.at(dir).children->0.len() && j != k ==> is_same_text(
                on,
                off,
                #[trigger] on.at(dir).children->0[j],
            ),
    ensures
        ({
            let a = skills_in(on, dir, agent, then);
            let b = skills_in(off, dir, agent, now);
            let m = skills_at(on, on.at(dir).children->0.take(k), agent, then).len();
            &&& a.len() == b.len() && m < a.len()
            &&& forall|i: int| 0 <= i < a.len() ==> is_same_skill(#[trigger] a[i], b[i])
            &&& forall|i: int|
                0 <= i < a.len() && i != m ==> (#[trigger] a[i]).enabled == b[i].enabled
            &&& a[m as int].enabled && !b[m as int].enabled
        }),
{
    lemma_enabling(on, off, on.at(dir).children->0, k, agent, then, now);
}

proof fn lemma_enabling(
    on: FileTreeView,
    off: FileTreeView,
    entries: Seq<Seq<char>>,
    k: int,
    agent: Seq<char>,
    then: Timestamp,
    now: Timestamp,
)
    requires
        0 <= k,
        k < entries.len() ==> is_disabling(on, off, entries[k]),
        forall|j: int|
            0 <= j < entries.len() && j != k ==> is_same_text(on, off, #[trigger] entries[j]),
    ensures
        ({
            let a = skills_at(on, entries, agent, then);
            let b = skills_at(off, entries, agent, now);
            let m = skills_at(on, entries.take(k), agent, then).len();
            &&& a.len() == b.len()
            &&& forall|i: int| 0 <= i < a.len() ==> is_same_skill(#[trigger] a[i], b[i])
            &&& forall|i: int|
                0 <= i < a.len() && !(k < entries.len() && i == m) ==> (#[trigger] a[i]).enabled
                    == b[i].enabled
            &&& k < entries.len() ==> m < a.len() && a[m as int].enabled && !b[m as int].enabled
        }),
    decreases entries.len(),
{
    if entries.len() > 0 {
        let n = entries.len() - 1;
        let rest = entries.drop_last();
        lemma_enabling(on, off, rest, k, agent, then, now);
        if k < n {
            assert(rest.take(k) =~= entries.take(k));
        } else if k == n {
            assert(entries.take(k) =~= rest);
            assert(entries.last() == entries[k]);
        } else {
            assert(is_same_text(on, off, entries[n]));
        }
        assert(k != n ==> is_same_text(on, off, entries[n]));
    }
}

/// Every skill that a scan of the global directories of an agent finds is found
/// again by its identifier.
pub proof fn scanned_skill_is_found(
    fs: FileTreeView,
    agents: Seq<AgentView>,
    k: int,
    d: int,
    i: int,
    names: Seq<Seq<char>>,
    projects: Seq<(Seq<char>, Seq<char>)>,
    now: Timestamp,
)
    requires
        fs.is_sound(),
        0 <= k < agents.len(),
        names.contains(agents[k].name),
        0 <= d < agents[k].skill_dirs.len(),
        0 <= i < skills_in(fs, agents[k].skill_dirs[d], agents[k].name, now).len(),
    ensures
        location_of(
            fs,
            agents,
            skills_in(fs, agents[k].skill_dirs[d], agents[k].name, now)[i].id,
            names,
            projects,
        ) is Some,
{
    let a = agents[k];
    let places = skill_places(fs, a, projects);
    assert(places[d] == (a.skill_dirs[d], ConfigScopeView::Global));
    lemma_scanned_in_place(fs, places[d], a.name, i, now);
    let id = skills_in(fs, a.skill_dirs[d], a.name, now)[i].id;
    lemma_some_place(fs, places, d, a.name, id);
    lemma_some_agent(fs, agents, k, id, names, projects);
}

/// Every skill that a scan of a known project finds is found again by the
/// identifier that it has in that project.
pub proof fn scanned_project_skill_is_found(
    fs: FileTreeView,
    agents: Seq<AgentView>,
    k: int,
    q: int,
    d: int,
    i: int,
    names: Seq<Seq<char>>,
    projects: Seq<(Seq<char>, Seq<char>)>,
    now: Timestamp,
)
    requires
        fs.is_sound(),
        0 <= k < agents.len(),
        names.contains(agents[k].name),
        0 <= q < projects.len(),
        fs.at(projects[q].1).is_dir,
        0 <= d < agents[k].project_skill_dirs.len(),
        0 <= i < skills_in(
            fs,
            path::extended(projects[q].1, agents[k].project_skill_dirs[d]),
            agents[k].name,
            now,
        ).len(),
    ensures
        location_of(
            fs,
            agents,
            ids::scoped_id(
                skills_in(
                    fs,
                    path::extended(projects[q].1, agents[k].project_skill_dirs[d]),
                    agents[k].name,
                    now,
                )[i].name,
                "skill"@,
                agents[k].name,
                (ConfigScopeView::Project { name: projects[q].0, path: projects[q].1 }),
            ),
            names,
            projects,
        ) is Some,
{
    let a = agents[k];
    let rels = a.project_skill_dirs;
    let places = skill_places(fs, a, projects);
    let place = places_in_project(projects[q], rels)[d];
    let j = lemma_project_place(fs, projects, rels, q, d);
    let n = a.skill_dirs.len() as int;
    assert(places[n + j] == place);
    lemma_scanned_in_place(fs, place, a.name, i, now);
    let e = skills_in(fs, place.0, a.name, now)[i];
    let id = ids::scoped_id(e.name, "skill"@, a.name, place.1);
    lemma_some_place(fs, places, n + j, a.name, id);
    lemma_some_agent(fs, agents, k, id, names, projects);
}

proof fn lemma_project_place(
    fs: FileTreeView,
    projects: Seq<(Seq<char>, Seq<char>)>,
    rels: Seq<Seq<char>>,
    q: int,
    d: int,
) -> (j: int)
    requires
        0 <= q < projects.len(),
        fs.at(projects[q].1).is_dir,
        0 <= d < rels.len(),
    ensures
        0 <= j < places_in_projects(fs, projects, rels).len(),
        places_in_projects(fs, projects, rels)[j] == places_in_project(projects[q], rels)[d],
    decreases projects.len(),
{
    let before = places_in_projects(fs, projects.drop_last(), rels);
    if q == projects.len() - 1 {
        before.len() + d
    } else {
        lemma_project_place(fs, projects.drop_last(), rels, q, d)
    }
}

proof fn lemma_scanned_in_place(
    fs: FileTreeView,
    place: (Seq<char>, ConfigScopeView),
    agent: Seq<char>,
    i: int,
    now: Timestamp,
)
    requires
        fs.is_sound(),
        0 <= i < skills_in(fs, place.0, agent, now).len(),
    ensures
        location_in(
            fs,
            place,
            agent,
            ids::scoped_id(
                skills_in(fs, place.0, agent, now)[i].name,
                "skill"@,
                agent,
                place.1,
            ),
        ) is Some,
        skills_in(fs, place.0, agent, now)[i].id == ids::scoped_id(
            skills_in(fs, place.0, agent, now)[i].name,
            "skill"@,
            agent,
            ConfigScopeView::Global,
        ),
{
    let entries = fs.at(place.0).children->0;
    let e = skills_in(fs, place.0, agent, now)[i];
    let id = ids::scoped_id(e.name, "skill"@, agent, place.1);
    let j = lemma_scanned_entry(fs, entries, agent, i, now);
    let p = entries[j];
    let (file, disabled) = skill_file(fs, p)->0;
    assert(fs.at(file).content is Some);
    assert(fs.at(file).exists);
    assert(probed_file(fs, p) == Some(file));
    lemma_some_entry(fs, entries, j, place, agent, id);
}

proof fn lemma_scanned_entry(
    fs: FileTreeView,
    entries: Seq<Seq<char>>,
    agent: Seq<char>,
    i: int,
    now: Timestamp,
) -> (j: int)
    requires
        0 <= i < skills_at(fs, entries, agent, now).len(),
    ensures
        0 <= j < entries.len(),
        skill_at(fs, entries[j], agent, now) == Some(skills_at(fs, entries, agent, now)[i]),
    decreases entries.len(),
{
    let before = skills_at(fs, entries.drop_last(), agent, now);
    if i < before.len() {
        lemma_scanned_entry(fs, entries.drop_last(), agent, i, now)
    } else {
        entries.len() - 1
    }
}

proof fn lemma_some_entry(
    fs: FileTreeView,
    entries: Seq<Seq<char>>,
    j: int,
    place: (Seq<char>, ConfigScopeView),
    agent: Seq<char>,
    id: Seq<char>,
)
    requires
        0 <= j < entries.len(),
        location_at(fs, entries[j], place, agent, id) is Some,
    ensures
        location_among(fs, entries, place, agent, id) is Some,
    decreases entries.len(),
{
    if j > 0 {
        lemma_some_entry(fs, entries.drop_first(), j - 1, place, agent, id);
    }
}

proof fn lemma_some_place(
    fs: FileTreeView,
    places: Seq<(Seq<char>, ConfigScopeView)>,
    j: int,
    agent: Seq<char>,
    id: Seq<char>,
)
    requires
        0 <= j < places.len(),
        location_in(fs, places[j], agent, id) is Some,
    ensures
        location_in_places(fs, places, agent, id) is Some,
    decreases places.len(),
{
    if j > 0 {
        lemma_some_place(fs, places.drop_first(), j - 1, agent, id);
    }
}

proof fn lemma_some_agent(
    fs: FileTreeView,
    agents: Seq<AgentView>,
    k: int,
    id: Seq<char>,
    names: Seq<Seq<char>>,
    projects: Seq<(Seq<char>, Seq<char>)>,
)
    requires
        0 <= k < agents.len(),
        names.contains(agents[k].name),
        location_in_places(
            fs,
            skill_places(fs, agents[k], projects),
            agents[k].name,
            id,
        ) is Some,
    ensures
        location_of(fs, agents, id, names, projects) is Some,
    decreases agents.len(),
{
    if k > 0 {
        lemma_some_agent(fs, agents.drop_first(), k - 1, id, names, projects);
    }
}

/// The directories of a skill in each of some projects, taken together.
pub open spec fn locations_in_projects(
    fs: FileTreeView,
    name: Seq<char>,
    agents: Seq<AgentView>,
    known: Seq<(Seq<char>, Seq<char>)>,
    some: Seq<(Seq<char>, Seq<char>)>,
) -> Multiset<(Seq<char>, Seq<char>)>
    decreases some.len(),
{
    if some.len() == 0 {
        Multiset::empty()
    } else {
        locations_in_projects(fs, name, agents, known, some.drop_last()).add(
            locations_of(
                fs,
                name,
                agents,
                known,
                Some(ConfigScopeView::Project { name: some.last().0, path: some.last().1 }),
            ).to_multiset(),
        )
    }
}

/// Whether no two projects lie at the same path.
pub open spec fn paths_differ(projects: Seq<(Seq<char>, Seq<char>)>) -> bool {
    forall|i: int, j: int|
        0 <= i < j < projects.len() ==> (#[trigger] projects[i]).1 != (#[trigger] projects[j]).1
}

/// Without a filter the directories of a skill are the global ones together with
/// those of each project, each as often as it is found there.
pub proof fn scopes_make_up_all_locations(
    fs: FileTreeView,
    name: Seq<char>,
    agents: Seq<AgentView>,
    projects: Seq<(Seq<char>, Seq<char>)>,
)
    requires
        paths_differ(projects),
    ensures
        locations_of(fs, name, agents, projects, None).to_multiset() == locations_of(
            fs,
            name,
            agents,
            projects,
            Some(ConfigScopeView::Global),
        ).to_multiset().add(locations_in_projects(fs, name, agents, projects, projects)),
    decreases agents.len(),
{
    broadcast use vstd::seq_lib::group_to_multiset_ensures;

    let global = Some(ConfigScopeView::Global);
    if agents.len() == 0 {
        lemma_no_agents(fs, name, agents, projects, projects);
        let none = locations_of(fs, name, agents, projects, None);
        assert(none == locations_of(fs, name, agents, projects, global));
        assert(none.to_multiset() =~= none.to_multiset().add(Multiset::empty()));
    } else {
        let t = agents.drop_last();
        let a = agents.last();
        let places = skill_places(fs, a, projects);
        scopes_make_up_all_locations(fs, name, t, projects);
        lemma_last_agent(fs, name, agents, projects, projects);
        if a.detected {
            lemma_places_known(fs, a, projects);
            lemma_places_split(fs, places, name, a.name, projects);
            let x = locations_in(fs, places, name, a.name, None);
            let y = locations_in(fs, places, name, a.name, global);
            let before = locations_of(fs, name, t, projects, None);
            let globals = locations_of(fs, name, t, projects, global);
            vstd::seq_lib::lemma_multiset_commutative(before, x);
            vstd::seq_lib::lemma_multiset_commutative(globals, y);
            assert((before + x).to_multiset() =~= (globals + y).to_multiset().add(
                locations_in_projects(fs, name, agents, projects, projects),
            ));
        }
    }
}

/// The directories of a skill among some places of one agent, in each of some
/// projects, taken together.
spec fn places_by_project(
    fs: FileTreeView,
    places: Seq<(Seq<char>, ConfigScopeView)>,
    name: Seq<char>,
    agent: Seq<char>,
    some: Seq<(Seq<char>, Seq<char>)>,
) -> Multiset<(Seq<char>, Seq<char>)>
    decreases some.len(),
{
    if some.len() == 0 {
        Multiset::empty()
    } else {
        places_by_project(fs, places, name, agent, some.drop_last()).add(
            locations_in(
                fs,
                places,
                name,
                agent,
                Some(ConfigScopeView::Project { name: some.last().0, path: some.last().1 }),
            ).to_multiset(),
        )
    }
}

proof fn lemma_no_agents(
    fs: FileTreeView,
    name: Seq<char>,
    agents: Seq<AgentView>,
    known: Seq<(Seq<char>, Seq<char>)>,
    some: Seq<(Seq<char>, Seq<char>)>,
)
    requires
        agents.len() == 0,
    ensures
        locations_in_projects(fs, name, agents, known, some) == Multiset::<
            (Seq<char>, Seq<char>),
        >::empty(),
    decreases some.len(),
{
    broadcast use vstd::seq_lib::group_to_multiset_ensures;

    if some.len() > 0 {
        lemma_no_agents(fs, name, agents, known, some.drop_last());
        assert(locations_in_projects(fs, name, agents, known, some) =~= Multiset::empty());
    }
}

proof fn lemma_last_agent(
    fs: FileTreeView,
    name: Seq<char>,
    agents: Seq<AgentView>,
    known: Seq<(Seq<char>, Seq<char>)>,
    some: Seq<(Seq<char>, Seq<char>)>,
)
    requires
        agents.len() > 0,
    ensures
        ({
            let before = locations_in_projects(fs, name, agents.drop_last(), known, some);
            let a = agents.last();
            locations_in_projects(fs, name, agents, known, some) == if a.detected {
                before.add(
                    places_by_project(fs, skill_places(fs, a, known), name, a.name, some),
                )
            } else {
                before
            }
        }),
    decreases some.len(),
{
    let t = agents.drop_last();
    let a = agents.last();
    let places = skill_places(fs, a, known);
    if some.len() == 0 {
        assert(Multiset::<(Seq<char>, Seq<char>)>::empty().add(Multiset::empty())
            =~= Multiset::empty());
    } else {
        lemma_last_agent(fs, name, agents, known, some.drop_last());
        let filter = Some(
            ConfigScopeView::Project { name: some.last().0, path: some.last().1 },
        );
        let x = locations_of(fs, name, t, known, filter);
        let y = locations_in(fs, places, name, a.name, filter);
        vstd::seq_lib::lemma_multiset_commutative(x, y);
        if a.detected {
            assert(locations_in_projects(fs, name, agents, known, some) =~= locations_in_projects(
                fs,
                name,
                t,
                known,
                some,
            ).add(places_by_project(fs, places, name, a.name, some)));
        }
    }
}

/// What one place adds to the directories of a skill.
spec fn added_by(
    fs: FileTreeView,
    place: (Seq<char>, ConfigScopeView),
    name: Seq<char>,
    agent: Seq<char>,
    filter: Option<ConfigScopeView>,
) -> Multiset<(Seq<char>, Seq<char>)> {
    if scope_wanted(place.1, filter) && skill_dir_in(fs, place.0, name) is Some {
        Multiset::singleton((agent, skill_dir_in(fs, place.0, name)->0))
    } else {
        Multiset::empty()
    }
}

proof fn lemma_last_place(
    fs: FileTreeView,
    places: Seq<(Seq<char>, ConfigScopeView)>,
    name: Seq<char>,
    agent: Seq<char>,
    filter: Option<ConfigScopeView>,
)
    requires
        places.len() > 0,
    ensures
        locations_in(fs, places, name, agent, filter).to_multiset() == locations_in(
            fs,
            places.drop_last(),
            name,
            agent,
            filter,
        ).to_multiset().add(added_by(fs, places.last(), name, agent, filter)),
{
    broadcast use vstd::seq_lib::group_to_multiset_ensures;

    let before = locations_in(fs, places.drop_last(), name, agent, filter);
    let all = locations_in(fs, places, name, agent, filter);
    assert(all.to_multiset() =~= before.to_multiset().add(
        added_by(fs, places.last(), name, agent, filter),
    ));
}

/// Whether a scope is global, or the project at the path of one of some projects.
spec fn is_known_scope(scope: ConfigScopeView, some: Seq<(Seq<char>, Seq<char>)>) -> bool {
    scope matches ConfigScopeView::Project { path, .. } ==> exists|i: int|
        0 <= i < some.len() && (#[trigger] some[i]).1 == path
}

proof fn lemma_last_place_by_project(
    fs: FileTreeView,
    places: Seq<(Seq<char>, ConfigScopeView)>,
    name: Seq<char>,
    agent: Seq<char>,
    some: Seq<(Seq<char>, Seq<char>)>,
)
    requires
        places.len() > 0,
        paths_differ(some),
    ensures
        places_by_project(fs, places, name, agent, some) == places_by_project(
            fs,
            places.drop_last(),
            name,
            agent,
            some,
        ).add(
            if places.last().1 is Project && is_known_scope(places.last().1, some) {
                added_by(fs, places.last(), name, agent, None)
            } else {
                Multiset::empty()
            },
        ),
    decreases some.len(),
{
    let none = Multiset::<(Seq<char>, Seq<char>)>::empty();
    let place = places.last();
    if some.len() == 0 {
        assert(none.add(none) =~= none);
    } else {
        let t = some.drop_last();
        assert(paths_differ(t)) by {
            assert forall|i: int, j: int| 0 <= i < j < t.len() implies (#[trigger] t[i]).1 != (
            #[trigger] t[j]).1 by {
                assert(some[i].1 != some[j].1);
            }
        }
        lemma_last_place_by_project(fs, places, name, agent, t);
        let filter = Some(
            ConfigScopeView::Project { name: some.last().0, path: some.last().1 },
        );
        lemma_last_place(fs, places, name, agent, filter);
        let last = some.len() - 1;
        if place.1 is Project {
            if is_known_scope(place.1, t) {
                let i = choose|i: int|
                    0 <= i < t.len() && (#[trigger] t[i]).1 == place.1->Project_path;
                assert(some[i].1 == place.1->Project_path);
                assert(some[i].1 != some[last].1);
            } else if is_known_scope(place.1, some) {
                let i = choose|i: int|
                    0 <= i < some.len() && (#[trigger] some[i]).1 == place.1->Project_path;
                if i < last {
                    assert(t[i].1 == place.1->Project_path);
                }
            } else {
                assert(some[last].1 != place.1->Project_path);
            }
        }
        assert(places_by_project(fs, places, name, agent, some) =~= places_by_project(
            fs,
            places.drop_last(),
            name,
            agent,
            some,
        ).add(
            if place.1 is Project && is_known_scope(place.1, some) {
                added_by(fs, place, name, agent, None)
            } else {
                none
            },
        ));
    }
}

proof fn lemma_places_split(
    fs: FileTreeView,
    places: Seq<(Seq<char>, ConfigScopeView)>,
    name: Seq<char>,
    agent: Seq<char>,
    some: Seq<(Seq<char>, Seq<char>)>,
)
    requires
        paths_differ(some),
        forall|i: int| 0 <= i < places.len() ==> is_known_scope((#[trigger] places[i]).1, some),
    ensures
        locations_in(fs, places, name, agent, None).to_multiset() == locations_in(
            fs,
            places,
            name,
            agent,
            Some(ConfigScopeView::Global),
        ).to_multiset().add(places_by_project(fs, places, name, agent, some)),
    decreases places.len(),
{
    broadcast use vstd::seq_lib::group_to_multiset_ensures;

    let global = Some(ConfigScopeView::Global);
    if places.len() == 0 {
        lemma_no_places(fs, places, name, agent, some);
        let x = locations_in(fs, places, name, agent, None).to_multiset();
        assert(x =~= x.add(Multiset::empty()));
    } else {
        let t = places.drop_last();
        assert forall|i: int| 0 <= i < t.len() implies is_known_scope(
            (#[trigger] t[i]).1,
            some,
        ) by {
            assert(t[i] == places[i]);
        }
        lemma_places_split(fs, t, name, agent, some);
        lemma_last_place(fs, places, name, agent, None);
        lemma_last_place(fs, places, name, agent, global);
        lemma_last_place_by_project(fs, places, name, agent, some);
        assert(is_known_scope(places[places.len() - 1].1, some));
        assert(locations_in(fs, places, name, agent, None).to_multiset() =~= locations_in(
            fs,
            places,
            name,
            agent,
            global,
        ).to_multiset().add(places_by_project(fs, places, name, agent, some)));
    }
}

proof fn lemma_no_places(
    fs: FileTreeView,
    places: Seq<(Seq<char>, ConfigScopeView)>,
    name: Seq<char>,
    agent: Seq<char>,
    some: Seq<(Seq<char>, Seq<char>)>,
)
    requires
        places.len() == 0,
    ensures
        places_by_project(fs, places, name, agent, some) == Multiset::<
            (Seq<char>, Seq<char>),
        >::empty(),
    decreases some.len(),
{
    broadcast use vstd::seq_lib::group_to_multiset_ensures;

    if some.len() > 0 {
        lemma_no_places(fs, places, name, agent, some.drop_last());
        assert(places_by_project(fs, places, name, agent, some) =~= Multiset::empty());
    }
}

proof fn lemma_places_known(
    fs: FileTreeView,
    agent: AgentView,
    projects: Seq<(Seq<char>, Seq<char>)>,
)
    ensures
        forall|i: int|
            0 <= i < skill_places(fs, agent, projects).len() ==> is_known_scope(
                (#[trigger] skill_places(fs, agent, projects)[i]).1,
                projects,
            ),
{
    let places = skill_places(fs, agent, projects);
    let n = agent.skill_dirs.len();
    let rest = places_in_projects(fs, projects, agent.project_skill_dirs);
    lemma_project_places_known(fs, projects, agent.project_skill_dirs);
    assert forall|i: int| 0 <= i < places.len() implies is_known_scope(
        (#[trigger] places[i]).1,
        projects,
    ) by {
        if i >= n {
            assert(places[i] == rest[i - n]);
        }
    }
}

proof fn lemma_project_places_known(
    fs: FileTreeView,
    projects: Seq<(Seq<char>, Seq<char>)>,
    rels: Seq<Seq<char>>,
)
    ensures
        forall|i: int|
            0 <= i < places_in_projects(fs, projects, rels).len() ==> is_known_scope(
                (#[trigger] places_in_projects(fs, projects, rels)[i]).1,
                projects,
            ),
    decreases projects.len(),
{
    if projects.len() > 0 {
        let t = projects.drop_last();
        let all = places_in_projects(fs, projects, rels);
        let before = places_in_projects(fs, t, rels);
        lemma_project_places_known(fs, t, rels);
        assert forall|i: int| 0 <= i < all.len() implies is_known_scope(
            (#[trigger] all[i]).1,
            projects,
        ) by {
            if i < before.len() {
                assert(all[i] == before[i]);
                if all[i].1 is Project {
                    let k = choose|k: int|
                        0 <= k < t.len() && (#[trigger] t[k]).1 == all[i].1->Project_path;
                    assert(projects[k].1 == all[i].1->Project_path);
                }
            } else {
                assert(projects[projects.len() - 1].1 == all[i].1->Project_path);
            }
        }
    }
}

/// Each directory that is listed for a skill is listed for an agent that is installed,
/// and holds a skill.
pub proof fn locations_hold_skills(
    fs: FileTreeView,
    name: Seq<char>,
    agents: Seq<AgentView>,
    projects: Seq<(Seq<char>, Seq<char>)>,
    filter: Option<ConfigScopeView>,
    i: int,
)
    requires
        0 <= i < locations_of(fs, name, agents, projects, filter).len(),
    ensures
        exists|k: int|
            0 <= k < agents.len() && (#[trigger] agents[k]).detected && agents[k].name
                == locations_of(fs, name, agents, projects, filter)[i].0,
        holds_skill(fs, locations_of(fs, name, agents, projects, filter)[i].1),
    decreases agents.len(),
{
    let t = agents.drop_last();
    let a = agents.last();
    let all = locations_of(fs, name, agents, projects, filter);
    let before = locations_of(fs, name, t, projects, filter);
    if i < before.len() {
        assert(all[i] == before[i]);
        locations_hold_skills(fs, name, t, projects, filter, i);
        let k = choose|k: int|
            0 <= k < t.len() && (#[trigger] t[k]).detected && t[k].name == all[i].0;
        assert(agents[k].detected && agents[k].name == all[i].0);
    } else {
        let places = skill_places(fs, a, projects);
        let j = i - before.len();
        assert(all[i] == locations_in(fs, places, name, a.name, filter)[j]);
        lemma_locations_in(fs, places, name, a.name, filter, j);
        assert(agents[agents.len() - 1].detected);
    }
}

proof fn lemma_locations_in(
    fs: FileTreeView,
    places: Seq<(Seq<char>, ConfigScopeView)>,
    name: Seq<char>,
    agent: Seq<char>,
    filter: Option<ConfigScopeView>,
    i: int,
)
    requires
        0 <= i < locations_in(fs, places, name, agent, filter).len(),
    ensures
        locations_in(fs, places, name, agent, filter)[i].0 == agent,
        holds_skill(fs, locations_in(fs, places, name, agent, filter)[i].1),
    decreases places.len(),
{
    let before = locations_in(fs, places.drop_last(), name, agent, filter);
    if i < before.len() {
        lemma_locations_in(fs, places.drop_last(), name, agent, filter, i);
    } else {
        listed_directory_holds_the_skill(fs, places.last().0, name);
    }
}

} // verus!
