//! Where a skill is looked for, and what is found there.

use vstd::prelude::*;

use crate::agents::AgentView;
use crate::files::FileTreeView;
use crate::frontmatter;
use crate::ids;
use crate::lists;
use crate::models::{ConfigScopeView, SkillLocationView};
use crate::path;
use crate::skills;
use crate::text;

verus! {

/// Whether an agent loads skills of a scope from a directory: from its global ones,
/// and from its directories in each project that is there.
pub open spec fn loads_from(
    fs: FileTreeView,
    a: AgentView,
    projects: Seq<(Seq<char>, Seq<char>)>,
    dir: Seq<char>,
    scope: ConfigScopeView,
) -> bool {
    ||| scope is Global && a.skill_dirs.contains(dir)
    ||| exists|p: int, r: int|
        0 <= p < projects.len() && 0 <= r < a.project_skill_dirs.len() && fs.at(
            projects[p].1,
        ).is_dir && dir == #[trigger] path::extended(projects[p].1, a.project_skill_dirs[r])
            && scope == (ConfigScopeView::Project { name: projects[p].0, path: projects[p].1 })
}

proof fn lemma_places_in_projects(
    fs: FileTreeView,
    projects: Seq<(Seq<char>, Seq<char>)>,
    rels: Seq<Seq<char>>,
    x: (Seq<char>, ConfigScopeView),
)
    ensures
        skills::places_in_projects(fs, projects, rels).contains(x) <==> exists|p: int, r: int|
            0 <= p < projects.len() && 0 <= r < rels.len() && fs.at(projects[p].1).is_dir && x.0
                == #[trigger] path::extended(projects[p].1, rels[r]) && x.1
                == (ConfigScopeView::Project { name: projects[p].0, path: projects[p].1 }),
    decreases projects.len(),
{
    let all = skills::places_in_projects(fs, projects, rels);
    if projects.len() > 0 {
        let t = projects.drop_last();
        let last = projects.last();
        let before = skills::places_in_projects(fs, t, rels);
        let here = skills::places_in_project(last, rels);
        lemma_places_in_projects(fs, t, rels, x);
        lists::lemma_sum_contains(before, here, x);
        if before.contains(x) {
            let (p, r) = choose|p: int, r: int|
                0 <= p < t.len() && 0 <= r < rels.len() && fs.at(t[p].1).is_dir && x.0
                    == #[trigger] path::extended(t[p].1, rels[r]) && x.1
                    == (ConfigScopeView::Project { name: t[p].0, path: t[p].1 });
            assert(projects[p] == t[p]);
            assert(x.0 == path::extended(projects[p].1, rels[r]));
        }
        if here.contains(x) && fs.at(last.1).is_dir {
            let r = choose|r: int| 0 <= r < here.len() && here[r] == x;
            let p = projects.len() - 1;
            assert(x.0 == path::extended(projects[p].1, rels[r]));
        }
        if exists|p: int, r: int|
            0 <= p < projects.len() && 0 <= r < rels.len() && fs.at(projects[p].1).is_dir && x.0
                == #[trigger] path::extended(projects[p].1, rels[r]) && x.1
                == (ConfigScopeView::Project { name: projects[p].0, path: projects[p].1 }) {
            let (p, r) = choose|p: int, r: int|
                0 <= p < projects.len() && 0 <= r < rels.len() && fs.at(projects[p].1).is_dir && x.0
                    == #[trigger] path::extended(projects[p].1, rels[r]) && x.1
                    == (ConfigScopeView::Project { name: projects[p].0, path: projects[p].1 });
            if p < t.len() {
                assert(t[p] == projects[p]);
                assert(x.0 == path::extended(t[p].1, rels[r]));
            } else {
                assert(here[r] == x);
            }
        }
    } else {
        assert(!all.contains(x));
    }
}

/// The directories in which the skills of an agent are looked for are exactly those
/// from which it loads skills, each with its scope.
pub proof fn skills_are_looked_for_where_they_are_loaded(
    fs: FileTreeView,
    a: AgentView,
    projects: Seq<(Seq<char>, Seq<char>)>,
    dir: Seq<char>,
    scope: ConfigScopeView,
)
    ensures
        skills::skill_places(fs, a, projects).contains((dir, scope)) <==> loads_from(
            fs,
            a,
            projects,
            dir,
            scope,
        ),
{
    let x = (dir, scope);
    let global = Seq::new(
        a.skill_dirs.len(),
        |i: int| (a.skill_dirs[i], ConfigScopeView::Global),
    );
    let rest = skills::places_in_projects(fs, projects, a.project_skill_dirs);
    lists::lemma_sum_contains(global, rest, x);
    lemma_places_in_projects(fs, projects, a.project_skill_dirs, x);
    if global.contains(x) {
        let i = choose|i: int| 0 <= i < global.len() && global[i] == x;
        assert(a.skill_dirs[i] == dir);
    }
    if scope is Global && a.skill_dirs.contains(dir) {
        let i = choose|i: int| 0 <= i < a.skill_dirs.len() && a.skill_dirs[i] == dir;
        assert(global[i] == x);
    }
}

/// Whether the text of the skill that is looked for at `p` lies in `file`: in a
/// directory in `SKILL.md`, or if that is not there in `SKILL.md.disabled`; else in a
/// single file that ends in `.md` or `.disabled`.
pub open spec fn may_hold_text(fs: FileTreeView, p: Seq<char>, file: Seq<char>) -> bool {
    let on = path::extended(p, "SKILL.md"@);
    let off = path::extended(p, "SKILL.md.disabled"@);
    &&& fs.at(file).exists
    &&& if fs.at(p).is_dir {
        file == (if fs.at(on).exists {
            on
        } else {
            off
        })
    } else {
        file == p && (path::extension_of(p) == Some("md"@) || path::extension_of(p) == Some(
            "disabled"@,
        ))
    }
}

/// Whether a location is that of a skill with an identifier, in a directory from which
/// one of some agents loads skills: by the name that its text gives, else by that of
/// its entry.
pub open spec fn is_place_of_skill(
    fs: FileTreeView,
    a: AgentView,
    projects: Seq<(Seq<char>, Seq<char>)>,
    scope: ConfigScopeView,
    id: Seq<char>,
    l: SkillLocationView,
) -> bool {
    &&& loads_from(fs, a, projects, l.skill_dir, scope)
    &&& fs.at(l.skill_dir).children matches Some(entries) && entries.contains(l.entry_path)
    &&& may_hold_text(fs, l.entry_path, l.skill_file)
    &&& {
        let head = match fs.at(l.skill_file).content {
            Some(c) => frontmatter::frontmatter_of(c),
            None => None,
        };
        let name = match head {
            Some(f) => f.0,
            None => path::stem_or_empty(l.entry_path),
        };
        ids::scoped_id(name, "skill"@, a.name, scope) == id
    }
}

proof fn lemma_location_at(
    fs: FileTreeView,
    p: Seq<char>,
    place: (Seq<char>, ConfigScopeView),
    agent: Seq<char>,
    id: Seq<char>,
)
    ensures
        skills::location_at(fs, p, place, agent, id) matches Some(l) ==> l.entry_path == p
            && l.skill_dir == place.0 && may_hold_text(fs, p, l.skill_file) && ids::scoped_id(
            skills::probed_name(fs, p, l.skill_file),
            "skill"@,
            agent,
            place.1,
        ) == id,
        skills::location_at(fs, p, place, agent, id) is None ==> forall|file: Seq<char>| #[trigger]
            may_hold_text(fs, p, file) ==> ids::scoped_id(
                skills::probed_name(fs, p, file),
                "skill"@,
                agent,
                place.1,
            ) != id,
{
}

proof fn lemma_location_among(
    fs: FileTreeView,
    entries: Seq<Seq<char>>,
    place: (Seq<char>, ConfigScopeView),
    agent: Seq<char>,
    id: Seq<char>,
)
    ensures
        skills::location_among(fs, entries, place, agent, id) matches Some(l) ==> entries.contains(
            l.entry_path,
        ) && l.skill_dir == place.0 && may_hold_text(fs, l.entry_path, l.skill_file)
            && ids::scoped_id(
            skills::probed_name(fs, l.entry_path, l.skill_file),
            "skill"@,
            agent,
            place.1,
        ) == id,
        skills::location_among(fs, entries, place, agent, id) is None ==> forall|
            i: int,
            file: Seq<char>,
        |
            0 <= i < entries.len() && #[trigger] may_hold_text(fs, entries[i], file)
                ==> ids::scoped_id(
                skills::probed_name(fs, entries[i], file),
                "skill"@,
                agent,
                place.1,
            ) != id,
    decreases entries.len(),
{
    if entries.len() > 0 {
        let t = entries.drop_first();
        lemma_location_at(fs, entries[0], place, agent, id);
        lemma_location_among(fs, t, place, agent, id);
        assert(entries.contains(entries[0]));
        if skills::location_at(fs, entries[0], place, agent, id) is None {
            match skills::location_among(fs, t, place, agent, id) {
                Some(l) => {
                    let i = choose|i: int| 0 <= i < t.len() && t[i] == l.entry_path;
                    assert(entries[i + 1] == l.entry_path);
                },
                None => {
                    assert forall|i: int, file: Seq<char>|
                        0 <= i < entries.len() && #[trigger] may_hold_text(
                            fs,
                            entries[i],
                            file,
                        ) implies ids::scoped_id(
                        skills::probed_name(fs, entries[i], file),
                        "skill"@,
                        agent,
                        place.1,
                    ) != id by {
                        if i > 0 {
                            assert(t[i - 1] == entries[i]);
                            assert(may_hold_text(fs, t[i - 1], file));
                        }
                    }
                },
            }
        }
    }
}

spec fn is_in_place(
    fs: FileTreeView,
    place: (Seq<char>, ConfigScopeView),
    agent: Seq<char>,
    id: Seq<char>,
    l: SkillLocationView,
) -> bool {
    &&& l.skill_dir == place.0
    &&& fs.at(place.0).children matches Some(entries) && entries.contains(l.entry_path)
    &&& may_hold_text(fs, l.entry_path, l.skill_file)
    &&& ids::scoped_id(
        skills::probed_name(fs, l.entry_path, l.skill_file),
        "skill"@,
        agent,
        place.1,
    ) == id
}

proof fn lemma_location_in(
    fs: FileTreeView,
    place: (Seq<char>, ConfigScopeView),
    agent: Seq<char>,
    id: Seq<char>,
)
    ensures
        skills::location_in(fs, place, agent, id) matches Some(l) ==> is_in_place(
            fs,
            place,
            agent,
            id,
            l,
        ),
        skills::location_in(fs, place, agent, id) is None ==> forall|l: SkillLocationView|
            !#[trigger] is_in_place(fs, place, agent, id, l),
{
    if let Some(entries) = fs.at(place.0).children {
        lemma_location_among(fs, entries, place, agent, id);
        if skills::location_in(fs, place, agent, id) is None {
            assert forall|l: SkillLocationView| !#[trigger]
                is_in_place(fs, place, agent, id, l) by {
                if is_in_place(fs, place, agent, id, l) {
                    let i = choose|i: int| 0 <= i < entries.len() && entries[i] == l.entry_path;
                    assert(may_hold_text(fs, entries[i], l.skill_file));
                }
            }
        }
    }
}

proof fn lemma_location_in_places(
    fs: FileTreeView,
    places: Seq<(Seq<char>, ConfigScopeView)>,
    agent: Seq<char>,
    id: Seq<char>,
)
    ensures
        skills::location_in_places(fs, places, agent, id) matches Some(l) ==> exists|j: int|
            0 <= j < places.len() && is_in_place(fs, #[trigger] places[j], agent, id, l),
        skills::location_in_places(fs, places, agent, id) is None ==> forall|
            j: int,
            l: SkillLocationView,
        |
            0 <= j < places.len() ==> !#[trigger] is_in_place(fs, places[j], agent, id, l),
    decreases places.len(),
{
    if places.len() > 0 {
        let t = places.drop_first();
        lemma_location_in(fs, places[0], agent, id);
        lemma_location_in_places(fs, t, agent, id);
        match skills::location_in(fs, places[0], agent, id) {
            Some(l) => {
                assert(is_in_place(fs, places[0], agent, id, l));
            },
            None => {
                match skills::location_in_places(fs, t, agent, id) {
                    Some(l) => {
                        let j = choose|j: int|
                            0 <= j < t.len() && is_in_place(fs, #[trigger] t[j], agent, id, l);
                        assert(places[j + 1] == t[j]);
                    },
                    None => {
                        assert forall|j: int, l: SkillLocationView|
                            0 <= j < places.len() implies !#[trigger] is_in_place(
                            fs,
                            places[j],
                            agent,
                            id,
                            l,
                        ) by {
                            if j > 0 {
                                assert(!is_in_place(fs, t[j - 1], agent, id, l));
                            }
                        }
                    },
                }
            },
        }
    }
}

proof fn lemma_place_of_skill(
    fs: FileTreeView,
    a: AgentView,
    projects: Seq<(Seq<char>, Seq<char>)>,
    id: Seq<char>,
)
    ensures
        ({
            let found = skills::location_in_places(
                fs,
                skills::skill_places(fs, a, projects),
                a.name,
                id,
            );
            &&& found matches Some(l) ==> exists|scope: ConfigScopeView| #[trigger]
                is_place_of_skill(fs, a, projects, scope, id, l)
            &&& found is None ==> forall|scope: ConfigScopeView, l: SkillLocationView|
                !#[trigger] is_place_of_skill(fs, a, projects, scope, id, l)
        }),
{
    let places = skills::skill_places(fs, a, projects);
    lemma_location_in_places(fs, places, a.name, id);
    match skills::location_in_places(fs, places, a.name, id) {
        Some(l) => {
            let j = choose|j: int|
                0 <= j < places.len() && is_in_place(fs, #[trigger] places[j], a.name, id, l);
            assert(places.contains(places[j]));
            skills_are_looked_for_where_they_are_loaded(
                fs,
                a,
                projects,
                places[j].0,
                places[j].1,
            );
            assert(is_place_of_skill(fs, a, projects, places[j].1, id, l));
        },
        None => {
            assert forall|scope: ConfigScopeView, l: SkillLocationView| !#[trigger]
                is_place_of_skill(fs, a, projects, scope, id, l) by {
                if is_place_of_skill(fs, a, projects, scope, id, l) {
                    let x = (l.skill_dir, scope);
                    skills_are_looked_for_where_they_are_loaded(
                        fs,
                        a,
                        projects,
                        l.skill_dir,
                        scope,
                    );
                    let j = choose|j: int| 0 <= j < places.len() && places[j] == x;
                    assert(is_in_place(fs, places[j], a.name, id, l));
                }
            }
        },
    }
}

/// A skill is found by its identifier exactly if one of the agents that are named
/// loads one with that identifier from some directory; and what is found is such a
/// skill: its entry in that directory, and the file with its text.
pub proof fn skill_is_found_where_it_is_loaded(
    fs: FileTreeView,
    agents: Seq<AgentView>,
    id: Seq<char>,
    names: Seq<Seq<char>>,
    projects: Seq<(Seq<char>, Seq<char>)>,
)
    ensures
        skills::location_of(fs, agents, id, names, projects) matches Some(l) ==> exists|
            k: int,
            scope: ConfigScopeView,
        |
            0 <= k < agents.len() && names.contains(agents[k].name) && #[trigger] is_place_of_skill(
                fs,
                agents[k],
                projects,
                scope,
                id,
                l,
            ),
        skills::location_of(fs, agents, id, names, projects) is None ==> forall|
            k: int,
            scope: ConfigScopeView,
            l: SkillLocationView,
        |
            0 <= k < agents.len() && names.contains(agents[k].name)
                ==> !#[trigger] is_place_of_skill(fs, agents[k], projects, scope, id, l),
    decreases agents.len(),
{
    if agents.len() > 0 {
        let t = agents.drop_first();
        let a = agents[0];
        skill_is_found_where_it_is_loaded(fs, t, id, names, projects);
        lemma_place_of_skill(fs, a, projects, id);
        let here = if names.contains(a.name) {
            skills::location_in_places(fs, skills::skill_places(fs, a, projects), a.name, id)
        } else {
            None
        };
        match here {
            Some(l) => {
                let scope = choose|scope: ConfigScopeView| #[trigger]
                    is_place_of_skill(fs, a, projects, scope, id, l);
                assert(is_place_of_skill(fs, agents[0], projects, scope, id, l));
            },
            None => {
                match skills::location_of(fs, t, id, names, projects) {
                    Some(l) => {
                        let (k, scope) = choose|k: int, scope: ConfigScopeView|
                            0 <= k < t.len() && names.contains(t[k].name)
                                && #[trigger] is_place_of_skill(fs, t[k], projects, scope, id, l);
                        assert(is_place_of_skill(fs, agents[k + 1], projects, scope, id, l));
                    },
                    None => {
                        assert forall|k: int, scope: ConfigScopeView, l: SkillLocationView|
                            0 <= k < agents.len() && names.contains(
                                agents[k].name,
                            ) implies !#[trigger] is_place_of_skill(
                            fs,
                            agents[k],
                            projects,
                            scope,
                            id,
                            l,
                        ) by {
                            if k > 0 {
                                assert(t[k - 1] == agents[k]);
                                assert(!is_place_of_skill(fs, t[k - 1], projects, scope, id, l));
                            }
                        }
                    },
                }
            },
        }
    }
}

// ---------------------------------------------------------------------------
// By name
// ---------------------------------------------------------------------------

/// Whether a scope is one of those that are asked for.
pub open spec fn is_asked_for(scope: ConfigScopeView, filter: Option<ConfigScopeView>) -> bool {
    match filter {
        None => true,
        Some(f) => if f is Global {
            scope is Global
        } else {
            !(scope is Global) && scope->path == f->path
        },
    }
}

/// Whether the directory of a skill with a name is `p`, among the entries of `dir`: the
/// one that bears the name, without quotes around it; else, if that holds no skill, one
/// whose text gives the name, with or without the quotes.
pub open spec fn is_directory_of_skill(
    fs: FileTreeView,
    dir: Seq<char>,
    name: Seq<char>,
    p: Seq<char>,
) -> bool {
    let bare = text::trimmed_of(name, text::Class::Only('"'));
    let direct = path::extended(dir, bare);
    let has = |q: Seq<char>|
        fs.at(path::extended(q, "SKILL.md"@)).exists || fs.at(
            path::extended(q, "SKILL.md.disabled"@),
        ).exists;
    if has(direct) {
        p == direct
    } else {
        &&& fs.at(dir).children matches Some(entries) && entries.contains(p)
        &&& fs.at(p).is_dir && has(p)
        &&& {
            let on = path::extended(p, "SKILL.md"@);
            let file = if fs.at(on).exists {
                on
            } else {
                path::extended(p, "SKILL.md.disabled"@)
            };
            fs.at(file).content matches Some(c) && (frontmatter::frontmatter_of(c) matches Some(f)
                && (f.0 == name || f.0 == bare))
        }
    }
}

proof fn lemma_first_named(
    fs: FileTreeView,
    entries: Seq<Seq<char>>,
    name: Seq<char>,
    clean: Seq<char>,
)
    ensures
        skills::first_named(fs, entries, name, clean) matches Some(p) ==> entries.contains(p)
            && skills::is_named(fs, p, name, clean),
        skills::first_named(fs, entries, name, clean) is None ==> forall|i: int|
            0 <= i < entries.len() ==> !skills::is_named(fs, #[trigger] entries[i], name, clean),
    decreases entries.len(),
{
    if entries.len() > 0 {
        let t = entries.drop_first();
        lemma_first_named(fs, t, name, clean);
        assert(entries.contains(entries[0]));
        if !skills::is_named(fs, entries[0], name, clean) {
            match skills::first_named(fs, t, name, clean) {
                Some(p) => {
                    let i = choose|i: int| 0 <= i < t.len() && t[i] == p;
                    assert(entries[i + 1] == p);
                },
                None => {
                    assert forall|i: int| 0 <= i < entries.len() implies !skills::is_named(
                        fs,
                        #[trigger] entries[i],
                        name,
                        clean,
                    ) by {
                        if i > 0 {
                            assert(t[i - 1] == entries[i]);
                        }
                    }
                },
            }
        }
    }
}

/// A skill is found by its name inside a directory exactly if that has a directory of
/// the skill, and then one of these is given.
pub proof fn skill_is_found_by_name(fs: FileTreeView, dir: Seq<char>, name: Seq<char>)
    ensures
        skills::skill_dir_in(fs, dir, name) matches Some(p) ==> is_directory_of_skill(
            fs,
            dir,
            name,
            p,
        ),
        skills::skill_dir_in(fs, dir, name) is None ==> forall|p: Seq<char>|
            !#[trigger] is_directory_of_skill(fs, dir, name, p),
{
    let bare = text::trimmed_of(name, text::Class::Only('"'));
    if let Some(entries) = fs.at(dir).children {
        lemma_first_named(fs, entries, name, bare);
        if skills::skill_dir_in(fs, dir, name) is None {
            assert forall|p: Seq<char>| !#[trigger] is_directory_of_skill(fs, dir, name, p) by {
                if is_directory_of_skill(fs, dir, name, p) {
                    let i = choose|i: int| 0 <= i < entries.len() && entries[i] == p;
                    assert(skills::is_named(fs, entries[i], name, bare));
                }
            }
        }
    }
}

spec fn is_among_places(
    fs: FileTreeView,
    places: Seq<(Seq<char>, ConfigScopeView)>,
    name: Seq<char>,
    filter: Option<ConfigScopeView>,
    p: Seq<char>,
) -> bool {
    exists|j: int|
        0 <= j < places.len() && is_asked_for((#[trigger] places[j]).1, filter)
            && skills::skill_dir_in(fs, places[j].0, name) == Some(p)
}

proof fn lemma_locations_in(
    fs: FileTreeView,
    places: Seq<(Seq<char>, ConfigScopeView)>,
    name: Seq<char>,
    agent: Seq<char>,
    filter: Option<ConfigScopeView>,
    x: (Seq<char>, Seq<char>),
)
    ensures
        skills::locations_in(fs, places, name, agent, filter).contains(x) <==> x.0 == agent
            && is_among_places(fs, places, name, filter, x.1),
    decreases places.len(),
{
    let all = skills::locations_in(fs, places, name, agent, filter);
    if places.len() > 0 {
        let t = places.drop_last();
        let last = places.last();
        let before = skills::locations_in(fs, t, name, agent, filter);
        lemma_locations_in(fs, t, name, agent, filter, x);
        assert(skills::scope_wanted(last.1, filter) == is_asked_for(last.1, filter));
        if let Some(p) = skills::skill_dir_in(fs, last.0, name) {
            lists::lemma_push_contains(before, (agent, p), x);
        }
        if is_among_places(fs, t, name, filter, x.1) {
            let j = choose|j: int|
                0 <= j < t.len() && is_asked_for((#[trigger] t[j]).1, filter)
                    && skills::skill_dir_in(fs, t[j].0, name) == Some(x.1);
            assert(places[j] == t[j]);
        }
        if all.contains(x) && !before.contains(x) {
            assert(places[places.len() - 1] == last);
        }
        if is_among_places(fs, places, name, filter, x.1) {
            let j = choose|j: int|
                0 <= j < places.len() && is_asked_for((#[trigger] places[j]).1, filter)
                    && skills::skill_dir_in(fs, places[j].0, name) == Some(x.1);
            if j < t.len() {
                assert(t[j] == places[j]);
            }
        }
    } else {
        assert(!all.contains(x));
    }
}

/// Whether an agent that is installed loads a skill with a name from a directory of a
/// scope that is asked for, and the skill lies there in `p`.
pub open spec fn has_skill_in(
    fs: FileTreeView,
    a: AgentView,
    projects: Seq<(Seq<char>, Seq<char>)>,
    filter: Option<ConfigScopeView>,
    name: Seq<char>,
    dir: Seq<char>,
    scope: ConfigScopeView,
    p: Seq<char>,
) -> bool {
    &&& a.detected
    &&& loads_from(fs, a, projects, dir, scope)
    &&& is_asked_for(scope, filter)
    &&& skills::skill_dir_in(fs, dir, name) == Some(p)
}

/// The directories of a skill are listed for exactly the agents that are installed
/// and load it, from exactly the directories of the scopes that are asked for.
pub proof fn locations_are_listed_for_each_agent(
    fs: FileTreeView,
    name: Seq<char>,
    agents: Seq<AgentView>,
    projects: Seq<(Seq<char>, Seq<char>)>,
    filter: Option<ConfigScopeView>,
    x: (Seq<char>, Seq<char>),
)
    ensures
        skills::locations_of(fs, name, agents, projects, filter).contains(x) <==> exists|
            k: int,
            dir: Seq<char>,
            scope: ConfigScopeView,
        |
            0 <= k < agents.len() && agents[k].name == x.0 && #[trigger] has_skill_in(
                fs,
                agents[k],
                projects,
                filter,
                name,
                dir,
                scope,
                x.1,
            ),
    decreases agents.len(),
{
    let all = skills::locations_of(fs, name, agents, projects, filter);
    if agents.len() > 0 {
        let t = agents.drop_last();
        let a = agents.last();
        let before = skills::locations_of(fs, name, t, projects, filter);
        let places = skills::skill_places(fs, a, projects);
        let here = skills::locations_in(fs, places, name, a.name, filter);
        locations_are_listed_for_each_agent(fs, name, t, projects, filter, x);
        lemma_locations_in(fs, places, name, a.name, filter, x);
        lists::lemma_sum_contains(before, here, x);
        if before.contains(x) {
            let (k, dir, scope) = choose|k: int, dir: Seq<char>, scope: ConfigScopeView|
                0 <= k < t.len() && t[k].name == x.0 && #[trigger] has_skill_in(
                    fs,
                    t[k],
                    projects,
                    filter,
                    name,
                    dir,
                    scope,
                    x.1,
                );
            assert(has_skill_in(fs, agents[k], projects, filter, name, dir, scope, x.1));
        }
        if here.contains(x) && a.detected {
            let j = choose|j: int|
                0 <= j < places.len() && is_asked_for((#[trigger] places[j]).1, filter)
                    && skills::skill_dir_in(fs, places[j].0, name) == Some(x.1);
            assert(places.contains(places[j]));
            assert((places[j].0, places[j].1) == places[j]);
            skills_are_looked_for_where_they_are_loaded(
                fs,
                a,
                projects,
                places[j].0,
                places[j].1,
            );
            assert(has_skill_in(
                fs,
                agents[agents.len() - 1],
                projects,
                filter,
                name,
                places[j].0,
                places[j].1,
                x.1,
            ));
        }
        if exists|k: int, dir: Seq<char>, scope: ConfigScopeView|
            0 <= k < agents.len() && agents[k].name == x.0 && #[trigger] has_skill_in(
                fs,
                agents[k],
                projects,
                filter,
                name,
                dir,
                scope,
                x.1,
            ) {
            let (k, dir, scope) = choose|k: int, dir: Seq<char>, scope: ConfigScopeView|
                0 <= k < agents.len() && agents[k].name == x.0 && #[trigger] has_skill_in(
                    fs,
                    agents[k],
                    projects,
                    filter,
                    name,
                    dir,
                    scope,
                    x.1,
                );
            if k < t.len() {
                assert(has_skill_in(fs, t[k], projects, filter, name, dir, scope, x.1));
            } else {
                skills_are_looked_for_where_they_are_loaded(fs, a, projects, dir, scope);
                let j = choose|j: int| 0 <= j < places.len() && places[j] == (dir, scope);
                assert(places[j].1 == scope);
                assert(is_among_places(fs, places, name, filter, x.1));
            }
        }
    } else {
        assert(!all.contains(x));
    }
}

/// What is given as the text of a skill is what its file holds, with the path of that
/// file; nothing, and no path, where it is not found.
pub proof fn skill_text_is_that_of_its_file(
    fs: FileTreeView,
    agents: Seq<AgentView>,
    id: Seq<char>,
    names: Seq<Seq<char>>,
)
    ensures
        ({
            let none = Seq::<(Seq<char>, Seq<char>)>::empty();
            let r = skills::content_of(fs, agents, id, names);
            match skills::location_of(fs, agents, id, names, none) {
                None => r.0.len() == 0 && r.1 is None,
                Some(l) => r.1 == Some(l.skill_file) && (match fs.at(l.skill_file).content {
                    Some(c) => r.0 == c,
                    None => r.0.len() == 0,
                }),
            }
        }),
{
}

} // verus!
