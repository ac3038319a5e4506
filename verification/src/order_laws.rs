//! In which order things are looked for and listed.

use vstd::prelude::*;

use crate::agents::AgentView;
use crate::files::FileTreeView;
use crate::inventory;
use crate::models::{ConfigScopeView, ExtensionKind, ExtensionView, Timestamp};
use crate::path;
use crate::scanner;
use crate::skills;
use crate::store;
use crate::store::laws;
use crate::store::RowView;
use crate::text;

verus! {

/// The first of two results that is there.
pub open spec fn first_found<A>(a: Option<A>, b: Option<A>) -> Option<A> {
    if a is Some {
        a
    } else {
        b
    }
}

/// A skill is looked for with one agent after the other; the first that has it counts.
pub proof fn agents_are_searched_in_order(
    fs: FileTreeView,
    a: Seq<AgentView>,
    b: Seq<AgentView>,
    id: Seq<char>,
    names: Seq<Seq<char>>,
    projects: Seq<(Seq<char>, Seq<char>)>,
)
    ensures
        skills::location_of(fs, a + b, id, names, projects) == first_found(
            skills::location_of(fs, a, id, names, projects),
            skills::location_of(fs, b, id, names, projects),
        ),
    decreases a.len(),
{
    if a.len() > 0 {
        assert((a + b).drop_first() =~= a.drop_first() + b);
        agents_are_searched_in_order(fs, a.drop_first(), b, id, names, projects);
    } else {
        assert(a + b =~= b);
    }
}

/// A skill is looked for in one directory after the other, and in each in one entry
/// after the other; the first that is it counts.
pub proof fn directories_are_searched_in_order(
    fs: FileTreeView,
    a: Seq<(Seq<char>, ConfigScopeView)>,
    b: Seq<(Seq<char>, ConfigScopeView)>,
    agent: Seq<char>,
    id: Seq<char>,
)
    ensures
        skills::location_in_places(fs, a + b, agent, id) == first_found(
            skills::location_in_places(fs, a, agent, id),
            skills::location_in_places(fs, b, agent, id),
        ),
    decreases a.len(),
{
    if a.len() > 0 {
        assert((a + b).drop_first() =~= a.drop_first() + b);
        directories_are_searched_in_order(fs, a.drop_first(), b, agent, id);
    } else {
        assert(a + b =~= b);
    }
}

/// The entries of a directory are tried in their order.
pub proof fn entries_are_searched_in_order(
    fs: FileTreeView,
    a: Seq<Seq<char>>,
    b: Seq<Seq<char>>,
    place: (Seq<char>, ConfigScopeView),
    agent: Seq<char>,
    id: Seq<char>,
)
    ensures
        skills::location_among(fs, a + b, place, agent, id) == first_found(
            skills::location_among(fs, a, place, agent, id),
            skills::location_among(fs, b, place, agent, id),
        ),
    decreases a.len(),
{
    if a.len() > 0 {
        assert((a + b).drop_first() =~= a.drop_first() + b);
        entries_are_searched_in_order(fs, a.drop_first(), b, place, agent, id);
    } else {
        assert(a + b =~= b);
    }
}

/// The global directories of an agent come first, in their order; behind them those of
/// one project after the other, of each in the order that the agent has for them, if the
/// project is there.
pub proof fn global_directories_come_first(
    fs: FileTreeView,
    a: AgentView,
    projects: Seq<(Seq<char>, Seq<char>)>,
    p: (Seq<char>, Seq<char>),
    i: int,
)
    ensures
        ({
            let before = skills::skill_places(fs, a, projects);
            let all = skills::skill_places(fs, a, projects.push(p));
            let own = a.project_skill_dirs;
            let n = before.len();
            &&& 0 <= i < a.skill_dirs.len() ==> i < n && before[i] == (
                a.skill_dirs[i],
                ConfigScopeView::Global,
            )
            &&& skills::skill_places(fs, a, Seq::<(Seq<char>, Seq<char>)>::empty()).len()
                == a.skill_dirs.len()
            &&& all.take(n as int) == before
            &&& !fs.at(p.1).is_dir ==> all.len() == n
            &&& fs.at(p.1).is_dir ==> all.len() == n + own.len() && (0 <= i < own.len() ==> all[n + i]
                == (
                path::extended(p.1, own[i]),
                ConfigScopeView::Project { name: p.0, path: p.1 },
            ))
        }),
{
    let before = skills::skill_places(fs, a, projects);
    let all = skills::skill_places(fs, a, projects.push(p));
    assert(projects.push(p).drop_last() =~= projects);
    assert(all.take(before.len() as int) =~= before);
}

/// The directories of a skill are listed agent by agent.
pub proof fn locations_are_listed_agent_by_agent(
    fs: FileTreeView,
    name: Seq<char>,
    a: Seq<AgentView>,
    b: Seq<AgentView>,
    projects: Seq<(Seq<char>, Seq<char>)>,
    filter: Option<ConfigScopeView>,
)
    ensures
        skills::locations_of(fs, name, a + b, projects, filter) == skills::locations_of(
            fs,
            name,
            a,
            projects,
            filter,
        ) + skills::locations_of(fs, name, b, projects, filter),
    decreases b.len(),
{
    let x = skills::locations_of(fs, name, a, projects, filter);
    if b.len() > 0 {
        let t = b.drop_last();
        assert((a + b).drop_last() =~= a + t);
        locations_are_listed_agent_by_agent(fs, name, a, t, projects, filter);
        let y = skills::locations_of(fs, name, t, projects, filter);
        let z = skills::locations_in(
            fs,
            skills::skill_places(fs, b.last(), projects),
            name,
            b.last().name,
            filter,
        );
        assert((x + y) + z =~= x + (y + z));
    } else {
        assert(a + b =~= a);
        assert(x + skills::locations_of(fs, name, b, projects, filter) =~= x);
    }
}

/// A skill that is looked for by its name lies in the directory of that name, without
/// quotes around it, if that holds a skill; only else in the first entry whose text
/// gives that name.
pub proof fn directory_of_the_name_comes_first(
    fs: FileTreeView,
    dir: Seq<char>,
    name: Seq<char>,
    a: Seq<Seq<char>>,
    b: Seq<Seq<char>>,
)
    ensures
        ({
            let clean = text::trimmed_of(name, text::Class::Only('"'));
            let direct = path::extended(dir, clean);
            let there = fs.at(path::extended(direct, "SKILL.md"@)).exists || fs.at(
                path::extended(direct, "SKILL.md.disabled"@),
            ).exists;
            &&& there ==> skills::skill_dir_in(fs, dir, name) == Some(direct)
            &&& !there && fs.at(dir).children is None ==> skills::skill_dir_in(fs, dir, name) is None
            &&& !there && fs.at(dir).children == Some(a) ==> skills::skill_dir_in(fs, dir, name)
                == skills::first_named(fs, a, name, clean)
            &&& skills::first_named(fs, a + b, name, clean) == first_found(
                skills::first_named(fs, a, name, clean),
                skills::first_named(fs, b, name, clean),
            )
        }),
    decreases a.len(),
{
    if a.len() > 0 {
        assert((a + b).drop_first() =~= a.drop_first() + b);
        directory_of_the_name_comes_first(fs, dir, name, a.drop_first(), b);
    } else {
        assert(a + b =~= b);
    }
}

/// A listing holds exactly the extensions of the kind and of the agent that are asked
/// for; all where none is asked for.
pub proof fn listing_goes_by_kind_and_agent(
    rows: Seq<RowView>,
    kind: ExtensionKind,
    agent: Seq<char>,
    x: ExtensionView,
)
    ensures
        ({
            let there = exists|i: int| 0 <= i < rows.len() && (#[trigger] rows[i]).ext == x;
            let by_agent = exists|k: int| 0 <= k < x.agents.len() && x.agents[k] == agent;
            &&& store::listed(rows, None, None).contains(x) <==> there
            &&& store::listed(rows, Some(kind), None).contains(x) <==> there && x.kind == kind
            &&& store::listed(rows, None, Some(agent)).contains(x) <==> there && by_agent
            &&& store::listed(rows, Some(kind), Some(agent)).contains(x) <==> there && x.kind
                == kind && by_agent
        }),
{
    laws::listing_holds_what_is_asked_for(rows, None, None, x);
    laws::listing_holds_what_is_asked_for(rows, Some(kind), None, x);
    laws::listing_holds_what_is_asked_for(rows, None, Some(agent), x);
    laws::listing_holds_what_is_asked_for(rows, Some(kind), Some(agent), x);
}

proof fn lemma_inserted_len(s: Seq<ExtensionView>, x: ExtensionView)
    ensures
        store::inserted_by_name(s, x).len() == s.len() + 1,
    decreases s.len(),
{
    if s.len() > 0 {
        lemma_inserted_len(s.drop_last(), x);
    }
}

/// A listing of everything holds as many extensions as the table.
pub proof fn listing_of_everything_is_complete(rows: Seq<RowView>)
    ensures
        store::listed(rows, None, None).len() == rows.len(),
    decreases rows.len(),
{
    if rows.len() > 0 {
        listing_of_everything_is_complete(rows.drop_last());
        lemma_inserted_len(store::listed(rows.drop_last(), None, None), rows.last().ext);
    }
}

proof fn lemma_sums<A>(x: Seq<A>, y: Seq<A>, z: Seq<A>, w: Seq<A>)
    ensures
        (x + y) + z == x + (y + z),
        (x + y) + z + w == x + (y + z + w),
        Seq::<A>::empty() + z + w == z + w,
        x + Seq::<A>::empty() == x,
{
    assert((x + y) + z =~= x + (y + z));
    assert((x + y) + z + w =~= x + (y + z + w));
    assert(Seq::<A>::empty() + z + w =~= z + w);
    assert(x + Seq::<A>::empty() =~= x);
}

/// What an agent has in projects is listed project by project.
pub proof fn projects_are_scanned_in_order(
    fs: FileTreeView,
    agent: AgentView,
    p: Seq<(Seq<char>, Seq<char>)>,
    q: Seq<(Seq<char>, Seq<char>)>,
    now: Timestamp,
)
    ensures
        inventory::in_projects(fs, agent, p + q, now) == inventory::in_projects(fs, agent, p, now)
            + inventory::in_projects(fs, agent, q, now),
    decreases q.len(),
{
    let x = inventory::in_projects(fs, agent, p, now);
    let none = Seq::<ExtensionView>::empty();
    if q.len() > 0 {
        let t = q.drop_last();
        assert((p + q).drop_last() =~= p + t);
        projects_are_scanned_in_order(fs, agent, p, t, now);
        let y = inventory::in_projects(fs, agent, t, now);
        let z = scanner::project_exts(fs, agent, q.last().0, q.last().1, now);
        lemma_sums(x, y, z, none);
    } else {
        assert(p + q =~= p);
        lemma_sums(x, none, none, none);
    }
}

/// A scan of everything goes agent by agent.
pub proof fn scan_goes_agent_by_agent(
    fs: FileTreeView,
    a: Seq<AgentView>,
    b: Seq<AgentView>,
    p: Seq<(Seq<char>, Seq<char>)>,
    now: Timestamp,
)
    ensures
        inventory::of_agents(fs, a + b, p, now) == inventory::of_agents(fs, a, p, now)
            + inventory::of_agents(fs, b, p, now),
    decreases b.len(),
{
    let x = inventory::of_agents(fs, a, p, now);
    let none = Seq::<ExtensionView>::empty();
    if b.len() > 0 {
        let t = b.drop_last();
        let c = b.last();
        assert((a + b).drop_last() =~= a + t);
        assert((a + b).last() == c);
        scan_goes_agent_by_agent(fs, a, t, p, now);
        let y = inventory::of_agents(fs, t, p, now);
        let z = scanner::agent_exts(fs, c, now);
        let w = inventory::in_projects(fs, c, p, now);
        lemma_sums(x, y, z, w);
    } else {
        assert(a + b =~= a);
        lemma_sums(x, none, none, none);
    }
}

/// Of an agent that is installed, and of no other, a scan of everything sees first what
/// it has globally, then what it has in projects.
pub proof fn installed_agent_is_scanned_globally_first(
    fs: FileTreeView,
    agent: AgentView,
    p: Seq<(Seq<char>, Seq<char>)>,
    now: Timestamp,
)
    ensures
        agent.detected ==> inventory::of_agents(fs, seq![agent], p, now) == scanner::agent_exts(
            fs,
            agent,
            now,
        ) + inventory::in_projects(fs, agent, p, now),
        !agent.detected ==> inventory::of_agents(fs, seq![agent], p, now).len() == 0,
{
    let one = seq![agent];
    let none = Seq::<ExtensionView>::empty();
    assert(one.drop_last() =~= Seq::<AgentView>::empty());
    assert(inventory::of_agents(fs, one.drop_last(), p, now) == none);
    lemma_sums(
        none,
        none,
        scanner::agent_exts(fs, agent, now),
        inventory::in_projects(fs, agent, p, now),
    );
}

} // verus!
