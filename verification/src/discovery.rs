//! Finding projects below a directory.

use vstd::prelude::*;

use crate::agents::{Agent, AgentView, ProjectMarker, ProjectMarkerView};
use crate::files::{FileTree, FileTreeView};
use crate::models;
use crate::models::{DiscoveredProject, DiscoveredProjectView};
use crate::path;
use crate::text;

verus! {

/// Whether a marker is present in a directory.
pub open spec fn is_marked(fs: FileTreeView, dir: Seq<char>, m: ProjectMarkerView) -> bool {
    match m {
        ProjectMarkerView::Dir(p) => fs.at(path::extended(dir, p)).is_dir,
        ProjectMarkerView::File(p) => fs.at(path::extended(dir, p)).is_file,
    }
}

/// Whether a directory is a project for an agent.
pub open spec fn is_project_of(fs: FileTreeView, agent: AgentView, dir: Seq<char>) -> bool {
    exists|i: int|
        0 <= i < agent.project_markers.len() && is_marked(
            fs,
            dir,
            #[trigger] agent.project_markers[i],
        )
}

/// Whether a directory is a project for any agent.
pub open spec fn is_project(fs: FileTreeView, agents: Seq<AgentView>, dir: Seq<char>) -> bool {
    exists|k: int| 0 <= k < agents.len() && is_project_of(fs, #[trigger] agents[k], dir)
}

fn is_project_for(fs: &FileTree, agent: &Agent, dir: &str) -> (r: bool)
    ensures
        r == is_project_of(fs@, agent@, dir@),
{
    let ghost v = agent@.project_markers;
    let mut i: usize = 0;
    while i < agent.project_markers.len()
        invariant
            v == models::list_view(agent.project_markers@),
            v == agent@.project_markers,
            i <= agent.project_markers.len(),
            forall|j: int| 0 <= j < i ==> !is_marked(fs@, dir@, #[trigger] v[j]),
        decreases agent.project_markers.len() - i,
    {
        assert(v[i as int] == agent.project_markers@[i as int]@);
        let marked = match &agent.project_markers[i] {
            ProjectMarker::Dir(p) => fs.is_dir(&path::join(dir, p)),
            ProjectMarker::File(p) => fs.is_file(&path::join(dir, p)),
        };
        if marked {
            assert(is_marked(fs@, dir@, v[i as int]));
            return true;
        }
        i += 1;
    }
    false
}

/// Whether a directory is a project: one of the agents has a marker there.
pub fn is_project_dir(fs: &FileTree, agents: &Vec<Agent>, dir: &str) -> (r: bool)
    ensures
        r == is_project(fs@, models::list_view(agents@), dir@),
{
    let ghost v = models::list_view(agents@);
    let mut i: usize = 0;
    while i < agents.len()
        invariant
            v == models::list_view(agents@),
            i <= agents.len(),
            forall|j: int| 0 <= j < i ==> !is_project_of(fs@, #[trigger] v[j], dir@),
        decreases agents.len() - i,
    {
        assert(v[i as int] == agents@[i as int]@);
        if is_project_for(fs, &agents[i], dir) {
            assert(is_project_of(fs@, v[i as int], dir@));
            return true;
        }
        i += 1;
    }
    false
}

/// The names of directories that are not searched, besides hidden ones.
pub open spec fn skipped_names() -> Seq<Seq<char>> {
    seq!["node_modules"@, "target"@, "__pycache__"@, "vendor"@, "dist"@, "build"@, "venv"@]
}

/// Whether a directory is not searched.
pub open spec fn is_skipped(p: Seq<char>) -> bool {
    let name = path::base_name(p);
    (name.len() > 0 && name[0] == '.') || skipped_names().contains(name)
}

fn skip_dir(p: &str) -> (r: bool)
    ensures
        r == is_skipped(p@),
{
    let name = path::file_name_or_empty(p);
    if text::starts_with_char(&name, '.') {
        return true;
    }
    let mut v: Vec<String> = Vec::new();
    v.push("node_modules".to_owned());
    v.push("target".to_owned());
    v.push("__pycache__".to_owned());
    v.push("vendor".to_owned());
    v.push("dist".to_owned());
    v.push("build".to_owned());
    v.push("venv".to_owned());
    assert(text::strs(v@) =~= skipped_names());
    text::list_has(&v, &name)
}

/// Whether the search goes on into an entry of a directory.
pub open spec fn is_searched(fs: FileTreeView, p: Seq<char>) -> bool {
    fs.at(p).is_dir && !is_skipped(p)
}

/// The project in `dir`.
pub open spec fn project_at(dir: Seq<char>) -> DiscoveredProjectView {
    DiscoveredProjectView { name: path::base_name(dir), path: dir }
}

/// The projects in `dir` and at most `depth` levels below it. A project is not
/// searched for further ones.
pub open spec fn projects_below(
    fs: FileTreeView,
    agents: Seq<AgentView>,
    dir: Seq<char>,
    depth: nat,
) -> Seq<DiscoveredProjectView>
    decreases depth, 0nat, 0nat,
{
    if is_project(fs, agents, dir) {
        seq![project_at(dir)]
    } else if depth == 0 {
        Seq::<DiscoveredProjectView>::empty()
    } else {
        match fs.at(dir).children {
            None => Seq::<DiscoveredProjectView>::empty(),
            Some(entries) => projects_in(fs, agents, entries, (depth - 1) as nat),
        }
    }
}

/// The projects in the directories among some entries, and at most `depth` levels
/// below those.
pub open spec fn projects_in(
    fs: FileTreeView,
    agents: Seq<AgentView>,
    entries: Seq<Seq<char>>,
    depth: nat,
) -> Seq<DiscoveredProjectView>
    decreases depth, 1nat, entries.len(),
{
    if entries.len() == 0 {
        Seq::<DiscoveredProjectView>::empty()
    } else {
        let before = projects_in(fs, agents, entries.drop_last(), depth);
        if is_searched(fs, entries.last()) {
            before + projects_below(fs, agents, entries.last(), depth)
        } else {
            before
        }
    }
}

/// The projects in `root` and at most `max_depth` levels below it.
pub fn discover_projects(fs: &FileTree, agents: &Vec<Agent>, root: &str, max_depth: usize) -> (r:
    Vec<DiscoveredProject>)
    ensures
        models::list_view(r@) == projects_below(
            fs@,
            models::list_view(agents@),
            root@,
            max_depth as nat,
        ),
    decreases max_depth,
{
    let mut out: Vec<DiscoveredProject> = Vec::new();
    let ghost av = models::list_view(agents@);
    assert(models::list_view(out@) =~= Seq::<DiscoveredProjectView>::empty());
    if is_project_dir(fs, agents, root) {
        out.push(
            DiscoveredProject { name: path::file_name_or_empty(root), path: root.to_owned() },
        );
        assert(models::list_view(out@) =~= seq![project_at(root@)]);
        return out;
    }
    if max_depth == 0 {
        return out;
    }
    let entries = match fs.list(root) {
        None => {
            return out;
        },
        Some(e) => e,
    };
    let ghost all = text::strs(entries@);
    let mut i: usize = 0;
    assert(all.take(0) =~= Seq::<Seq<char>>::empty());
    while i < entries.len()
        invariant
            max_depth > 0,
            all == text::strs(entries@),
            av == models::list_view(agents@),
            i <= entries.len(),
            models::list_view(out@) == projects_in(
                fs@,
                av,
                all.take(i as int),
                (max_depth - 1) as nat,
            ),
        decreases entries.len() - i,
    {
        assert(all.take(i + 1).drop_last() =~= all.take(i as int));
        assert(all.take(i + 1).last() == entries@[i as int]@);
        if fs.is_dir(&entries[i]) && !skip_dir(&entries[i]) {
            let mut more = discover_projects(fs, agents, &entries[i], max_depth - 1);
            let ghost before = models::list_view(out@);
            let ghost m = models::list_view(more@);
            out.append(&mut more);
            assert(models::list_view(out@) =~= before + m);
        }
        i += 1;
    }
    assert(all.take(i as int) =~= all);
    out
}

// ---------------------------------------------------------------------------
// Laws
// ---------------------------------------------------------------------------

/// Whether the search goes on from a directory to one of its entries.
pub open spec fn goes_on(
    fs: FileTreeView,
    agents: Seq<AgentView>,
    dir: Seq<char>,
    c: Seq<char>,
) -> bool {
    !is_project(fs, agents, dir) && fs.at(dir).children is Some && fs.at(
        dir,
    ).children->0.contains(c) && is_searched(fs, c)
}

/// Whether the search that starts in `dir` gets to `p` in `steps` steps, each
/// from a directory that is no project to an entry that is searched.
pub open spec fn reaches(
    fs: FileTreeView,
    agents: Seq<AgentView>,
    dir: Seq<char>,
    p: Seq<char>,
    steps: nat,
) -> bool
    decreases steps,
{
    if steps == 0 {
        dir == p
    } else {
        exists|c: Seq<char>| #[trigger]
            goes_on(fs, agents, dir, c) && reaches(fs, agents, c, p, (steps - 1) as nat)
    }
}

/// The search finds exactly the projects that it gets to within the depth: no
/// directory that is no project, none inside of another project, none below a
/// directory that is skipped, none that lies deeper, and none of the others is
/// missing.
pub proof fn search_finds_exactly_the_reachable_projects(
    fs: FileTreeView,
    agents: Seq<AgentView>,
    dir: Seq<char>,
    depth: nat,
    p: Seq<char>,
)
    ensures
        projects_below(fs, agents, dir, depth).contains(project_at(p)) <==> is_project(
            fs,
            agents,
            p,
        ) && exists|n: nat| n <= depth && #[trigger] reaches(fs, agents, dir, p, n),
    decreases depth,
{
    let found = projects_below(fs, agents, dir, depth);
    if is_project(fs, agents, dir) {
        if found.contains(project_at(p)) {
            assert(found[0].path == dir);
            assert(reaches(fs, agents, dir, p, 0));
        }
        if is_project(fs, agents, p) && exists|n: nat|
            n <= depth && #[trigger] reaches(fs, agents, dir, p, n) {
            let n = choose|n: nat| n <= depth && #[trigger] reaches(fs, agents, dir, p, n);
            assert(n == 0);
            assert(found[0] == project_at(p));
        }
    } else {
        if is_project(fs, agents, p) && exists|n: nat|
            n <= depth && #[trigger] reaches(fs, agents, dir, p, n) {
            let n = choose|n: nat| n <= depth && #[trigger] reaches(fs, agents, dir, p, n);
            assert(n > 0);
            let c = choose|c: Seq<char>| #[trigger]
                goes_on(fs, agents, dir, c) && reaches(fs, agents, c, p, (n - 1) as nat);
            search_finds_exactly_the_reachable_projects(fs, agents, c, (depth - 1) as nat, p);
            assert(projects_below(fs, agents, c, (depth - 1) as nat).contains(project_at(p)));
            lemma_in_contains(fs, agents, fs.at(dir).children->0, (depth - 1) as nat, c, p);
        }
        if found.contains(project_at(p)) {
            assert(depth > 0 && fs.at(dir).children is Some);
            let entries = fs.at(dir).children->0;
            lemma_in_comes_from(fs, agents, entries, (depth - 1) as nat, p);
            let c = choose|c: Seq<char>|
                entries.contains(c) && is_searched(fs, c) && #[trigger] projects_below(
                    fs,
                    agents,
                    c,
                    (depth - 1) as nat,
                ).contains(project_at(p));
            search_finds_exactly_the_reachable_projects(fs, agents, c, (depth - 1) as nat, p);
            let n = choose|n: nat| n <= depth - 1 && #[trigger] reaches(fs, agents, c, p, n);
            assert(goes_on(fs, agents, dir, c));
            assert(reaches(fs, agents, dir, p, n + 1));
        }
    }
}

proof fn lemma_in_contains(
    fs: FileTreeView,
    agents: Seq<AgentView>,
    entries: Seq<Seq<char>>,
    depth: nat,
    c: Seq<char>,
    p: Seq<char>,
)
    requires
        entries.contains(c),
        is_searched(fs, c),
        projects_below(fs, agents, c, depth).contains(project_at(p)),
    ensures
        projects_in(fs, agents, entries, depth).contains(project_at(p)),
    decreases entries.len(),
{
    let all = projects_in(fs, agents, entries, depth);
    let before = projects_in(fs, agents, entries.drop_last(), depth);
    if entries.last() == c {
        let below = projects_below(fs, agents, c, depth);
        let k = choose|k: int| 0 <= k < below.len() && below[k] == project_at(p);
        assert(all[before.len() + k] == project_at(p));
    } else {
        let i = choose|i: int| 0 <= i < entries.len() && entries[i] == c;
        assert(entries.drop_last()[i] == c);
        assert(entries.drop_last().contains(c));
        lemma_in_contains(fs, agents, entries.drop_last(), depth, c, p);
        let k = choose|k: int| 0 <= k < before.len() && before[k] == project_at(p);
        assert(all[k] == project_at(p));
    }
}

proof fn lemma_in_comes_from(
    fs: FileTreeView,
    agents: Seq<AgentView>,
    entries: Seq<Seq<char>>,
    depth: nat,
    p: Seq<char>,
)
    requires
        projects_in(fs, agents, entries, depth).contains(project_at(p)),
    ensures
        exists|c: Seq<char>|
            entries.contains(c) && is_searched(fs, c) && #[trigger] projects_below(
                fs,
                agents,
                c,
                depth,
            ).contains(project_at(p)),
    decreases entries.len(),
{
    let all = projects_in(fs, agents, entries, depth);
    let before = projects_in(fs, agents, entries.drop_last(), depth);
    let k = choose|k: int| 0 <= k < all.len() && all[k] == project_at(p);
    if k < before.len() {
        assert(before[k] == project_at(p));
        lemma_in_comes_from(fs, agents, entries.drop_last(), depth, p);
        let c = choose|c: Seq<char>|
            entries.drop_last().contains(c) && is_searched(fs, c) && #[trigger] projects_below(
                fs,
                agents,
                c,
                depth,
            ).contains(project_at(p));
        let i = choose|i: int| 0 <= i < entries.len() - 1 && entries.drop_last()[i] == c;
        assert(entries[i] == c);
        assert(entries.contains(c));
    } else {
        let below = projects_below(fs, agents, entries.last(), depth);
        assert(is_searched(fs, entries.last()));
        assert(below[k - before.len()] == project_at(p));
        assert(below.contains(project_at(p)));
        assert(entries[entries.len() - 1] == entries.last());
        assert(entries.contains(entries.last()));
    }
}

/// A directory as the start of the paths of what lies in it.
pub open spec fn as_start(dir: Seq<char>) -> Seq<char> {
    if dir.len() > 0 && dir.last() != '/' {
        dir.push('/')
    } else {
        dir
    }
}

/// Whether `c` is the path of an entry of `dir`: the path of `dir`, and a name.
pub open spec fn is_entry_path(dir: Seq<char>, c: Seq<char>) -> bool {
    exists|name: Seq<char>|
        name.len() > 0 && !name.contains('/') && c == #[trigger] path::extended(dir, name)
}

/// Whether the listings of directories are as file systems give them: each entry once,
/// under the path of its directory. Whether an entry is a link does not matter.
pub open spec fn lists_entries(fs: FileTreeView) -> bool {
    forall|dir: Seq<char>|
        (#[trigger] fs.at(dir)).children matches Some(entries) ==> entries.no_duplicates()
            && forall|i: int|
            0 <= i < entries.len() ==> is_entry_path(
                path::normal_form(dir),
                #[trigger] entries[i],
            ) && path::normal_form(entries[i]) == entries[i]
}

/// Whether no two projects have the same path.
pub open spec fn paths_distinct(found: Seq<DiscoveredProjectView>) -> bool {
    forall|i: int, j: int|
        0 <= i < j < found.len() ==> (#[trigger] found[i]).path != (#[trigger] found[j]).path
}

/// No project is found twice.
pub proof fn no_project_is_found_twice(
    fs: FileTreeView,
    agents: Seq<AgentView>,
    dir: Seq<char>,
    depth: nat,
)
    requires
        lists_entries(fs),
    ensures
        paths_distinct(projects_below(fs, agents, dir, depth)),
    decreases depth, 0nat, 0nat,
{
    if !is_project(fs, agents, dir) && depth > 0 && fs.at(dir).children is Some {
        let entries = fs.at(dir).children->0;
        lemma_distinct_in(fs, agents, path::normal_form(dir), entries, (depth - 1) as nat);
    }
}

proof fn lemma_distinct_in(
    fs: FileTreeView,
    agents: Seq<AgentView>,
    dir: Seq<char>,
    entries: Seq<Seq<char>>,
    depth: nat,
)
    requires
        lists_entries(fs),
        entries.no_duplicates(),
        forall|i: int|
            0 <= i < entries.len() ==> is_entry_path(dir, #[trigger] entries[i])
                && path::normal_form(entries[i]) == entries[i],
    ensures
        paths_distinct(projects_in(fs, agents, entries, depth)),
    decreases depth, 1nat, entries.len(),
{
    if entries.len() > 0 {
        let t = entries.drop_last();
        let c = entries[entries.len() - 1];
        assert forall|i: int| 0 <= i < t.len() implies is_entry_path(dir, #[trigger] t[i])
            && path::normal_form(t[i]) == t[i] by {
            assert(t[i] == entries[i]);
        }
        assert(t.no_duplicates()) by {
            assert forall|i: int, j: int| 0 <= i < t.len() && 0 <= j < t.len() && i != j implies
                t[i] != t[j] by {
                assert(entries[i] != entries[j]);
            }
        }
        lemma_distinct_in(fs, agents, dir, t, depth);
        let before = projects_in(fs, agents, t, depth);
        let below = projects_below(fs, agents, c, depth);
        let all = projects_in(fs, agents, entries, depth);
        if is_searched(fs, c) {
            no_project_is_found_twice(fs, agents, c, depth);
            assert forall|i: int, j: int| 0 <= i < j < all.len() implies (#[trigger] all[i]).path
                != (#[trigger] all[j]).path by {
                if i < before.len() && j >= before.len() {
                    let k = lemma_found_below(fs, agents, t, depth, i);
                    lemma_paths_below(fs, agents, t[k], depth);
                    lemma_paths_below(fs, agents, c, depth);
                    assert(entries[k] != c);
                    assert(is_entry_path(dir, entries[k]) && is_entry_path(dir, c));
                    assert(below[j - before.len()] == all[j]);
                    if all[i].path == all[j].path {
                        lemma_entries_apart(dir, t[k], c, all[i].path);
                    }
                } else if j < before.len() {
                    assert(all[i] == before[i] && all[j] == before[j]);
                } else {
                    assert(all[i] == below[i - before.len()]);
                    assert(all[j] == below[j - before.len()]);
                }
            }
        }
    }
}

/// Whether `p` is `dir` or has it as its start.
spec fn lies_below(p: Seq<char>, dir: Seq<char>) -> bool {
    p == dir || text::has_prefix(p, as_start(dir))
}

proof fn lemma_found_below(
    fs: FileTreeView,
    agents: Seq<AgentView>,
    entries: Seq<Seq<char>>,
    depth: nat,
    i: int,
) -> (k: int)
    requires
        0 <= i < projects_in(fs, agents, entries, depth).len(),
    ensures
        0 <= k < entries.len(),
        projects_below(fs, agents, entries[k], depth).contains(
            projects_in(fs, agents, entries, depth)[i],
        ),
    decreases entries.len(),
{
    let before = projects_in(fs, agents, entries.drop_last(), depth);
    if i < before.len() {
        lemma_found_below(fs, agents, entries.drop_last(), depth, i)
    } else {
        let below = projects_below(fs, agents, entries.last(), depth);
        assert(below[i - before.len()] == projects_in(fs, agents, entries, depth)[i]);
        entries.len() - 1
    }
}

proof fn lemma_paths_below(
    fs: FileTreeView,
    agents: Seq<AgentView>,
    dir: Seq<char>,
    depth: nat,
)
    requires
        lists_entries(fs),
        path::normal_form(dir) == dir,
    ensures
        forall|x: DiscoveredProjectView|
            projects_below(fs, agents, dir, depth).contains(x) ==> #[trigger] lies_below(
                x.path,
                dir,
            ),
    decreases depth,
{
    let found = projects_below(fs, agents, dir, depth);
    assert forall|x: DiscoveredProjectView| found.contains(x) implies #[trigger] lies_below(
        x.path,
        dir,
    ) by {
        let i = choose|i: int| 0 <= i < found.len() && found[i] == x;
        if !is_project(fs, agents, dir) {
            let entries = fs.at(dir).children->0;
            let k = lemma_found_below(fs, agents, entries, (depth - 1) as nat, i);
            lemma_paths_below(fs, agents, entries[k], (depth - 1) as nat);
            assert(lies_below(x.path, entries[k]));
            assert(is_entry_path(dir, entries[k]));
            lemma_entry_start(dir, entries[k]);
            let start = as_start(dir);
            let c = entries[k];
            if x.path != c {
                assert(x.path.take(c.len() as int) =~= x.path.take(as_start(c).len() as int).take(
                    c.len() as int,
                ));
                assert(x.path.take(c.len() as int) =~= c);
            } else {
                assert(x.path.take(c.len() as int) =~= c);
            }
            assert(x.path.take(start.len() as int) =~= x.path.take(c.len() as int).take(
                start.len() as int,
            ));
        }
    }
}

/// The path of an entry is that of its directory and a name.
proof fn lemma_entry_start(dir: Seq<char>, c: Seq<char>) -> (name: Seq<char>)
    requires
        is_entry_path(dir, c),
    ensures
        name.len() > 0,
        !name.contains('/'),
        c == as_start(dir) + name,
        as_start(c) == c.push('/'),
        text::has_prefix(c, as_start(dir)),
{
    let name = choose|name: Seq<char>|
        name.len() > 0 && !name.contains('/') && c == #[trigger] path::extended(dir, name);
    assert(name[0] != '/') by {
        assert(name.contains(name[0]));
    }
    assert(name[name.len() - 1] != '/') by {
        assert(name.contains(name[name.len() - 1]));
    }
    assert(c =~= as_start(dir) + name);
    assert(c.last() == name[name.len() - 1]);
    assert(c.take(as_start(dir).len() as int) =~= as_start(dir));
    name
}

/// Nothing lies below two entries of a directory.
proof fn lemma_entries_apart(dir: Seq<char>, a: Seq<char>, b: Seq<char>, p: Seq<char>)
    requires
        is_entry_path(dir, a),
        is_entry_path(dir, b),
        lies_below(p, a),
        lies_below(p, b),
    ensures
        a == b,
{
    let x = lemma_entry_start(dir, a);
    let y = lemma_entry_start(dir, b);
    let n = as_start(dir).len() as int;
    lemma_name_in_path(p, a);
    lemma_name_in_path(p, b);
    assert forall|i: int| n <= i < a.len() implies a[i] != '/' by {
        assert(x[i - n] == a[i]);
        assert(x.contains(x[i - n]));
    }
    assert forall|i: int| n <= i < b.len() implies b[i] != '/' by {
        assert(y[i - n] == b[i]);
        assert(y.contains(y[i - n]));
    }
    if a.len() < b.len() {
        assert(p[a.len() as int] == '/');
        assert(b[a.len() as int] == p[a.len() as int]);
    } else if b.len() < a.len() {
        assert(p[b.len() as int] == '/');
        assert(a[b.len() as int] == p[b.len() as int]);
    }
    assert(a =~= b);
}

/// A path below an entry begins with the path of the entry, and ends there or goes on
/// with a separator.
proof fn lemma_name_in_path(p: Seq<char>, c: Seq<char>)
    requires
        as_start(c) == c.push('/'),
        lies_below(p, c),
    ensures
        c.len() <= p.len(),
        forall|i: int| 0 <= i < c.len() ==> c[i] == p[i],
        c.len() < p.len() ==> p[c.len() as int] == '/',
{
    if p != c {
        let start = c.push('/');
        assert(p.take(start.len() as int) == start);
        assert forall|i: int| 0 <= i < c.len() implies c[i] == p[i] by {
            assert(p.take(start.len() as int)[i] == start[i]);
        }
        assert(p.take(start.len() as int)[c.len() as int] == start[c.len() as int]);
    }
}

} // verus!
