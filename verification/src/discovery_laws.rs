//! Which directories are projects, and which are searched for them.

use vstd::prelude::*;

use crate::agents::{AgentView, ProjectMarkerView};
use crate::discovery;
use crate::files::FileTreeView;
use crate::path;
use crate::path_laws;

verus! {

/// A directory is a project exactly if it holds a marker of an agent: a directory or a
/// file, whichever the marker is, under the path that the marker gives.
pub proof fn projects_hold_a_marker(fs: FileTreeView, agents: Seq<AgentView>, dir: Seq<char>)
    ensures
        discovery::is_project(fs, agents, dir) <==> exists|k: int, i: int|
            0 <= k < agents.len() && 0 <= i < agents[k].project_markers.len() && {
                let m = #[trigger] agents[k].project_markers[i];
                ||| m matches ProjectMarkerView::Dir(p) && fs.at(path::extended(dir, p)).is_dir
                ||| m matches ProjectMarkerView::File(p) && fs.at(path::extended(dir, p)).is_file
            },
{
    if discovery::is_project(fs, agents, dir) {
        let k = choose|k: int|
            0 <= k < agents.len() && discovery::is_project_of(fs, #[trigger] agents[k], dir);
        let i = choose|i: int|
            0 <= i < agents[k].project_markers.len() && discovery::is_marked(
                fs,
                dir,
                #[trigger] agents[k].project_markers[i],
            );
        assert(discovery::is_marked(fs, dir, agents[k].project_markers[i]));
    }
    if exists|k: int, i: int|
        0 <= k < agents.len() && 0 <= i < agents[k].project_markers.len() && discovery::is_marked(
            fs,
            dir,
            #[trigger] agents[k].project_markers[i],
        ) {
        let (k, i) = choose|k: int, i: int|
            0 <= k < agents.len() && 0 <= i < agents[k].project_markers.len()
                && discovery::is_marked(fs, dir, #[trigger] agents[k].project_markers[i]);
        assert(discovery::is_project_of(fs, agents[k], dir));
    }
}

/// The search goes on into every directory, except hidden ones and those that hold
/// what tools put there: packages, build results and environments.
pub proof fn hidden_and_built_directories_are_not_searched(
    fs: FileTreeView,
    dir: Seq<char>,
    n: Seq<char>,
)
    requires
        path_laws::is_name(n),
    ensures
        ({
            let p = path::extended(dir, n);
            discovery::is_searched(fs, p) <==> fs.at(p).is_dir && n[0] != '.' && n
                != "node_modules"@ && n != "target"@ && n != "__pycache__"@ && n != "vendor"@ && n
                != "dist"@ && n != "build"@ && n != "venv"@
        }),
{
    path_laws::paths_are_put_below_others(dir, n);
    let s = discovery::skipped_names();
    assert(s.contains(n) <==> n == "node_modules"@ || n == "target"@ || n == "__pycache__"@ || n
        == "vendor"@ || n == "dist"@ || n == "build"@ || n == "venv"@) by {
        assert(s[0] == "node_modules"@ && s[1] == "target"@ && s[2] == "__pycache__"@ && s[3]
            == "vendor"@ && s[4] == "dist"@ && s[5] == "build"@ && s[6] == "venv"@);
    }
}

/// A project that is found is one, and goes by the name of its directory.
pub proof fn found_projects_go_by_their_directories(
    fs: FileTreeView,
    agents: Seq<AgentView>,
    dir: Seq<char>,
    depth: nat,
    i: int,
)
    ensures
        ({
            let found = discovery::projects_below(fs, agents, dir, depth);
            0 <= i < found.len() ==> discovery::is_project(fs, agents, found[i].path) && (
            match path::file_name_of(found[i].path) {
                Some(n) => found[i].name == n,
                None => found[i].name.len() == 0,
            })
        }),
    decreases depth, 0nat, 0nat,
{
    if !discovery::is_project(fs, agents, dir) && depth > 0 {
        if let Some(entries) = fs.at(dir).children {
            lemma_found_in(fs, agents, entries, (depth - 1) as nat, i);
        }
    }
}

proof fn lemma_found_in(
    fs: FileTreeView,
    agents: Seq<AgentView>,
    entries: Seq<Seq<char>>,
    depth: nat,
    i: int,
)
    ensures
        ({
            let found = discovery::projects_in(fs, agents, entries, depth);
            0 <= i < found.len() ==> discovery::is_project(fs, agents, found[i].path) && (
            match path::file_name_of(found[i].path) {
                Some(n) => found[i].name == n,
                None => found[i].name.len() == 0,
            })
        }),
    decreases depth, 1nat, entries.len(),
{
    if entries.len() > 0 {
        let before = discovery::projects_in(fs, agents, entries.drop_last(), depth);
        lemma_found_in(fs, agents, entries.drop_last(), depth, i);
        found_projects_go_by_their_directories(
            fs,
            agents,
            entries.last(),
            depth,
            i - before.len(),
        );
    }
}

} // verus!
