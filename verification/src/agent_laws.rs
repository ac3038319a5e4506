//! Where agents keep things, and what is found there.

use vstd::prelude::*;

use crate::agents;
use crate::agents::{AgentView, HookFileView, McpFileView, ProjectPathsView};
use crate::models::ConfigScopeView;
use crate::path;

verus! {

/// Whether a list of places of projects tells first of a project at its `i`.
pub open spec fn tells_first_of(projects: Seq<ProjectPathsView>, p: Seq<char>, i: int) -> bool {
    &&& 0 <= i < projects.len()
    &&& projects[i].project == p
    &&& forall|j: int| 0 <= j < i ==> (#[trigger] projects[j]).project != p
}

proof fn lemma_paths_of_project(projects: Seq<ProjectPathsView>, p: Seq<char>)
    ensures
        forall|i: int| #[trigger]
            tells_first_of(projects, p, i) ==> agents::paths_of_project(projects, p) == Some(
                projects[i].paths,
            ),
        (forall|i: int| 0 <= i < projects.len() ==> (#[trigger] projects[i]).project != p)
            ==> agents::paths_of_project(projects, p) is None,
    decreases projects.len(),
{
    if projects.len() > 0 {
        let t = projects.drop_first();
        lemma_paths_of_project(t, p);
        assert forall|i: int| #[trigger]
            tells_first_of(projects, p, i) implies agents::paths_of_project(projects, p) == Some(
            projects[i].paths,
        ) by {
            if i > 0 {
                assert(projects[0].project != p);
                assert(tells_first_of(t, p, i - 1)) by {
                    assert forall|j: int| 0 <= j < i - 1 implies (#[trigger] t[j]).project != p by {
                        assert(projects[j + 1].project != p);
                    }
                }
            }
        }
        if forall|i: int| 0 <= i < projects.len() ==> (#[trigger] projects[i]).project != p {
            assert(projects[0].project != p);
            assert forall|i: int| 0 <= i < t.len() implies (#[trigger] t[i]).project != p by {
                assert(projects[i + 1].project != p);
            }
        }
    }
}

/// An agent keeps each sort of things in the place that it has for the scope: for what
/// is global in its global places, for a project in those of the project at that path;
/// and in none where it has none for the project.
pub proof fn agents_keep_things_by_scope(a: AgentView, scope: ConfigScopeView, i: int, c: Seq<char>)
    ensures
        ({
            let there = scope is Global || tells_first_of(a.projects, scope->path, i);
            let none = !(scope is Global) && forall|j: int|
                0 <= j < a.projects.len() ==> (#[trigger] a.projects[j]).project != scope->path;
            let paths = if scope is Global {
                a.global
            } else {
                a.projects[i].paths
            };
            &&& there ==> a.mcp_config_in(scope) == paths.mcp_config && a.hook_configs_in(scope)
                == paths.hook_configs && a.hook_config_in(scope) == paths.hook_config
                && a.skill_dir_in(scope) == paths.skill_dir && a.subagent_dir_in(scope)
                == paths.subagent_dir && a.command_dir_in(scope) == paths.command_dir
                && a.category_dir_in(scope, c) == agents::value_of(paths.category_dirs, c)
            &&& none ==> a.mcp_config_in(scope) is None && a.hook_configs_in(scope).len() == 0
                && a.hook_config_in(scope) is None && a.skill_dir_in(scope) is None
                && a.subagent_dir_in(scope) is None && a.command_dir_in(scope) is None
                && a.category_dir_in(scope, c) is None
        }),
{
    if let ConfigScopeView::Project { path, .. } = scope {
        lemma_paths_of_project(a.projects, path);
    }
}

/// The servers and hooks of a file are those of the first record of that file,
/// however its path is written; there are none where the file was not read.
pub proof fn files_give_what_they_list(
    servers: Seq<McpFileView>,
    hooks: Seq<HookFileView>,
    p: Seq<char>,
    i: int,
)
    ensures
        0 <= i < servers.len() && path::same_path(servers[i].path, p) && (forall|j: int|
            0 <= j < i ==> !path::same_path((#[trigger] servers[j]).path, p))
            ==> agents::servers_at(servers, p) == servers[i].servers,
        (forall|j: int|
            0 <= j < servers.len() ==> !path::same_path((#[trigger] servers[j]).path, p))
            ==> agents::servers_at(servers, p).len() == 0,
        0 <= i < hooks.len() && path::same_path(hooks[i].path, p) && (forall|j: int|
            0 <= j < i ==> !path::same_path((#[trigger] hooks[j]).path, p)) ==> agents::hooks_at(
            hooks,
            p,
        ) == hooks[i].hooks,
        (forall|j: int| 0 <= j < hooks.len() ==> !path::same_path((#[trigger] hooks[j]).path, p))
            ==> agents::hooks_at(hooks, p).len() == 0,
{
    lemma_servers_at(servers, p, i);
    lemma_hooks_at(hooks, p, i);
}

proof fn lemma_servers_at(files: Seq<McpFileView>, p: Seq<char>, i: int)
    ensures
        0 <= i < files.len() && path::same_path(files[i].path, p) && (forall|j: int|
            0 <= j < i ==> !path::same_path((#[trigger] files[j]).path, p)) ==> agents::servers_at(
            files,
            p,
        ) == files[i].servers,
        (forall|j: int| 0 <= j < files.len() ==> !path::same_path((#[trigger] files[j]).path, p))
            ==> agents::servers_at(files, p).len() == 0,
    decreases files.len(),
{
    if files.len() > 0 {
        let t = files.drop_first();
        lemma_servers_at(t, p, i - 1);
        assert forall|j: int| 0 <= j < t.len() implies #[trigger] t[j] == files[j + 1] by {}
        if 0 < i < files.len() && path::same_path(files[i].path, p) && (forall|j: int|
            0 <= j < i ==> !path::same_path((#[trigger] files[j]).path, p)) {
            assert(!path::same_path(files[0].path, p));
            assert(t[i - 1] == files[i]);
        }
        if forall|j: int|
            0 <= j < files.len() ==> !path::same_path((#[trigger] files[j]).path, p) {
            assert(!path::same_path(files[0].path, p));
        }
    }
}

proof fn lemma_hooks_at(files: Seq<HookFileView>, p: Seq<char>, i: int)
    ensures
        0 <= i < files.len() && path::same_path(files[i].path, p) && (forall|j: int|
            0 <= j < i ==> !path::same_path((#[trigger] files[j]).path, p)) ==> agents::hooks_at(
            files,
            p,
        ) == files[i].hooks,
        (forall|j: int| 0 <= j < files.len() ==> !path::same_path((#[trigger] files[j]).path, p))
            ==> agents::hooks_at(files, p).len() == 0,
    decreases files.len(),
{
    if files.len() > 0 {
        let t = files.drop_first();
        lemma_hooks_at(t, p, i - 1);
        assert forall|j: int| 0 <= j < t.len() implies #[trigger] t[j] == files[j + 1] by {}
        if 0 < i < files.len() && path::same_path(files[i].path, p) && (forall|j: int|
            0 <= j < i ==> !path::same_path((#[trigger] files[j]).path, p)) {
            assert(!path::same_path(files[0].path, p));
            assert(t[i - 1] == files[i]);
        }
        if forall|j: int|
            0 <= j < files.len() ==> !path::same_path((#[trigger] files[j]).path, p) {
            assert(!path::same_path(files[0].path, p));
        }
    }
}

/// The value that stands first under a key is what a lookup gives; nothing where none
/// stands there.
pub proof fn lookup_gives_the_first_value(
    pairs: Seq<(Seq<char>, Seq<char>)>,
    key: Seq<char>,
    i: int,
)
    ensures
        0 <= i < pairs.len() && pairs[i].0 == key && (forall|j: int|
            0 <= j < i ==> (#[trigger] pairs[j]).0 != key) ==> agents::value_of(pairs, key) == Some(
            pairs[i].1,
        ),
        agents::value_of(pairs, key) is None <==> forall|j: int|
            0 <= j < pairs.len() ==> (#[trigger] pairs[j]).0 != key,
    decreases pairs.len(),
{
    if pairs.len() > 0 {
        let t = pairs.drop_first();
        lookup_gives_the_first_value(t, key, i - 1);
        assert forall|j: int| 0 <= j < t.len() implies #[trigger] t[j] == pairs[j + 1] by {}
        if 0 < i < pairs.len() && pairs[i].0 == key && (forall|j: int|
            0 <= j < i ==> (#[trigger] pairs[j]).0 != key) {
            assert(pairs[0].0 != key);
            assert(t[i - 1] == pairs[i]);
        }
        if forall|j: int| 0 <= j < pairs.len() ==> (#[trigger] pairs[j]).0 != key {
            assert(pairs[0].0 != key);
        }
        if agents::value_of(pairs, key) is None {
            assert forall|j: int| 0 <= j < pairs.len() implies (#[trigger] pairs[j]).0 != key by {
                if j > 0 {
                    assert(t[j - 1].0 != key);
                }
            }
        }
    }
}

} // verus!
