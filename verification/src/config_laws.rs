//! Which configuration files are listed for an agent, and what is said of them.

use vstd::prelude::*;

use crate::agents::{AgentView, ExternalMemoryView};
use crate::configs;
use crate::files::FileTreeView;
use crate::lists;
use crate::managed;
use crate::models::{AgentConfigFileView, ConfigCategory, ConfigScopeView};
use crate::outside;
use crate::path;

verus! {

/// Whether an entry is that of the regular file at `p`.
pub open spec fn is_entry_of_config(
    fs: FileTreeView,
    p: Seq<char>,
    agent: Seq<char>,
    category: ConfigCategory,
    scope: ConfigScopeView,
    c: AgentConfigFileView,
) -> bool {
    let f = fs.at(p);
    &&& f.exists && f.is_file
    &&& c.path == p && c.agent == agent && c.category == category && c.scope == scope
    &&& Some(c.file_name) == path::file_name_of(p) && c.size_bytes == f.size
    &&& c.exists && !c.is_dir && c.custom_id is None && c.custom_label is None
    &&& match f.modified {
        None => c.modified_at is None,
        Some(t) => c.modified_at matches Some(u) && u.nanos == 0 && (if 0 <= t.secs
            <= outside::LAST_SECOND {
            u.secs == t.secs
        } else {
            u.secs == 0
        }),
    }
}

/// A regular file with a name is listed, and nothing else is: with its path, its name,
/// its size, and when it last changed, in whole seconds.
pub proof fn regular_files_are_listed(
    fs: FileTreeView,
    p: Seq<char>,
    agent: Seq<char>,
    category: ConfigCategory,
    scope: ConfigScopeView,
)
    ensures
        ({
            let r = configs::config_at(fs, p, agent, category, scope);
            &&& r is Some <==> fs.at(p).exists && fs.at(p).is_file && path::file_name_of(p) is Some
            &&& r matches Some(c) ==> is_entry_of_config(fs, p, agent, category, scope, c)
        }),
{
}

proof fn lemma_configs_at(
    fs: FileTreeView,
    paths: Seq<Seq<char>>,
    agent: Seq<char>,
    category: ConfigCategory,
    scope: ConfigScopeView,
    c: AgentConfigFileView,
)
    ensures
        configs::configs_at(fs, paths, agent, category, scope).contains(c) <==> exists|i: int|
            0 <= i < paths.len() && is_entry_of_config(
                fs,
                #[trigger] paths[i],
                agent,
                category,
                scope,
                c,
            ),
    decreases paths.len(),
{
    let all = configs::configs_at(fs, paths, agent, category, scope);
    if paths.len() > 0 {
        let t = paths.drop_last();
        let p = paths.last();
        let before = configs::configs_at(fs, t, agent, category, scope);
        lemma_configs_at(fs, t, agent, category, scope, c);
        regular_files_are_listed(fs, p, agent, category, scope);
        if let Some(x) = configs::config_at(fs, p, agent, category, scope) {
            lists::lemma_push_contains(before, x, c);
            if is_entry_of_config(fs, p, agent, category, scope, c) {
                assert(c =~= x);
            }
        }
        if before.contains(c) {
            let i = choose|i: int|
                0 <= i < t.len() && is_entry_of_config(
                    fs,
                    #[trigger] t[i],
                    agent,
                    category,
                    scope,
                    c,
                );
            assert(paths[i] == t[i]);
        }
        if all.contains(c) && !before.contains(c) {
            assert(is_entry_of_config(fs, paths[paths.len() - 1], agent, category, scope, c));
        }
        if exists|i: int|
            0 <= i < paths.len() && is_entry_of_config(
                fs,
                #[trigger] paths[i],
                agent,
                category,
                scope,
                c,
            ) {
            let i = choose|i: int|
                0 <= i < paths.len() && is_entry_of_config(
                    fs,
                    #[trigger] paths[i],
                    agent,
                    category,
                    scope,
                    c,
                );
            if i < t.len() {
                assert(t[i] == paths[i]);
            }
        }
    } else {
        assert(!all.contains(c));
    }
}

/// Whether an entry is that of one of some files.
pub open spec fn is_among_files(
    fs: FileTreeView,
    paths: Seq<Seq<char>>,
    agent: Seq<char>,
    category: ConfigCategory,
    scope: ConfigScopeView,
    c: AgentConfigFileView,
) -> bool {
    exists|i: int|
        0 <= i < paths.len() && is_entry_of_config(
            fs,
            #[trigger] paths[i],
            agent,
            category,
            scope,
            c,
        )
}

/// Whether an entry is that of a file for which one of some patterns of a project
/// stands.
pub open spec fn is_among_patterns(
    fs: FileTreeView,
    root: Seq<char>,
    patterns: Seq<Seq<char>>,
    agent: Seq<char>,
    category: ConfigCategory,
    scope: ConfigScopeView,
    c: AgentConfigFileView,
) -> bool {
    exists|i: int|
        0 <= i < patterns.len() && is_among_files(
            fs,
            managed::paths_of_pattern(fs, root, #[trigger] patterns[i]),
            agent,
            category,
            scope,
            c,
        )
}

proof fn lemma_pattern_configs(
    fs: FileTreeView,
    root: Seq<char>,
    patterns: Seq<Seq<char>>,
    agent: Seq<char>,
    category: ConfigCategory,
    scope: ConfigScopeView,
    c: AgentConfigFileView,
)
    ensures
        configs::pattern_configs(fs, root, patterns, agent, category, scope).contains(c)
            <==> is_among_patterns(fs, root, patterns, agent, category, scope, c),
    decreases patterns.len(),
{
    let all = configs::pattern_configs(fs, root, patterns, agent, category, scope);
    if patterns.len() > 0 {
        let t = patterns.drop_last();
        let last = patterns.last();
        let paths = managed::paths_of_pattern(fs, root, last);
        let before = configs::pattern_configs(fs, root, t, agent, category, scope);
        let here = configs::configs_at(fs, paths, agent, category, scope);
        lemma_pattern_configs(fs, root, t, agent, category, scope, c);
        lemma_configs_at(fs, paths, agent, category, scope, c);
        lists::lemma_sum_contains(before, here, c);
        if before.contains(c) {
            let i = choose|i: int|
                0 <= i < t.len() && is_among_files(
                    fs,
                    managed::paths_of_pattern(fs, root, #[trigger] t[i]),
                    agent,
                    category,
                    scope,
                    c,
                );
            assert(patterns[i] == t[i]);
        }
        if here.contains(c) {
            assert(is_among_files(fs, paths, agent, category, scope, c));
            assert(patterns[patterns.len() - 1] == last);
        }
        if is_among_patterns(fs, root, patterns, agent, category, scope, c) {
            let i = choose|i: int|
                0 <= i < patterns.len() && is_among_files(
                    fs,
                    managed::paths_of_pattern(fs, root, #[trigger] patterns[i]),
                    agent,
                    category,
                    scope,
                    c,
                );
            if i < t.len() {
                assert(t[i] == patterns[i]);
            }
        }
    } else {
        assert(!all.contains(c));
    }
}

/// Whether an entry is that of a global configuration file of an agent: of its rules,
/// its memory, its subagents, its settings or its workflows.
pub open spec fn is_global_config(
    fs: FileTreeView,
    a: AgentView,
    c: AgentConfigFileView,
) -> bool {
    let g = ConfigScopeView::Global;
    let k = a.configs;
    ||| is_among_files(fs, k.global_rules, a.name, ConfigCategory::Rules, g, c)
    ||| is_among_files(fs, k.global_memory, a.name, ConfigCategory::Memory, g, c)
    ||| is_among_files(fs, k.global_subagents, a.name, ConfigCategory::Subagents, g, c)
    ||| is_among_files(fs, k.global_settings, a.name, ConfigCategory::Settings, g, c)
    ||| is_among_files(fs, k.global_workflow, a.name, ConfigCategory::Workflow, g, c)
}

/// Whether an entry is that of a configuration file of an agent in a project that is
/// there: also of the files that it is to ignore.
pub open spec fn is_project_config(
    fs: FileTreeView,
    a: AgentView,
    project: (Seq<char>, Seq<char>),
    c: AgentConfigFileView,
) -> bool {
    let s = ConfigScopeView::Project { name: project.0, path: project.1 };
    let k = a.configs;
    let n = a.name;
    let root = project.1;
    fs.at(root).is_dir && {
        ||| is_among_patterns(fs, root, k.project_rules, n, ConfigCategory::Rules, s, c)
        ||| is_among_patterns(fs, root, k.project_memory, n, ConfigCategory::Memory, s, c)
        ||| is_among_patterns(fs, root, k.project_subagents, n, ConfigCategory::Subagents, s, c)
        ||| is_among_patterns(fs, root, k.project_settings, n, ConfigCategory::Settings, s, c)
        ||| is_among_patterns(fs, root, k.project_workflow, n, ConfigCategory::Workflow, s, c)
        ||| is_among_patterns(fs, root, k.project_ignore, n, ConfigCategory::Ignore, s, c)
    }
}

/// Whether a scope is that of memory files with an owner: that of the first known
/// project at that path, else the global one.
pub open spec fn is_scope_of_memory(
    projects: Seq<(Seq<char>, Seq<char>)>,
    owner: Option<Seq<char>>,
    s: ConfigScopeView,
) -> bool {
    ||| exists|i: int|
        0 <= i < projects.len() && owner is Some && path::same_path(
            (#[trigger] projects[i]).1,
            owner->0,
        ) && (forall|j: int|
            0 <= j < i ==> !path::same_path((#[trigger] projects[j]).1, owner->0)) && s
            == (ConfigScopeView::Project { name: projects[i].0, path: projects[i].1 })
    ||| s is Global && (owner is None || forall|j: int|
        0 <= j < projects.len() ==> !path::same_path((#[trigger] projects[j]).1, owner->0))
}

proof fn lemma_project_scope(projects: Seq<(Seq<char>, Seq<char>)>, p: Seq<char>)
    ensures
        match configs::project_scope(projects, p) {
            Some(s) => exists|i: int|
                0 <= i < projects.len() && path::same_path((#[trigger] projects[i]).1, p) && (
                forall|j: int| 0 <= j < i ==> !path::same_path((#[trigger] projects[j]).1, p)) && s
                    == (ConfigScopeView::Project { name: projects[i].0, path: projects[i].1 }),
            None => forall|j: int|
                0 <= j < projects.len() ==> !path::same_path((#[trigger] projects[j]).1, p),
        },
    decreases projects.len(),
{
    if projects.len() > 0 {
        let t = projects.drop_first();
        lemma_project_scope(t, p);
        assert forall|j: int| 0 <= j < t.len() implies #[trigger] t[j] == projects[j + 1] by {}
        if path::same_path(projects[0].1, p) {
            assert(path::same_path(projects[0].1, p));
        } else {
            match configs::project_scope(t, p) {
                Some(s) => {
                    let i = choose|i: int|
                        0 <= i < t.len() && path::same_path((#[trigger] t[i]).1, p) && (forall|
                            j: int,
                        |
                            0 <= j < i ==> !path::same_path((#[trigger] t[j]).1, p)) && s
                            == (ConfigScopeView::Project { name: t[i].0, path: t[i].1 });
                    assert(projects[i + 1] == t[i]);
                    assert forall|j: int| 0 <= j < i + 1 implies !path::same_path(
                        (#[trigger] projects[j]).1,
                        p,
                    ) by {
                        if j > 0 {
                            assert(!path::same_path(t[j - 1].1, p));
                        }
                    }
                },
                None => {
                    assert forall|j: int| 0 <= j < projects.len() implies !path::same_path(
                        (#[trigger] projects[j]).1,
                        p,
                    ) by {
                        if j > 0 {
                            assert(!path::same_path(t[j - 1].1, p));
                        }
                    }
                },
            }
        }
    }
}

/// Memory files that an agent keeps outside of a project belong to the project that
/// owns them, if that is known; else they are global.
pub proof fn memory_belongs_to_its_owner(
    projects: Seq<(Seq<char>, Seq<char>)>,
    owner: Option<Seq<char>>,
)
    ensures
        is_scope_of_memory(projects, owner, configs::memory_scope(projects, owner)),
{
    if let Some(p) = owner {
        lemma_project_scope(projects, p);
        if let Some(s) = configs::project_scope(projects, p) {
            let i = choose|i: int|
                0 <= i < projects.len() && path::same_path((#[trigger] projects[i]).1, p) && (
                forall|j: int| 0 <= j < i ==> !path::same_path((#[trigger] projects[j]).1, p)) && s
                    == (ConfigScopeView::Project { name: projects[i].0, path: projects[i].1 });
            assert(path::same_path(projects[i].1, owner->0));
        }
    }
}

proof fn lemma_external_configs(
    fs: FileTreeView,
    groups: Seq<ExternalMemoryView>,
    agent: Seq<char>,
    projects: Seq<(Seq<char>, Seq<char>)>,
    c: AgentConfigFileView,
)
    ensures
        configs::external_configs(fs, groups, agent, projects).contains(c) <==> exists|i: int|
            0 <= i < groups.len() && is_among_files(
                fs,
                (#[trigger] groups[i]).files,
                agent,
                ConfigCategory::Memory,
                configs::memory_scope(projects, groups[i].owner),
                c,
            ),
    decreases groups.len(),
{
    let all = configs::external_configs(fs, groups, agent, projects);
    if groups.len() > 0 {
        let t = groups.drop_last();
        let last = groups.last();
        let scope = configs::memory_scope(projects, last.owner);
        let before = configs::external_configs(fs, t, agent, projects);
        let here = configs::configs_at(fs, last.files, agent, ConfigCategory::Memory, scope);
        lemma_external_configs(fs, t, agent, projects, c);
        lemma_configs_at(fs, last.files, agent, ConfigCategory::Memory, scope, c);
        lists::lemma_sum_contains(before, here, c);
        if before.contains(c) {
            let i = choose|i: int|
                0 <= i < t.len() && is_among_files(
                    fs,
                    (#[trigger] t[i]).files,
                    agent,
                    ConfigCategory::Memory,
                    configs::memory_scope(projects, t[i].owner),
                    c,
                );
            assert(groups[i] == t[i]);
        }
        if here.contains(c) {
            assert(groups[groups.len() - 1] == last);
        }
        if exists|i: int|
            0 <= i < groups.len() && is_among_files(
                fs,
                (#[trigger] groups[i]).files,
                agent,
                ConfigCategory::Memory,
                configs::memory_scope(projects, groups[i].owner),
                c,
            ) {
            let i = choose|i: int|
                0 <= i < groups.len() && is_among_files(
                    fs,
                    (#[trigger] groups[i]).files,
                    agent,
                    ConfigCategory::Memory,
                    configs::memory_scope(projects, groups[i].owner),
                    c,
                );
            if i < t.len() {
                assert(t[i] == groups[i]);
            }
        }
    } else {
        assert(!all.contains(c));
    }
}

proof fn lemma_global_configs(fs: FileTreeView, a: AgentView, c: AgentConfigFileView)
    ensures
        configs::global_configs(fs, a).contains(c) <==> is_global_config(fs, a, c),
{
    let g = ConfigScopeView::Global;
    let k = a.configs;
    let n = a.name;
    let x1 = configs::configs_at(fs, k.global_rules, n, ConfigCategory::Rules, g);
    let x2 = configs::configs_at(fs, k.global_memory, n, ConfigCategory::Memory, g);
    let x3 = configs::configs_at(fs, k.global_subagents, n, ConfigCategory::Subagents, g);
    let x4 = configs::configs_at(fs, k.global_settings, n, ConfigCategory::Settings, g);
    let x5 = configs::configs_at(fs, k.global_workflow, n, ConfigCategory::Workflow, g);
    lemma_configs_at(fs, k.global_rules, n, ConfigCategory::Rules, g, c);
    lemma_configs_at(fs, k.global_memory, n, ConfigCategory::Memory, g, c);
    lemma_configs_at(fs, k.global_subagents, n, ConfigCategory::Subagents, g, c);
    lemma_configs_at(fs, k.global_settings, n, ConfigCategory::Settings, g, c);
    lemma_configs_at(fs, k.global_workflow, n, ConfigCategory::Workflow, g, c);
    lists::lemma_sum_contains(x1, x2, c);
    lists::lemma_sum_contains(x1 + x2, x3, c);
    lists::lemma_sum_contains(x1 + x2 + x3, x4, c);
    lists::lemma_sum_contains(x1 + x2 + x3 + x4, x5, c);
}

proof fn lemma_project_configs(
    fs: FileTreeView,
    a: AgentView,
    project: (Seq<char>, Seq<char>),
    c: AgentConfigFileView,
)
    ensures
        configs::project_configs(fs, a, project).contains(c) <==> is_project_config(
            fs,
            a,
            project,
            c,
        ),
{
    let s = ConfigScopeView::Project { name: project.0, path: project.1 };
    let k = a.configs;
    let n = a.name;
    let root = project.1;
    if fs.at(root).is_dir {
        let x1 = configs::pattern_configs(fs, root, k.project_rules, n, ConfigCategory::Rules, s);
        let x2 = configs::pattern_configs(fs, root, k.project_memory, n, ConfigCategory::Memory, s);
        let x3 = configs::pattern_configs(
            fs,
            root,
            k.project_subagents,
            n,
            ConfigCategory::Subagents,
            s,
        );
        let x4 = configs::pattern_configs(
            fs,
            root,
            k.project_settings,
            n,
            ConfigCategory::Settings,
            s,
        );
        let x5 = configs::pattern_configs(
            fs,
            root,
            k.project_workflow,
            n,
            ConfigCategory::Workflow,
            s,
        );
        let x6 = configs::pattern_configs(fs, root, k.project_ignore, n, ConfigCategory::Ignore, s);
        lemma_pattern_configs(fs, root, k.project_rules, n, ConfigCategory::Rules, s, c);
        lemma_pattern_configs(fs, root, k.project_memory, n, ConfigCategory::Memory, s, c);
        lemma_pattern_configs(fs, root, k.project_subagents, n, ConfigCategory::Subagents, s, c);
        lemma_pattern_configs(fs, root, k.project_settings, n, ConfigCategory::Settings, s, c);
        lemma_pattern_configs(fs, root, k.project_workflow, n, ConfigCategory::Workflow, s, c);
        lemma_pattern_configs(fs, root, k.project_ignore, n, ConfigCategory::Ignore, s, c);
        lists::lemma_sum_contains(x1, x2, c);
        lists::lemma_sum_contains(x1 + x2, x3, c);
        lists::lemma_sum_contains(x1 + x2 + x3, x4, c);
        lists::lemma_sum_contains(x1 + x2 + x3 + x4, x5, c);
        lists::lemma_sum_contains(x1 + x2 + x3 + x4 + x5, x6, c);
    } else {
        assert(!configs::project_configs(fs, a, project).contains(c));
    }
}

proof fn lemma_all_project_configs(
    fs: FileTreeView,
    a: AgentView,
    projects: Seq<(Seq<char>, Seq<char>)>,
    c: AgentConfigFileView,
)
    ensures
        configs::all_project_configs(fs, a, projects).contains(c) <==> exists|i: int|
            0 <= i < projects.len() && is_project_config(fs, a, #[trigger] projects[i], c),
    decreases projects.len(),
{
    let all = configs::all_project_configs(fs, a, projects);
    if projects.len() > 0 {
        let t = projects.drop_last();
        let last = projects.last();
        let before = configs::all_project_configs(fs, a, t);
        lemma_all_project_configs(fs, a, t, c);
        lemma_project_configs(fs, a, last, c);
        lists::lemma_sum_contains(before, configs::project_configs(fs, a, last), c);
        if before.contains(c) {
            let i = choose|i: int|
                0 <= i < t.len() && is_project_config(fs, a, #[trigger] t[i], c);
            assert(projects[i] == t[i]);
        }
        if is_project_config(fs, a, last, c) {
            assert(is_project_config(fs, a, projects[projects.len() - 1], c));
        }
        if exists|i: int|
            0 <= i < projects.len() && is_project_config(fs, a, #[trigger] projects[i], c) {
            let i = choose|i: int|
                0 <= i < projects.len() && is_project_config(fs, a, #[trigger] projects[i], c);
            if i < t.len() {
                assert(t[i] == projects[i]);
            }
        }
    } else {
        assert(!all.contains(c));
    }
}

/// The configuration files of an agent are exactly its global ones, those of the known
/// projects that are there, and the memory files that it keeps outside of them.
pub proof fn configs_are_listed_by_category_and_scope(
    fs: FileTreeView,
    a: AgentView,
    projects: Seq<(Seq<char>, Seq<char>)>,
    c: AgentConfigFileView,
)
    ensures
        configs::found_configs(fs, a, projects).contains(c) <==> {
            ||| is_global_config(fs, a, c)
            ||| exists|i: int|
                0 <= i < projects.len() && is_project_config(fs, a, #[trigger] projects[i], c)
            ||| exists|i: int|
                0 <= i < a.configs.external_memory.len() && is_among_files(
                    fs,
                    (#[trigger] a.configs.external_memory[i]).files,
                    a.name,
                    ConfigCategory::Memory,
                    configs::memory_scope(projects, a.configs.external_memory[i].owner),
                    c,
                )
        },
{
    let x = configs::external_configs(fs, a.configs.external_memory, a.name, projects);
    let y = configs::global_configs(fs, a);
    let z = configs::all_project_configs(fs, a, projects);
    lemma_external_configs(fs, a.configs.external_memory, a.name, projects, c);
    lemma_global_configs(fs, a, c);
    lemma_all_project_configs(fs, a, projects, c);
    lists::lemma_sum_contains(x, y, c);
    lists::lemma_sum_contains(x + y, z, c);
}

/// Where the files of a category stand in a listing.
pub open spec fn place_of(c: ConfigCategory) -> int {
    if c == ConfigCategory::Rules {
        1
    } else if c == ConfigCategory::Memory {
        2
    } else if c == ConfigCategory::Subagents {
        3
    } else if c == ConfigCategory::Settings {
        4
    } else if c == ConfigCategory::Workflow {
        5
    } else {
        6
    }
}

/// Configuration files are ordered by category first: rules, memory, subagents,
/// settings, workflows, and files to ignore; then global ones come before those of
/// projects; then they go by name.
pub proof fn configs_are_ordered_by_category_scope_and_name(
    a: AgentConfigFileView,
    b: AgentConfigFileView,
)
    ensures
        place_of(a.category) < place_of(b.category) ==> configs::config_le(a, b)
            && !configs::config_le(b, a),
        a.category == b.category && a.scope is Global && !(b.scope is Global) ==> configs::config_le(
            a,
            b,
        ) && !configs::config_le(b, a),
        a.category == b.category && (a.scope is Global <==> b.scope is Global) ==> (
        configs::config_le(a, b) <==> lists::text_le(a.file_name, b.file_name)),
{
}

} // verus!
