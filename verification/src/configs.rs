//! The configuration files of an agent.

use vstd::prelude::*;

use crate::agents::{Agent, AgentView, ExternalMemoryView};
use crate::files::{FileTree, FileTreeView};
use crate::lists;
use crate::managed;
use crate::models;
use crate::models::{
    AgentConfigFile, AgentConfigFileView, ConfigCategory, ConfigScope, ConfigScopeView, Timestamp,
};
use crate::outside;
use crate::path;
use crate::text;

verus! {

// ---------------------------------------------------------------------------
// One file
// ---------------------------------------------------------------------------

/// A time of change in whole seconds; the start of 1970 for times before it, and
/// for times that a date cannot hold.
pub open spec fn whole_seconds(t: Timestamp) -> Timestamp {
    if 0 <= t.secs <= outside::LAST_SECOND {
        Timestamp { secs: t.secs, nanos: 0 }
    } else {
        Timestamp { secs: 0, nanos: 0 }
    }
}

/// The configuration file at `p`, if it is a regular file with a name.
pub open spec fn config_at(
    fs: FileTreeView,
    p: Seq<char>,
    agent: Seq<char>,
    category: ConfigCategory,
    scope: ConfigScopeView,
) -> Option<AgentConfigFileView> {
    let f = fs.at(p);
    if !f.exists || !f.is_file || path::file_name_of(p) is None {
        None
    } else {
        Some(
            AgentConfigFileView {
                path: p,
                agent,
                category,
                scope,
                file_name: path::file_name_of(p)->0,
                size_bytes: f.size,
                modified_at: match f.modified {
                    Some(t) => Some(whole_seconds(t)),
                    None => None,
                },
                is_dir: false,
                exists: true,
                custom_id: None,
                custom_label: None,
            },
        )
    }
}

fn to_whole_seconds(t: Timestamp) -> (r: Timestamp)
    ensures
        r == whole_seconds(t),
{
    let secs: i64 = if t.secs < 0 {
        0
    } else {
        t.secs
    };
    match outside::from_unix_seconds(secs) {
        Some(x) => x,
        None => Timestamp { secs: 0, nanos: 0 },
    }
}

/// The configuration file at `p`, if it is a regular file with a name.
pub fn stat_config_file(
    fs: &FileTree,
    p: &str,
    agent: &str,
    category: ConfigCategory,
    scope: &ConfigScope,
) -> (r: Option<AgentConfigFile>)
    ensures
        models::opt_view(r) == config_at(fs@, p@, agent@, category, scope@),
{
    let f = match fs.get(p) {
        None => {
            return None;
        },
        Some(f) => f,
    };
    if !f.exists || !f.is_file {
        return None;
    }
    let file_name = match path::file_name(p) {
        None => {
            return None;
        },
        Some(n) => n,
    };
    let modified_at = match f.modified {
        Some(t) => Some(to_whole_seconds(t)),
        None => None,
    };
    Some(
        AgentConfigFile {
            path: p.to_owned(),
            agent: agent.to_owned(),
            category,
            scope: scope.clone(),
            file_name,
            size_bytes: f.size,
            modified_at,
            is_dir: false,
            exists: true,
            custom_id: None,
            custom_label: None,
        },
    )
}

/// The configuration files at some paths.
pub open spec fn configs_at(
    fs: FileTreeView,
    paths: Seq<Seq<char>>,
    agent: Seq<char>,
    category: ConfigCategory,
    scope: ConfigScopeView,
) -> Seq<AgentConfigFileView>
    decreases paths.len(),
{
    if paths.len() == 0 {
        Seq::<AgentConfigFileView>::empty()
    } else {
        let before = configs_at(fs, paths.drop_last(), agent, category, scope);
        match config_at(fs, paths.last(), agent, category, scope) {
            Some(c) => before.push(c),
            None => before,
        }
    }
}

fn push_configs(
    out: &mut Vec<AgentConfigFile>,
    fs: &FileTree,
    paths: &Vec<String>,
    agent: &str,
    category: ConfigCategory,
    scope: &ConfigScope,
)
    ensures
        models::list_view(final(out)@) == models::list_view(old(out)@) + configs_at(
            fs@,
            text::strs(paths@),
            agent@,
            category,
            scope@,
        ),
{
    let ghost all = text::strs(paths@);
    let ghost start = models::list_view(out@);
    let mut i: usize = 0;
    assert(all.take(0) =~= Seq::<Seq<char>>::empty());
    assert(models::list_view(out@) =~= start + configs_at(
        fs@,
        all.take(0),
        agent@,
        category,
        scope@,
    ));
    while i < paths.len()
        invariant
            all == text::strs(paths@),
            i <= paths.len(),
            models::list_view(out@) == start + configs_at(
                fs@,
                all.take(i as int),
                agent@,
                category,
                scope@,
            ),
        decreases paths.len() - i,
    {
        assert(all.take(i + 1).drop_last() =~= all.take(i as int));
        assert(all.take(i + 1).last() == paths@[i as int]@);
        let ghost before = models::list_view(out@);
        if let Some(c) = stat_config_file(fs, &paths[i], agent, category, scope) {
            let ghost cv = c@;
            out.push(c);
            assert(models::list_view(out@) =~= before.push(cv));
        }
        assert(models::list_view(out@) =~= start + configs_at(
            fs@,
            all.take(i + 1),
            agent@,
            category,
            scope@,
        ));
        i += 1;
    }
    assert(all.take(i as int) =~= all);
}

// ---------------------------------------------------------------------------
// Memory outside of projects
// ---------------------------------------------------------------------------

/// The scope of the first known project that lies at `p`.
pub open spec fn project_scope(projects: Seq<(Seq<char>, Seq<char>)>, p: Seq<char>) -> Option<
    ConfigScopeView,
>
    decreases projects.len(),
{
    if projects.len() == 0 {
        None
    } else if path::same_path(projects[0].1, p) {
        Some(ConfigScopeView::Project { name: projects[0].0, path: projects[0].1 })
    } else {
        project_scope(projects.drop_first(), p)
    }
}

/// The scope of memory files: the project that they belong to if it is known,
/// else the global one.
pub open spec fn memory_scope(
    projects: Seq<(Seq<char>, Seq<char>)>,
    owner: Option<Seq<char>>,
) -> ConfigScopeView {
    match owner {
        None => ConfigScopeView::Global,
        Some(p) => match project_scope(projects, p) {
            Some(s) => s,
            None => ConfigScopeView::Global,
        },
    }
}

fn find_memory_scope(projects: &Vec<(String, String)>, owner: &Option<String>) -> (r: ConfigScope)
    ensures
        r@ == memory_scope(models::pairs_view(projects@), text::ostr(*owner)),
{
    let p = match owner {
        None => {
            return ConfigScope::Global;
        },
        Some(p) => p,
    };
    let ghost v = models::pairs_view(projects@);
    let mut i: usize = 0;
    assert(v.skip(0) =~= v);
    while i < projects.len()
        invariant
            v == models::pairs_view(projects@),
            text::ostr(*owner) == Some(p@),
            i <= projects.len(),
            project_scope(v.skip(i as int), p@) == project_scope(v, p@),
        decreases projects.len() - i,
    {
        assert(v.skip(i as int)[0] == (projects@[i as int].0@, projects@[i as int].1@));
        assert(v.skip(i as int).drop_first() =~= v.skip(i + 1));
        if path::path_eq(&projects[i].1, p) {
            return ConfigScope::Project {
                name: projects[i].0.clone(),
                path: projects[i].1.clone(),
            };
        }
        i += 1;
    }
    ConfigScope::Global
}

/// The memory files that an agent keeps outside of projects.
pub open spec fn external_configs(
    fs: FileTreeView,
    groups: Seq<ExternalMemoryView>,
    agent: Seq<char>,
    projects: Seq<(Seq<char>, Seq<char>)>,
) -> Seq<AgentConfigFileView>
    decreases groups.len(),
{
    if groups.len() == 0 {
        Seq::<AgentConfigFileView>::empty()
    } else {
        external_configs(fs, groups.drop_last(), agent, projects) + configs_at(
            fs,
            groups.last().files,
            agent,
            ConfigCategory::Memory,
            memory_scope(projects, groups.last().owner),
        )
    }
}

// ---------------------------------------------------------------------------
// Global files and files of projects
// ---------------------------------------------------------------------------

/// The global configuration files of an agent.
pub open spec fn global_configs(fs: FileTreeView, agent: AgentView) -> Seq<AgentConfigFileView> {
    let g = ConfigScopeView::Global;
    let c = agent.configs;
    configs_at(fs, c.global_rules, agent.name, ConfigCategory::Rules, g) + configs_at(
        fs,
        c.global_memory,
        agent.name,
        ConfigCategory::Memory,
        g,
    ) + configs_at(fs, c.global_subagents, agent.name, ConfigCategory::Subagents, g) + configs_at(
        fs,
        c.global_settings,
        agent.name,
        ConfigCategory::Settings,
        g,
    ) + configs_at(fs, c.global_workflow, agent.name, ConfigCategory::Workflow, g)
}

/// The configuration files that patterns of a project stand for.
pub open spec fn pattern_configs(
    fs: FileTreeView,
    root: Seq<char>,
    patterns: Seq<Seq<char>>,
    agent: Seq<char>,
    category: ConfigCategory,
    scope: ConfigScopeView,
) -> Seq<AgentConfigFileView>
    decreases patterns.len(),
{
    if patterns.len() == 0 {
        Seq::<AgentConfigFileView>::empty()
    } else {
        pattern_configs(fs, root, patterns.drop_last(), agent, category, scope) + configs_at(
            fs,
            managed::paths_of_pattern(fs, root, patterns.last()),
            agent,
            category,
            scope,
        )
    }
}

/// The configuration files of an agent in a project; none where the project does
/// not exist.
pub open spec fn project_configs(
    fs: FileTreeView,
    agent: AgentView,
    project: (Seq<char>, Seq<char>),
) -> Seq<AgentConfigFileView> {
    let s = ConfigScopeView::Project { name: project.0, path: project.1 };
    let c = agent.configs;
    let n = agent.name;
    let root = project.1;
    if !fs.at(root).is_dir {
        Seq::<AgentConfigFileView>::empty()
    } else {
        pattern_configs(fs, root, c.project_rules, n, ConfigCategory::Rules, s) + pattern_configs(
            fs,
            root,
            c.project_memory,
            n,
            ConfigCategory::Memory,
            s,
        ) + pattern_configs(fs, root, c.project_subagents, n, ConfigCategory::Subagents, s)
            + pattern_configs(fs, root, c.project_settings, n, ConfigCategory::Settings, s)
            + pattern_configs(fs, root, c.project_workflow, n, ConfigCategory::Workflow, s)
            + pattern_configs(fs, root, c.project_ignore, n, ConfigCategory::Ignore, s)
    }
}

/// The configuration files of an agent in some projects.
pub open spec fn all_project_configs(
    fs: FileTreeView,
    agent: AgentView,
    projects: Seq<(Seq<char>, Seq<char>)>,
) -> Seq<AgentConfigFileView>
    decreases projects.len(),
{
    if projects.len() == 0 {
        Seq::<AgentConfigFileView>::empty()
    } else {
        all_project_configs(fs, agent, projects.drop_last()) + project_configs(
            fs,
            agent,
            projects.last(),
        )
    }
}

fn push_patterns(
    out: &mut Vec<AgentConfigFile>,
    fs: &FileTree,
    root: &str,
    patterns: &Vec<String>,
    agent: &str,
    category: ConfigCategory,
    scope: &ConfigScope,
)
    ensures
        models::list_view(final(out)@) == models::list_view(old(out)@) + pattern_configs(
            fs@,
            root@,
            text::strs(patterns@),
            agent@,
            category,
            scope@,
        ),
{
    let ghost all = text::strs(patterns@);
    let ghost start = models::list_view(out@);
    let mut i: usize = 0;
    assert(all.take(0) =~= Seq::<Seq<char>>::empty());
    assert(models::list_view(out@) =~= start + pattern_configs(
        fs@,
        root@,
        all.take(0),
        agent@,
        category,
        scope@,
    ));
    while i < patterns.len()
        invariant
            all == text::strs(patterns@),
            i <= patterns.len(),
            models::list_view(out@) == start + pattern_configs(
                fs@,
                root@,
                all.take(i as int),
                agent@,
                category,
                scope@,
            ),
        decreases patterns.len() - i,
    {
        assert(all.take(i + 1).drop_last() =~= all.take(i as int));
        assert(all.take(i + 1).last() == patterns@[i as int]@);
        let paths = managed::resolve_pattern(fs, root, &patterns[i]);
        push_configs(out, fs, &paths, agent, category, scope);
        assert(models::list_view(out@) =~= start + pattern_configs(
            fs@,
            root@,
            all.take(i + 1),
            agent@,
            category,
            scope@,
        ));
        i += 1;
    }
    assert(all.take(i as int) =~= all);
}

fn push_project(out: &mut Vec<AgentConfigFile>, fs: &FileTree, agent: &Agent, name: &str, root: &str)
    ensures
        models::list_view(final(out)@) == models::list_view(old(out)@) + project_configs(
            fs@,
            agent@,
            (name@, root@),
        ),
{
    let ghost start = models::list_view(out@);
    if !fs.is_dir(root) {
        assert(start =~= start + project_configs(fs@, agent@, (name@, root@)));
        return;
    }
    let s = ConfigScope::Project { name: name.to_owned(), path: root.to_owned() };
    let c = &agent.configs;
    push_patterns(out, fs, root, &c.project_rules, &agent.name, ConfigCategory::Rules, &s);
    push_patterns(out, fs, root, &c.project_memory, &agent.name, ConfigCategory::Memory, &s);
    push_patterns(
        out,
        fs,
        root,
        &c.project_subagents,
        &agent.name,
        ConfigCategory::Subagents,
        &s,
    );
    push_patterns(out, fs, root, &c.project_settings, &agent.name, ConfigCategory::Settings, &s);
    push_patterns(out, fs, root, &c.project_workflow, &agent.name, ConfigCategory::Workflow, &s);
    push_patterns(out, fs, root, &c.project_ignore, &agent.name, ConfigCategory::Ignore, &s);
    assert(models::list_view(out@) =~= start + project_configs(fs@, agent@, (name@, root@)));
}

fn push_external(
    out: &mut Vec<AgentConfigFile>,
    fs: &FileTree,
    agent: &Agent,
    projects: &Vec<(String, String)>,
)
    ensures
        models::list_view(final(out)@) == models::list_view(old(out)@) + external_configs(
            fs@,
            agent@.configs.external_memory,
            agent@.name,
            models::pairs_view(projects@),
        ),
{
    let groups = &agent.configs.external_memory;
    let ghost all = models::list_view(groups@);
    let ghost known = models::pairs_view(projects@);
    let ghost start = models::list_view(out@);
    let mut i: usize = 0;
    assert(all.take(0) =~= Seq::<ExternalMemoryView>::empty());
    assert(models::list_view(out@) =~= start + external_configs(
        fs@,
        all.take(0),
        agent@.name,
        known,
    ));
    while i < groups.len()
        invariant
            all == models::list_view(groups@),
            known == models::pairs_view(projects@),
            i <= groups.len(),
            models::list_view(out@) == start + external_configs(
                fs@,
                all.take(i as int),
                agent@.name,
                known,
            ),
        decreases groups.len() - i,
    {
        assert(all.take(i + 1).drop_last() =~= all.take(i as int));
        assert(all.take(i + 1).last() == groups@[i as int]@);
        let scope = find_memory_scope(projects, &groups[i].owner);
        push_configs(out, fs, &groups[i].files, &agent.name, ConfigCategory::Memory, &scope);
        assert(models::list_view(out@) =~= start + external_configs(
            fs@,
            all.take(i + 1),
            agent@.name,
            known,
        ));
        i += 1;
    }
    assert(all.take(i as int) =~= all);
}

/// The configuration files of an agent, in the order in which they are looked
/// for.
pub open spec fn found_configs(
    fs: FileTreeView,
    agent: AgentView,
    projects: Seq<(Seq<char>, Seq<char>)>,
) -> Seq<AgentConfigFileView> {
    external_configs(fs, agent.configs.external_memory, agent.name, projects) + global_configs(
        fs,
        agent,
    ) + all_project_configs(fs, agent, projects)
}

fn collect_configs(fs: &FileTree, agent: &Agent, projects: &Vec<(String, String)>) -> (r: Vec<
    AgentConfigFile,
>)
    ensures
        models::list_view(r@) == found_configs(fs@, agent@, models::pairs_view(projects@)),
{
    let mut out: Vec<AgentConfigFile> = Vec::new();
    let ghost known = models::pairs_view(projects@);
    assert(models::list_view(out@) =~= Seq::<AgentConfigFileView>::empty());
    push_external(&mut out, fs, agent, projects);
    let ghost ext = external_configs(fs@, agent@.configs.external_memory, agent@.name, known);
    assert(models::list_view(out@) =~= ext);
    let g = ConfigScope::Global;
    let c = &agent.configs;
    push_configs(&mut out, fs, &c.global_rules, &agent.name, ConfigCategory::Rules, &g);
    push_configs(&mut out, fs, &c.global_memory, &agent.name, ConfigCategory::Memory, &g);
    push_configs(&mut out, fs, &c.global_subagents, &agent.name, ConfigCategory::Subagents, &g);
    push_configs(&mut out, fs, &c.global_settings, &agent.name, ConfigCategory::Settings, &g);
    push_configs(&mut out, fs, &c.global_workflow, &agent.name, ConfigCategory::Workflow, &g);
    let ghost start = ext + global_configs(fs@, agent@);
    assert(models::list_view(out@) =~= start);
    let mut i: usize = 0;
    assert(known.take(0) =~= Seq::<(Seq<char>, Seq<char>)>::empty());
    assert(models::list_view(out@) =~= start + all_project_configs(fs@, agent@, known.take(0)));
    while i < projects.len()
        invariant
            known == models::pairs_view(projects@),
            i <= projects.len(),
            models::list_view(out@) == start + all_project_configs(
                fs@,
                agent@,
                known.take(i as int),
            ),
        decreases projects.len() - i,
    {
        assert(known.take(i + 1).drop_last() =~= known.take(i as int));
        assert(known.take(i + 1).last() == (projects@[i as int].0@, projects@[i as int].1@));
        push_project(&mut out, fs, agent, &projects[i].0, &projects[i].1);
        assert(models::list_view(out@) =~= start + all_project_configs(
            fs@,
            agent@,
            known.take(i + 1),
        ));
        i += 1;
    }
    assert(known.take(i as int) =~= known);
    out
}

// ---------------------------------------------------------------------------
// Order
// ---------------------------------------------------------------------------

/// Whether one file may stand before another: by category, then global ones
/// first, then by name.
pub open spec fn config_le(a: AgentConfigFileView, b: AgentConfigFileView) -> bool {
    let ag = a.scope is Global;
    let bg = b.scope is Global;
    if a.category.rank() != b.category.rank() {
        a.category.rank() < b.category.rank()
    } else if ag != bg {
        ag
    } else {
        lists::text_le(a.file_name, b.file_name)
    }
}

/// A sorted list with one more file, behind those that may stand before it.
pub open spec fn inserted(s: Seq<AgentConfigFileView>, x: AgentConfigFileView) -> Seq<
    AgentConfigFileView,
>
    decreases s.len(),
{
    if s.len() == 0 {
        seq![x]
    } else if config_le(s.last(), x) {
        s.push(x)
    } else {
        inserted(s.drop_last(), x).push(s.last())
    }
}

/// The files in order; files that may stand either way keep the order that they
/// have.
pub open spec fn in_order(s: Seq<AgentConfigFileView>) -> Seq<AgentConfigFileView>
    decreases s.len(),
{
    if s.len() == 0 {
        Seq::<AgentConfigFileView>::empty()
    } else {
        inserted(in_order(s.drop_last()), s.last())
    }
}

fn may_precede(a: &AgentConfigFile, b: &AgentConfigFile) -> (r: bool)
    ensures
        r == config_le(a@, b@),
{
    let ar: u8 = a.category.order();
    let br: u8 = b.category.order();
    if ar != br {
        return ar < br;
    }
    let ag = a.scope.is_global();
    let bg = b.scope.is_global();
    if ag != bg {
        ag
    } else {
        lists::str_le(&a.file_name, &b.file_name)
    }
}

fn insert_sorted(v: &mut Vec<AgentConfigFile>, x: AgentConfigFile)
    ensures
        models::list_view(final(v)@) == inserted(models::list_view(old(v)@), x@),
{
    let ghost s = models::list_view(v@);
    let ghost xv = x@;
    let mut pos: usize = v.len();
    assert(s.take(pos as int) =~= s);
    assert(inserted(s, xv) =~= inserted(s.take(pos as int), xv) + s.skip(pos as int));
    while pos > 0 && !may_precede(&v[pos - 1], &x)
        invariant
            v@ == old(v)@,
            s == models::list_view(v@),
            xv == x@,
            pos <= v.len(),
            inserted(s, xv) == inserted(s.take(pos as int), xv) + s.skip(pos as int),
        decreases pos,
    {
        assert(s.take(pos as int).last() == v@[pos - 1]@);
        assert(s.take(pos as int).drop_last() =~= s.take(pos - 1));
        assert(inserted(s.take(pos - 1), xv) + s.skip(pos - 1) =~= inserted(
            s.take(pos - 1),
            xv,
        ).push(s[pos - 1]) + s.skip(pos as int));
        pos -= 1;
    }
    if pos > 0 {
        assert(s.take(pos as int).last() == v@[pos - 1]@);
    }
    v.insert(pos, x);
    assert(models::list_view(v@) =~= s.take(pos as int).push(xv) + s.skip(pos as int));
    assert(inserted(s.take(pos as int), xv) =~= s.take(pos as int).push(xv));
}

/// The configuration files of an agent, globally and in the known projects:
/// sorted by category, global ones first, and by name.
pub fn scan_agent_configs(fs: &FileTree, agent: &Agent, projects: &Vec<(String, String)>) -> (r:
    Vec<AgentConfigFile>)
    ensures
        models::list_view(r@) == in_order(
            found_configs(fs@, agent@, models::pairs_view(projects@)),
        ),
{
    let found = collect_configs(fs, agent, projects);
    let ghost all = models::list_view(found@);
    let mut out: Vec<AgentConfigFile> = Vec::new();
    let mut i: usize = 0;
    assert(all.take(0) =~= Seq::<AgentConfigFileView>::empty());
    assert(models::list_view(out@) =~= in_order(all.take(0)));
    while i < found.len()
        invariant
            all == models::list_view(found@),
            i <= found.len(),
            models::list_view(out@) == in_order(all.take(i as int)),
        decreases found.len() - i,
    {
        assert(all.take(i + 1).drop_last() =~= all.take(i as int));
        assert(all.take(i + 1).last() == found@[i as int]@);
        insert_sorted(&mut out, found[i].clone());
        i += 1;
    }
    assert(all.take(i as int) =~= all);
    out
}

// ---------------------------------------------------------------------------
// Laws
// ---------------------------------------------------------------------------

/// Whether a list is in order.
pub open spec fn is_sorted(s: Seq<AgentConfigFileView>) -> bool {
    forall|i: int, j: int| 0 <= i <= j < s.len() ==> config_le(#[trigger] s[i], #[trigger] s[j])
}

/// Putting files in order keeps each of them, and leaves them in order.
pub proof fn ordering_sorts_and_keeps(s: Seq<AgentConfigFileView>)
    ensures
        is_sorted(in_order(s)),
        in_order(s).to_multiset() =~= s.to_multiset(),
        in_order(s).len() == s.len(),
    decreases s.len(),
{
    broadcast use vstd::seq_lib::group_to_multiset_ensures;

    if s.len() > 0 {
        ordering_sorts_and_keeps(s.drop_last());
        lemma_inserted_sorted(in_order(s.drop_last()), s.last());
        lemma_inserted_multiset(in_order(s.drop_last()), s.last());
        assert(s =~= s.drop_last().push(s.last()));
    }
}

proof fn lemma_config_order(
    a: AgentConfigFileView,
    b: AgentConfigFileView,
    c: AgentConfigFileView,
)
    ensures
        config_le(a, a),
        config_le(a, b) || config_le(b, a),
        config_le(a, b) && config_le(b, c) ==> config_le(a, c),
{
    lists::text_order_is_total(a.file_name, a.file_name);
    lists::text_order_is_total(a.file_name, b.file_name);
    if lists::text_le(a.file_name, b.file_name) && lists::text_le(b.file_name, c.file_name) {
        lists::text_order_is_transitive(a.file_name, b.file_name, c.file_name);
    }
}

proof fn lemma_inserted_multiset(s: Seq<AgentConfigFileView>, x: AgentConfigFileView)
    ensures
        inserted(s, x).to_multiset() =~= s.to_multiset().insert(x),
        inserted(s, x).len() == s.len() + 1,
    decreases s.len(),
{
    broadcast use vstd::seq_lib::group_to_multiset_ensures;

    if s.len() == 0 {
        assert(inserted(s, x) =~= s.push(x));
    } else if !config_le(s.last(), x) {
        lemma_inserted_multiset(s.drop_last(), x);
        assert(s =~= s.drop_last().push(s.last()));
    }
}

proof fn lemma_inserted_sorted(s: Seq<AgentConfigFileView>, x: AgentConfigFileView)
    requires
        is_sorted(s),
    ensures
        is_sorted(inserted(s, x)),
        forall|y: AgentConfigFileView|
            (forall|i: int| 0 <= i < s.len() ==> config_le(#[trigger] s[i], y)) && config_le(x, y)
                ==> (forall|i: int|
                0 <= i < inserted(s, x).len() ==> config_le(#[trigger] inserted(s, x)[i], y)),
    decreases s.len(),
{
    let r = inserted(s, x);
    if s.len() == 0 {
        lemma_config_order(x, x, x);
    } else if config_le(s.last(), x) {
        assert forall|i: int, j: int| 0 <= i <= j < r.len() implies config_le(
            #[trigger] r[i],
            #[trigger] r[j],
        ) by {
            if j == s.len() {
                if i < j {
                    assert(config_le(s[i], s[s.len() - 1]));
                    lemma_config_order(s[i], s.last(), x);
                } else {
                    lemma_config_order(x, x, x);
                }
            } else {
                assert(config_le(s[i], s[j]));
            }
        }
    } else {
        let t = s.drop_last();
        assert forall|i: int, j: int| 0 <= i <= j < t.len() implies config_le(
            #[trigger] t[i],
            #[trigger] t[j],
        ) by {
            assert(config_le(s[i], s[j]));
        }
        lemma_inserted_sorted(t, x);
        let q = inserted(t, x);
        lemma_config_order(s.last(), x, x);
        assert(forall|i: int| 0 <= i < t.len() ==> config_le(#[trigger] t[i], s.last())) by {
            assert forall|i: int| 0 <= i < t.len() implies config_le(#[trigger] t[i], s.last()) by {
                assert(config_le(s[i], s[s.len() - 1]));
            }
        }
        assert(config_le(x, s.last()));
        assert forall|i: int, j: int| 0 <= i <= j < r.len() implies config_le(
            #[trigger] r[i],
            #[trigger] r[j],
        ) by {
            if j == q.len() {
                if i < j {
                    assert(config_le(q[i], s.last()));
                } else {
                    lemma_config_order(s.last(), s.last(), s.last());
                }
            } else {
                assert(config_le(q[i], q[j]));
            }
        }
        assert forall|y: AgentConfigFileView|
            (forall|i: int| 0 <= i < s.len() ==> config_le(#[trigger] s[i], y)) && config_le(
                x,
                y,
            ) implies (forall|i: int| 0 <= i < r.len() ==> config_le(#[trigger] r[i], y)) by {
            assert forall|i: int| 0 <= i < t.len() implies config_le(#[trigger] t[i], y) by {
                assert(config_le(s[i], y));
            }
            assert forall|i: int| 0 <= i < r.len() implies config_le(#[trigger] r[i], y) by {
                if i < q.len() {
                    assert(config_le(q[i], y));
                } else {
                    assert(config_le(s[s.len() - 1], y));
                }
            }
        }
    }
}

} // verus!
