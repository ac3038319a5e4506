use std::cell::RefCell;
use std::collections::BTreeMap;

use hk_core::agents::{Agent, ConfigPaths, HookFile, McpFile, ProjectPaths, ScopePaths};
use hk_core::binaries::{Machine, Platform};
use hk_core::files::{FileFacts, FileTree};
use hk_core::ids::{stable_id_for, stable_id_with_scope_for};
use hk_core::inventory::scan_all;
use hk_core::models::{
    AuditInput, AuditResult, CliMeta, ConfigScope, Extension, ExtensionKind, HkError, HookEntry,
    InstallMeta, McpServerEntry, PluginEntry, Source, SourceOrigin, Timestamp,
};
use hk_core::pack::{is_valid_pack_format, normalize_pack};
use hk_core::plugins::read_plugin_content;
use hk_core::service::audit::{audit_extensions, inputs_for, run_full_audit};
use hk_core::service::binding::{bind_pack, migrate_pack_to_manual_meta};
use hk_core::service::content::{finish_reading, get_extension_content, read_plugin_detail};
use hk_core::service::deploy::{
    finish_install, install_to_agent, plan_install, Deployed, Deployment,
};
use hk_core::service::finishing::{adapter_scans_dir, paths_equal, post_install_sync};
use hk_core::service::removal::{
    begin_removal, delete_extension, find_canonical_skill_siblings, find_codex_dir,
    finish_removal, may_go_on, Removal,
};
use hk_core::service::updates::{
    find_url_to_ask, is_externally_managed, is_update_eligible, record_skill_revision, same_scope,
    try_delegate_skill_update,
};
use hk_core::store::{Project, Store};

const NOW: Timestamp = Timestamp { secs: 1_700_000_000, nanos: 0 };
const INSTALL_TYPE_MANUAL: &str = "manual";

fn parent_of(p: &str) -> Option<String> {
    if p == "/" {
        return None;
    }
    match p.rfind('/') {
        Some(0) => Some("/".to_string()),
        Some(i) => Some(p[..i].to_string()),
        None => None,
    }
}

fn plain(exists: bool) -> FileFacts {
    FileFacts {
        exists,
        is_dir: false,
        is_file: false,
        content: None,
        children: None,
        canonical: None,
        is_symlink: false,
        link_target: None,
        created: None,
        modified: None,
        size: 0,
    }
}

/// A disk with some files and some empty directories.
fn disk(files: &[(&str, &str)], dirs: &[&str]) -> FileTree {
    let mut children: BTreeMap<String, Vec<String>> = BTreeMap::new();
    let mut all: Vec<String> = files.iter().map(|f| f.0.to_string()).collect();
    for d in dirs {
        children.entry(d.to_string()).or_default();
        all.push(d.to_string());
    }
    for start in all {
        let mut p = start;
        while let Some(up) = parent_of(&p) {
            let entry = children.entry(up.clone()).or_default();
            if !entry.contains(&p) {
                entry.push(p.clone());
            }
            p = up;
        }
    }
    let mut fs = FileTree::new();
    for (d, entries) in children {
        let mut facts = plain(true);
        facts.is_dir = true;
        facts.children = Some(entries);
        facts.canonical = Some(d.clone());
        fs = fs.with_path(&d, facts);
    }
    for (p, content) in files {
        let mut facts = plain(true);
        facts.is_file = true;
        facts.content = Some(content.to_string());
        facts.canonical = Some(p.to_string());
        facts.size = content.len() as u64;
        fs = fs.with_path(p, facts);
    }
    fs
}

fn no_paths() -> ScopePaths {
    ScopePaths {
        mcp_config: None,
        hook_configs: vec![],
        hook_config: None,
        skill_dir: None,
        category_dirs: vec![],
        subagent_dir: None,
        command_dir: None,
    }
}

fn agent(name: &str) -> Agent {
    Agent {
        name: name.to_string(),
        detected: true,
        skill_dirs: vec![],
        project_skill_dirs: vec![],
        mcp_config_path: String::new(),
        mcp_servers: vec![],
        mcp_files: vec![],
        hook_files: vec![],
        plugins: vec![],
        plugin_config_path: String::new(),
        plugins_are_entries: false,
        base_dir: String::new(),
        vscode_user_dir: None,
        subagent_files: vec![],
        command_files: vec![],
        subagent_patterns: vec![],
        command_patterns: vec![],
        project_markers: vec![],
        supports_mcp: true,
        needs_path_injection: false,
        supports_global_hooks: true,
        hook_events: vec![],
        global: no_paths(),
        projects: vec![],
        configs: ConfigPaths {
            external_memory: vec![],
            global_rules: vec![],
            global_memory: vec![],
            global_subagents: vec![],
            global_settings: vec![],
            global_workflow: vec![],
            project_rules: vec![],
            project_memory: vec![],
            project_subagents: vec![],
            project_settings: vec![],
            project_workflow: vec![],
            project_ignore: vec![],
        },
    }
}

fn make_skill(scope: ConfigScope, install_meta: Option<InstallMeta>) -> Extension {
    Extension {
        id: "test-id".to_string(),
        kind: ExtensionKind::Skill,
        name: "test".to_string(),
        description: String::new(),
        source: Source {
            origin: SourceOrigin::Git,
            url: None,
            version: None,
            commit_hash: None,
            from_manifest: false,
        },
        agents: vec!["aider".to_string()],
        tags: vec![],
        permissions: vec![],
        enabled: true,
        trust_score: None,
        installed_at: NOW,
        updated_at: NOW,
        scope,
        install_meta,
        pack: None,
        source_path: None,
        cli_parent_id: None,
        cli_meta: None,
    }
}

fn record(install_type: &str, url: &str, revision: Option<&str>) -> InstallMeta {
    InstallMeta {
        install_type: install_type.to_string(),
        url: Some(url.to_string()),
        url_resolved: None,
        branch: None,
        subpath: None,
        revision: revision.map(|r| r.to_string()),
        remote_revision: None,
        checked_at: None,
        check_error: None,
    }
}

fn meta() -> InstallMeta {
    record("marketplace", "https://github.com/x/y", None)
}

fn judge(input: AuditInput) -> AuditResult {
    AuditResult {
        extension_id: input.extension_id,
        findings: vec![],
        trust_score: 70,
        audited_at: NOW,
    }
}

fn project(name: &str, path: &str) -> ConfigScope {
    ConfigScope::Project { name: name.to_string(), path: path.to_string() }
}

fn register(store: &mut Store, name: &str, path: &str) -> ConfigScope {
    store.insert_project(Project {
        id: format!("proj-{name}"),
        name: name.to_string(),
        path: path.to_string(),
        created_at: NOW,
    });
    project(name, path)
}

fn server(name: &str, command: &str, args: &[&str]) -> McpServerEntry {
    McpServerEntry {
        name: name.to_string(),
        command: command.to_string(),
        args: args.iter().map(|a| a.to_string()).collect(),
        env: vec![],
        enabled: true,
    }
}

fn hook(event: &str, matcher: Option<&str>, command: &str) -> HookEntry {
    HookEntry {
        event: event.to_string(),
        matcher: matcher.map(|m| m.to_string()),
        command: command.to_string(),
        enabled: true,
    }
}

fn plugin(name: &str, source: &str, path: Option<&str>) -> PluginEntry {
    PluginEntry {
        name: name.to_string(),
        source: source.to_string(),
        enabled: true,
        path: path.map(|p| p.to_string()),
        uri: None,
        installed_at: None,
        updated_at: None,
        source_url: None,
    }
}

fn names(list: &[&str]) -> Vec<String> {
    list.iter().map(|s| s.to_string()).collect()
}

/// A disk with skills that are called by their directories.
fn disk_with_skills(dirs: &[&str]) -> FileTree {
    let texts: Vec<(String, String)> = dirs
        .iter()
        .map(|d| {
            let name = &d[d.rfind('/').unwrap() + 1..];
            (format!("{d}/SKILL.md"), format!("---\nname: {name}\n---\n"))
        })
        .collect();
    let files: Vec<(&str, &str)> = texts.iter().map(|t| (t.0.as_str(), t.1.as_str())).collect();
    disk(&files, &[])
}

fn aider() -> Agent {
    let mut a = agent("aider");
    a.skill_dirs = names(&["/h/.aider/skills"]);
    a.project_skill_dirs = names(&[".aider/skills"]);
    a.global.skill_dir = Some("/h/.aider/skills".to_string());
    a
}

fn codex() -> Agent {
    let mut a = agent("codex");
    a.skill_dirs = names(&["/h/.agents/skills", "/h/.codex/skills"]);
    a.project_skill_dirs = names(&[".agents/skills"]);
    a.global.skill_dir = Some("/h/.agents/skills".to_string());
    let mut paths = no_paths();
    paths.skill_dir = Some("/h/proj/.agents/skills".to_string());
    a.projects = vec![ProjectPaths { project: "/h/proj".to_string(), paths }];
    a
}

fn gemini() -> Agent {
    let mut a = agent("gemini");
    a.skill_dirs = names(&["/h/.gemini/skills", "/h/.agents/skills"]);
    a.project_skill_dirs = names(&[".gemini/skills", ".agents/skills"]);
    a.global.skill_dir = Some("/h/.gemini/skills".to_string());
    a
}

fn seed_skill(store: &mut Store, name: &str, install_meta: Option<InstallMeta>) -> String {
    let id = stable_id_for(name, "skill", "aider");
    let mut ext = make_skill(ConfigScope::Global, install_meta);
    ext.id = id.clone();
    ext.name = name.to_string();
    ext.source_path = Some(format!("/h/.aider/skills/{name}/SKILL.md"));
    store.insert_extension(&ext);
    id
}

fn insert_skill_with_pack(
    store: &mut Store,
    id: &str,
    pack: Option<&str>,
    install_meta: Option<InstallMeta>,
) {
    let mut ext = make_skill(ConfigScope::Global, install_meta);
    ext.id = id.to_string();
    ext.name = id.to_string();
    store.insert_extension(&ext);
    if pack.is_some() {
        store.update_pack(id, pack);
    }
}

fn show_step(r: &Removal) -> String {
    format!("{:?}", r)
}

// --- updates ---------------------------------------------------------------

#[test]
fn test_is_update_eligible_global_skill() {
    assert!(is_update_eligible(&make_skill(ConfigScope::Global, None)));
    assert!(is_update_eligible(&make_skill(ConfigScope::Global, Some(meta()))));
}

#[test]
fn test_is_update_eligible_project_skill() {
    let proj = project("demo", "/p/demo");
    assert!(!is_update_eligible(&make_skill(proj.clone(), None)));
    assert!(is_update_eligible(&make_skill(proj, Some(meta()))));
}

#[test]
fn test_is_update_eligible_non_skill_kinds_skipped() {
    let mut mcp = make_skill(ConfigScope::Global, Some(meta()));
    mcp.kind = ExtensionKind::Mcp;
    assert!(!is_update_eligible(&mcp));
}

fn managed_copies() -> (Store, Extension) {
    let mut store = Store::new();
    let git = record("git", "https://github.com/owner/repo.git", None);
    let mut first = make_skill(ConfigScope::Global, Some(git));
    first.id = "skill-aider".to_string();
    first.name = "my-skill".to_string();
    first.source.from_manifest = true;
    first.source_path = Some("/home/u/.aider/skills/my-skill/SKILL.md".to_string());
    let mut second = first.clone();
    second.id = "skill-codex".to_string();
    second.source_path = Some("/home/u/.codex/skills/my-skill/SKILL.md".to_string());
    let mut third = first.clone();
    third.id = "skill-project".to_string();
    third.scope = project("p", "/p");
    store.insert_extension(&first);
    store.insert_extension(&second);
    store.insert_extension(&third);
    (store, first)
}

fn revision_of(store: &Store, id: &str) -> Option<String> {
    store.get_extension(id).unwrap().install_meta.unwrap().revision
}

#[test]
fn test_record_skill_revision_stamps_all_siblings() {
    let (mut store, first) = managed_copies();
    record_skill_revision(&mut store, &first, "abc123def456");
    for id in ["skill-aider", "skill-codex"] {
        assert_eq!(revision_of(&store, id).as_deref(), Some("abc123def456"));
    }
    assert_eq!(revision_of(&store, "skill-project"), None);
}

#[test]
fn a_revision_is_recorded_on_copies_without_a_path_too() {
    let (mut store, first) = managed_copies();
    let mut bare = first.clone();
    bare.id = "skill-bare".to_string();
    bare.source_path = None;
    bare.install_meta = None;
    store.insert_extension(&bare);
    let mut other = bare.clone();
    other.id = "other".to_string();
    other.name = "another-skill".to_string();
    store.insert_extension(&other);
    record_skill_revision(&mut store, &first, "abc");
    assert_eq!(revision_of(&store, "skill-bare").as_deref(), Some("abc"));
    assert!(store.get_extension("other").unwrap().install_meta.is_none());
}

#[test]
fn an_update_by_another_tool_records_the_newest_revision() {
    let (mut store, first) = managed_copies();
    let asked = RefCell::new(vec![]);
    let r = try_delegate_skill_update(
        &mut store,
        &first,
        |name, scope| {
            asked.borrow_mut().push((name, scope.is_global()));
            Ok(true)
        },
        |url| {
            assert_eq!(url, "https://github.com/owner/repo.git");
            Ok("head".to_string())
        },
    );
    assert!(matches!(r, Ok(true)));
    assert_eq!(asked.into_inner(), vec![("my-skill".to_string(), true)]);
    assert_eq!(revision_of(&store, "skill-codex").as_deref(), Some("head"));
}

#[test]
fn an_update_is_not_delegated_where_nobody_can_do_it() {
    let (mut store, first) = managed_copies();
    let own = make_skill(ConfigScope::Global, None);
    assert!(is_externally_managed(&first) && !is_externally_managed(&own));
    assert!(find_url_to_ask(&first, &Ok(true)).is_some());
    assert!(find_url_to_ask(&first, &Ok(false)).is_none());
    let r = try_delegate_skill_update(
        &mut store,
        &own,
        |_, _| panic!("must not be asked"),
        |_| panic!("must not be asked"),
    );
    assert!(matches!(r, Ok(false)));
    let r = try_delegate_skill_update(
        &mut store,
        &first,
        |_, _| Ok(false),
        |_| panic!("must not be asked"),
    );
    assert!(matches!(r, Ok(false)));
    let r = try_delegate_skill_update(
        &mut store,
        &first,
        |_, _| Err(HkError::CommandFailed("exit 1".to_string())),
        |_| panic!("must not be asked"),
    );
    assert!(matches!(r, Err(HkError::CommandFailed(m)) if m == "exit 1"));
    let r = try_delegate_skill_update(
        &mut store,
        &first,
        |_, _| Ok(true),
        |_| Err(HkError::Network("offline".to_string())),
    );
    assert!(matches!(r, Ok(true)));
    assert_eq!(revision_of(&store, "skill-codex"), None);
}

#[test]
fn test_same_scope() {
    let g = ConfigScope::Global;
    let p1 = project("a", "/a");
    let p2 = project("b", "/b");
    let p1_alias = project("renamed", "/a");
    assert!(same_scope(&g, &g));
    assert!(same_scope(&p1, &p1_alias));
    assert!(!same_scope(&g, &p1));
    assert!(!same_scope(&p1, &p2));
}

// --- paths -----------------------------------------------------------------

#[test]
fn paths_equal_textual_match_for_nonexistent_paths() {
    let p = "/nonexistent/path/x";
    assert!(paths_equal(&FileTree::new(), p, p));
}

#[test]
fn paths_equal_different_nonexistent_paths_not_equal() {
    assert!(!paths_equal(&FileTree::new(), "/nonexistent/a", "/nonexistent/b"));
}

#[test]
fn paths_equal_resolves_symlink_to_same_target() {
    let mut link = plain(true);
    link.is_dir = true;
    link.is_symlink = true;
    link.canonical = Some("/t/target".to_string());
    let fs = disk(&[], &["/t/target"]).with_path("/t/link", link);
    assert!(paths_equal(&fs, "/t/target", "/t/link"));
    assert!(paths_equal(&fs, "/t/link", "/t/target"));
}

#[test]
fn paths_equal_distinct_real_dirs_not_equal() {
    let fs = disk(&[], &["/t/a", "/t/b"]);
    assert!(!paths_equal(&fs, "/t/a", "/t/b"));
}

#[test]
fn agents_share_directories_by_scope() {
    let fs = FileTree::new();
    assert!(adapter_scans_dir(&fs, &gemini(), "/h/.agents/skills", &ConfigScope::Global));
    assert!(!adapter_scans_dir(&fs, &aider(), "/h/.agents/skills", &ConfigScope::Global));
    let scope = project("p", "/p");
    assert!(adapter_scans_dir(&fs, &codex(), "/p/.agents/skills", &scope));
    assert!(!adapter_scans_dir(&fs, &codex(), "/h/.agents/skills", &scope));
}

// --- copies that lead to the same file ---------------------------------------

fn two_rows(a: &str, b: &str) -> (Store, Extension) {
    let mut store = Store::new();
    let mut first = make_skill(ConfigScope::Global, Some(meta()));
    first.id = "a-row".to_string();
    first.name = "code-review".to_string();
    first.source_path = Some(a.to_string());
    store.insert_extension(&first);
    let mut second = first.clone();
    second.id = "b-row".to_string();
    second.agents = names(&["antigravity"]);
    second.source_path = Some(b.to_string());
    store.insert_extension(&second);
    (store, first)
}

fn linked_review() -> FileTree {
    let mut linked = plain(true);
    linked.is_file = true;
    linked.content = Some("shared".to_string());
    linked.canonical = Some("/t/aider/skills/code-review/SKILL.md".to_string());
    disk(&[("/t/aider/skills/code-review/SKILL.md", "shared")], &[])
        .with_path("/t/gemini/antigravity/skills/code-review/SKILL.md", linked)
}

#[test]
fn canonical_siblings_finds_symlinked_row() {
    let (store, first) = two_rows(
        "/t/aider/skills/code-review/SKILL.md",
        "/t/gemini/antigravity/skills/code-review/SKILL.md",
    );
    let siblings = find_canonical_skill_siblings(&store, &linked_review(), &first);
    assert_eq!(siblings, names(&["b-row"]));
}

#[test]
fn canonical_siblings_skips_unrelated_rows() {
    let (store, first) = two_rows("/t/a/code-review/SKILL.md", "/t/b/code-review/SKILL.md");
    let fs = disk(
        &[("/t/a/code-review/SKILL.md", "a"), ("/t/b/code-review/SKILL.md", "b")],
        &[],
    );
    assert!(find_canonical_skill_siblings(&store, &fs, &first).is_empty());
}

#[test]
fn canonical_siblings_returns_empty_when_no_source_path() {
    let target = make_skill(ConfigScope::Global, None);
    let siblings = find_canonical_skill_siblings(&Store::new(), &FileTree::new(), &target);
    assert!(siblings.is_empty());
}

// --- after an installation ---------------------------------------------------

#[test]
fn test_post_install_sync_empty_agents() {
    let mut store = Store::new();
    let result = post_install_sync(
        &mut store,
        &FileTree::new(),
        &vec![],
        &vec![],
        "test-skill",
        &None,
        None,
        &ConfigScope::Global,
        NOW,
        judge,
    );
    assert!(result.is_empty());
}

#[test]
fn test_post_install_sync_writes_install_meta_to_project_scoped_row() {
    let mut store = Store::new();
    let fs = disk(&[("/demo/.aider/skills/foo/SKILL.md", "---\nname: foo\n---\n")], &[]);
    let scope = project("demo", "/demo");
    let meta = record("git", "https://github.com/foo/bar", None);
    post_install_sync(
        &mut store,
        &fs,
        &vec![aider()],
        &names(&["aider"]),
        "foo",
        &Some(meta.clone()),
        None,
        &scope,
        NOW,
        judge,
    );
    let id = stable_id_with_scope_for("foo", "skill", "aider", &scope);
    let ext = store.get_extension(&id).expect("project-scoped row should exist after sync");
    assert_eq!(ext.install_meta.expect("install_meta should be set").url, meta.url);
    let global = store.get_extension(&stable_id_for("foo", "skill", "aider"));
    assert!(global.is_none() || global.unwrap().install_meta.is_none());
}

#[test]
fn test_post_install_sync_propagates_install_meta_to_cross_vendor_siblings() {
    let mut store = Store::new();
    let fs = disk_with_skills(&["/h/.agents/skills/qux"]);
    let mut install_meta = record("marketplace", "https://github.com/foo/bar/qux", Some("789xyz"));
    install_meta.url_resolved = Some("https://github.com/foo/bar.git".to_string());
    install_meta.subpath = Some("qux".to_string());
    let found = post_install_sync(
        &mut store,
        &fs,
        &vec![codex(), gemini()],
        &names(&["codex"]),
        "qux",
        &Some(install_meta.clone()),
        None,
        &ConfigScope::Global,
        NOW,
        judge,
    );
    assert_eq!(found.len(), 2);
    let codex_row = store.get_extension(&stable_id_for("qux", "skill", "codex")).unwrap();
    let gemini_row = store.get_extension(&stable_id_for("qux", "skill", "gemini")).unwrap();
    assert_eq!(codex_row.trust_score, Some(70));
    let codex_meta = codex_row.install_meta.unwrap();
    let gemini_meta = gemini_row.install_meta.unwrap();
    assert_eq!(codex_meta.url, install_meta.url);
    assert_eq!(gemini_meta.url, install_meta.url);
    assert_eq!(gemini_meta.revision, install_meta.revision);
}

#[test]
fn the_record_outlasts_the_scans_that_follow() {
    let mut store = Store::new();
    let fs = disk_with_skills(&["/h/.agents/skills/qux"]);
    let second = record("marketplace", "https://github.com/foo/bar/qux", Some("2"));
    for revision in ["1", "2"] {
        let given = record("marketplace", "https://github.com/foo/bar/qux", Some(revision));
        post_install_sync(
            &mut store,
            &fs,
            &vec![gemini(), codex(), aider()],
            &names(&["codex"]),
            "qux",
            &Some(given),
            Some("foo/bar"),
            &ConfigScope::Global,
            NOW,
            judge,
        );
    }
    for agent in ["codex", "gemini"] {
        let row = store.get_extension(&stable_id_for("qux", "skill", agent)).unwrap();
        assert_eq!(row.pack.as_deref(), Some("foo/bar"));
        assert_eq!(row.install_meta.unwrap().revision, second.revision);
    }
    assert!(store.get_extension(&stable_id_for("qux", "skill", "aider")).is_none());
}

#[test]
fn an_installation_is_audited_where_the_first_agent_is_unknown() {
    for given in [None, Some(record("git", "https://github.com/foo/bar", None))] {
        let mut store = Store::new();
        let fs = disk_with_skills(&["/h/.aider/skills/foo"]);
        let id = stable_id_for("foo", "skill", "aider");
        let found = post_install_sync(
            &mut store,
            &fs,
            &vec![aider()],
            &names(&["ghost", "aider"]),
            "foo",
            &given,
            None,
            &ConfigScope::Global,
            NOW,
            judge,
        );
        assert_eq!(found.len(), 1);
        let row = store.get_extension(&id).unwrap();
        assert_eq!(row.trust_score, Some(70));
        assert_eq!(row.install_meta.map(|m| m.url), given.map(|m| m.url));
    }
}

#[test]
fn an_installation_into_a_project_leaves_global_rows_alone() {
    let mut store = Store::new();
    let id = seed_skill(&mut store, "other", None);
    let fs = disk(&[("/demo/.aider/skills/foo/SKILL.md", "---\nname: foo\n---\n")], &[]);
    post_install_sync(
        &mut store,
        &fs,
        &vec![aider()],
        &names(&["aider"]),
        "foo",
        &Some(meta()),
        Some("x/y"),
        &project("demo", "/demo"),
        NOW,
        judge,
    );
    let row = store.get_extension(&id).unwrap();
    assert!(row.install_meta.is_none() && row.pack.is_none());
    let made = stable_id_with_scope_for("foo", "skill", "aider", &project("demo", "/demo"));
    assert_eq!(store.get_extension(&made).unwrap().pack.as_deref(), Some("x/y"));
}

// --- audits ------------------------------------------------------------------

#[test]
fn test_run_full_audit_empty_store() {
    let mut store = Store::new();
    let result = run_full_audit(&mut store, &FileTree::new(), &vec![], |inputs| {
        inputs.into_iter().map(judge).collect()
    });
    assert!(result.is_empty());
}

#[test]
fn an_empty_table_is_audited_as_nothing() {
    let mut store = Store::new();
    let stray = judge(
        inputs_for(&FileTree::new(), &vec![], &vec![make_skill(ConfigScope::Global, None)])
            .remove(0),
    );
    let results = run_full_audit(&mut store, &FileTree::new(), &vec![aider()], |inputs| {
        assert!(inputs.is_empty());
        vec![stray]
    });
    assert_eq!(results.len(), 1);
    assert!(store.list_extensions(None, None).is_empty());
}

#[test]
fn a_full_audit_records_the_scores() {
    let mut store = Store::new();
    let fs = disk_with_skills(&["/h/.aider/skills/foo"]);
    let id = seed_skill(&mut store, "foo", None);
    let results = run_full_audit(&mut store, &fs, &vec![aider()], |inputs| {
        assert_eq!(inputs.len(), 1);
        assert_eq!(inputs[0].content, "---\nname: foo\n---\n");
        assert_eq!(inputs[0].file_path, "/h/.aider/skills/foo/SKILL.md");
        let mut all: Vec<AuditResult> = inputs.into_iter().map(judge).collect();
        let mut stray = judge(inputs_for(&FileTree::new(), &vec![], &vec![make_skill(
            ConfigScope::Global,
            None,
        )])
        .remove(0));
        stray.extension_id = "unknown".to_string();
        all.push(stray);
        all
    });
    assert_eq!(results.len(), 2);
    assert_eq!(store.get_extension(&id).unwrap().trust_score, Some(70));
}

#[test]
fn an_audit_is_told_what_each_kind_holds() {
    let mut a = aider();
    let mut s = server("srv", "npx", &["-y", "srv"]);
    s.env = vec![("KEY".to_string(), "value".to_string())];
    a.mcp_servers = vec![s];
    let fs = disk(
        &[("/p/index.js", "eval(x)"), ("/a/helper.md.disabled", "Help.")],
        &[],
    );
    let mut mcp = make_skill(ConfigScope::Global, None);
    mcp.kind = ExtensionKind::Mcp;
    mcp.name = "srv".to_string();
    mcp.id = stable_id_for("srv", "mcp", "aider");
    let mut h = make_skill(ConfigScope::Global, None);
    h.kind = ExtensionKind::Hook;
    h.name = "Stop:*:echo a:b".to_string();
    let mut p = make_skill(ConfigScope::Global, None);
    p.kind = ExtensionKind::Plugin;
    p.source_path = Some("/p".to_string());
    let mut sub = make_skill(ConfigScope::Global, None);
    sub.kind = ExtensionKind::Subagent;
    sub.source_path = Some("/a/helper.md".to_string());
    let mut tool = make_skill(ConfigScope::Global, None);
    tool.kind = ExtensionKind::Cli;
    let inputs = inputs_for(&fs, &vec![a], &vec![mcp, h, p, sub, tool]);
    assert_eq!(inputs[0].mcp_command.as_deref(), Some("npx"));
    assert_eq!(inputs[0].mcp_args, names(&["-y", "srv"]));
    assert_eq!(inputs[0].mcp_env, vec![("KEY".to_string(), "value".to_string())]);
    assert_eq!(inputs[1].content, "echo a:b");
    assert_eq!(inputs[2].content, "// === index.js ===\neval(x)");
    assert_eq!(inputs[2].file_path, "/p");
    assert_eq!(inputs[3].content, "Help.");
    assert_eq!(inputs[3].file_path, "/a/helper.md.disabled");
    assert_eq!(inputs[4].content, "");
    let none = audit_extensions(&vec![], &fs, &vec![], |inputs| {
        inputs.into_iter().map(judge).collect()
    });
    assert!(none.is_empty());
}

#[test]
fn test_read_plugin_content_reads_js_files() {
    let fs = disk(&[("/p/index.js", "eval(user_input)"), ("/p/readme.md", "# Hello")], &[]);
    let content = read_plugin_content(&fs, "/p");
    assert!(content.contains("eval(user_input)"));
    assert!(!content.contains("# Hello"));
}

#[test]
fn test_read_plugin_content_empty_dir() {
    let content = read_plugin_content(&disk(&[], &["/p"]), "/p");
    assert!(content.is_empty());
}

#[test]
fn test_read_plugin_content_reads_single_file_plugin() {
    let fs = disk(&[("/p/plugin.ts", "export const value = 1;")], &[]);
    let content = read_plugin_content(&fs, "/p/plugin.ts");
    assert!(content.contains("plugin.ts"));
    assert!(content.contains("export const value = 1"));
}

// --- packs -------------------------------------------------------------------

#[test]
fn normalize_pack_preserves_canonical_form() {
    assert_eq!(normalize_pack("anthropics/skills"), "anthropics/skills");
    assert_eq!(normalize_pack("  baoyu/foo  "), "baoyu/foo");
}

#[test]
fn normalize_pack_strips_github_url_scheme_and_suffix() {
    assert_eq!(normalize_pack("https://github.com/anthropics/skills"), "anthropics/skills");
    assert_eq!(normalize_pack("http://github.com/anthropics/skills.git"), "anthropics/skills");
    assert_eq!(normalize_pack("github.com/anthropics/skills/"), "anthropics/skills");
}

#[test]
fn normalize_pack_handles_url_with_trailing_path() {
    assert_eq!(
        normalize_pack("https://github.com/anthropics/skills/tree/main"),
        "anthropics/skills"
    );
    assert_eq!(
        normalize_pack("https://github.com/anthropics/skills/issues/42"),
        "anthropics/skills"
    );
}

#[test]
fn normalize_pack_handles_ssh_clone_url() {
    assert_eq!(normalize_pack("git@github.com:anthropics/skills.git"), "anthropics/skills");
    assert_eq!(normalize_pack("git@github.com:anthropics/skills"), "anthropics/skills");
}

#[test]
fn pasted_addresses_give_the_pack() {
    for start in ["https://github.com/", "http://github.com/", "github.com/", "git@github.com:"] {
        for end in ["", "/", ".git", ".git/", "/tree/main", ".git/tree/main", "/issues/42"] {
            let pasted = format!(" {}anthropics/skills{} ", start, end);
            assert_eq!(normalize_pack(&pasted), "anthropics/skills", "{}", pasted);
        }
    }
}

#[test]
fn addresses_on_other_hosts_stay_as_they_are() {
    for pasted in [
        "git@gitlab.com:org/project.git",
        "https://gitlab.com/org/project.git",
        "git@github.com.example.org:org/project",
        "git@github.com:https://gitlab.com/org/project",
        "ssh://git@github.com/org/project",
        "https://github.com/org",
        "https://github.com/org/.git",
    ] {
        assert_eq!(normalize_pack(&format!(" {} ", pasted)), pasted);
    }
    assert_eq!(normalize_pack("https://github.com/anthropics/skills.git/"), "anthropics/skills");
    assert_eq!(normalize_pack("owner/repo.git"), "owner/repo.git");
    assert_eq!(normalize_pack("owner/repo/subpath"), "owner/repo");
}

#[test]
fn normalize_pack_returns_input_when_no_pattern_matches() {
    assert_eq!(normalize_pack("not-a-pack"), "not-a-pack");
    assert_eq!(normalize_pack("https://example.com/foo/bar"), "https://example.com/foo/bar");
}

#[test]
fn is_valid_pack_format_accepts_owner_repo() {
    assert!(is_valid_pack_format("anthropics/skills"));
    assert!(is_valid_pack_format("user-name/repo.name"));
    assert!(is_valid_pack_format("a_b/c.d-e"));
}

#[test]
fn is_valid_pack_format_rejects_malformed() {
    assert!(!is_valid_pack_format(""));
    assert!(!is_valid_pack_format("noslash"));
    assert!(!is_valid_pack_format("a/b/c"));
    assert!(!is_valid_pack_format("/repo"));
    assert!(!is_valid_pack_format("owner/"));
    assert!(!is_valid_pack_format("https://github.com/a/b"));
    assert!(!is_valid_pack_format("a b/c"));
}

#[test]
fn is_valid_pack_format_rejects_host_shaped_owner() {
    assert!(!is_valid_pack_format("gitlab.com/foo"));
    assert!(!is_valid_pack_format("google.com/foo"));
    assert!(is_valid_pack_format("user/repo.name"));
}

#[test]
fn bind_pack_accepts_url_input() {
    let mut store = Store::new();
    insert_skill_with_pack(&mut store, "row1", None, None);
    bind_pack(&mut store, &names(&["row1"]), Some("https://github.com/anthropics/skills.git"));
    let row = store.get_extension("row1").unwrap();
    assert_eq!(row.pack.as_deref(), Some("anthropics/skills"));
    let meta = row.install_meta.expect("URL input must synthesize meta");
    assert_eq!(meta.install_type, INSTALL_TYPE_MANUAL);
    assert_eq!(meta.url.as_deref(), Some("https://github.com/anthropics/skills.git"));
}

#[test]
fn bind_pack_synthesizes_meta_when_none() {
    let mut store = Store::new();
    insert_skill_with_pack(&mut store, "row1", None, None);
    bind_pack(&mut store, &names(&["row1"]), Some("baoyu/skills"));
    let row = store.get_extension("row1").unwrap();
    let meta = row.install_meta.expect("manual meta should be synthesized");
    assert_eq!(meta.install_type, INSTALL_TYPE_MANUAL);
    assert_eq!(meta.url.as_deref(), Some("https://github.com/baoyu/skills.git"));
    assert!(meta.revision.is_none());
    assert_eq!(row.pack.as_deref(), Some("baoyu/skills"));
}

#[test]
fn bind_pack_refreshes_manual_meta_url() {
    let mut store = Store::new();
    insert_skill_with_pack(&mut store, "row1", Some("old/repo"), None);
    bind_pack(&mut store, &names(&["row1"]), Some("old/repo"));
    bind_pack(&mut store, &names(&["row1"]), Some("new/repo"));
    let meta = store.get_extension("row1").unwrap().install_meta.unwrap();
    assert_eq!(meta.install_type, INSTALL_TYPE_MANUAL);
    assert_eq!(meta.url.as_deref(), Some("https://github.com/new/repo.git"));
}

#[test]
fn bind_pack_clears_manual_meta_on_empty_pack() {
    let mut store = Store::new();
    insert_skill_with_pack(&mut store, "row1", None, None);
    bind_pack(&mut store, &names(&["row1"]), Some("foo/bar"));
    assert!(store.get_extension("row1").unwrap().install_meta.is_some());
    bind_pack(&mut store, &names(&["row1"]), None);
    let row = store.get_extension("row1").unwrap();
    assert!(row.install_meta.is_none());
    assert!(row.pack.is_none());
}

#[test]
fn bind_pack_preserves_real_install_meta() {
    let mut store = Store::new();
    let real_meta = record("git", "https://github.com/actual/source.git", Some("abc1234"));
    insert_skill_with_pack(&mut store, "row1", None, Some(real_meta.clone()));
    bind_pack(&mut store, &names(&["row1"]), Some("user/typed"));
    let row = store.get_extension("row1").unwrap();
    let meta = row.install_meta.expect("real meta must remain");
    assert_eq!(meta.install_type, "git");
    assert_eq!(meta.url, real_meta.url);
    assert_eq!(meta.revision, real_meta.revision);
    assert_eq!(row.pack.as_deref(), Some("user/typed"));
}

#[test]
fn bind_pack_skips_synthesis_for_invalid_pack() {
    let mut store = Store::new();
    insert_skill_with_pack(&mut store, "row1", None, None);
    bind_pack(&mut store, &names(&["row1"]), Some("not-a-pack"));
    let row = store.get_extension("row1").unwrap();
    assert!(row.install_meta.is_none(), "no meta for invalid pack");
    assert_eq!(row.pack.as_deref(), Some("not-a-pack"));
}

#[test]
fn bind_pack_skips_non_skill_kinds() {
    let mut store = Store::new();
    let mut mcp = make_skill(ConfigScope::Global, None);
    mcp.id = "mcp-row".to_string();
    mcp.name = "mcp-row".to_string();
    mcp.kind = ExtensionKind::Mcp;
    store.insert_extension(&mcp);
    bind_pack(&mut store, &names(&["mcp-row"]), Some("foo/bar"));
    let row = store.get_extension("mcp-row").unwrap();
    assert!(row.install_meta.is_none());
    assert_eq!(row.pack.as_deref(), Some("foo/bar"));
}

#[test]
fn bind_pack_batches_across_group_instances() {
    let mut store = Store::new();
    insert_skill_with_pack(&mut store, "a", None, None);
    insert_skill_with_pack(&mut store, "b", None, None);
    insert_skill_with_pack(&mut store, "c", None, None);
    bind_pack(&mut store, &names(&["a", "b", "c"]), Some("group/key"));
    for id in ["a", "b", "c"] {
        let meta = store
            .get_extension(id)
            .unwrap()
            .install_meta
            .unwrap_or_else(|| panic!("row {id} missing meta"));
        assert_eq!(meta.install_type, INSTALL_TYPE_MANUAL);
        assert_eq!(meta.url.as_deref(), Some("https://github.com/group/key.git"));
    }
}

#[test]
fn migrate_pack_to_manual_meta_fills_legacy_rows() {
    let mut store = Store::new();
    insert_skill_with_pack(&mut store, "legacy", Some("baoyu/skills"), None);
    insert_skill_with_pack(&mut store, "bound", None, None);
    bind_pack(&mut store, &names(&["bound"]), Some("foo/bar"));
    let real_meta = record("git", "https://example.com/real.git", Some("real-rev"));
    insert_skill_with_pack(&mut store, "real", Some("any/pack"), Some(real_meta.clone()));
    insert_skill_with_pack(&mut store, "invalid", Some("not-a-pack"), None);

    let migrated = migrate_pack_to_manual_meta(&mut store);
    assert_eq!(migrated, 1, "only the legacy row should migrate");
    let legacy = store.get_extension("legacy").unwrap().install_meta.unwrap();
    assert_eq!(legacy.install_type, INSTALL_TYPE_MANUAL);
    assert_eq!(legacy.url.as_deref(), Some("https://github.com/baoyu/skills.git"));
    let real = store.get_extension("real").unwrap().install_meta.unwrap();
    assert_eq!(real.url, real_meta.url, "real install meta untouched");
    assert!(store.get_extension("invalid").unwrap().install_meta.is_none());
    assert_eq!(migrate_pack_to_manual_meta(&mut store), 0);
}

#[test]
fn migrated_packs_get_their_short_form() {
    let mut store = Store::new();
    insert_skill_with_pack(&mut store, "row", Some("https://github.com/a/b.git"), None);
    assert_eq!(migrate_pack_to_manual_meta(&mut store), 1);
    assert_eq!(store.get_extension("row").unwrap().pack.as_deref(), Some("a/b"));
}

// --- removal -----------------------------------------------------------------

fn bare_machine() -> Machine {
    Machine {
        platform: Platform::Linux,
        home: None,
        config_dir: None,
        which: vec![],
        versions: vec![],
    }
}

#[test]
fn test_delete_extension_removes_hermes_plugin_dir_and_enabled_entry() {
    let mut hermes = agent("hermes");
    hermes.plugin_config_path = "/h/.hermes/config.yaml".to_string();
    hermes.plugins = vec![plugin("weather", "", Some("/h/.hermes/plugins/weather"))];
    let fs = disk(
        &[
            ("/h/.hermes/plugins/weather/plugin.yaml", "name: weather\nversion: 1.0.0\n"),
            ("/h/.hermes/config.yaml", "plugins:\n  enabled:\n    - weather\n"),
        ],
        &[],
    );
    let agents = vec![hermes];
    let mut store = Store::new();
    let exts = scan_all(&fs, &bare_machine(), &agents, &vec![], NOW);
    store.sync_extensions(&fs, &exts);
    let all = store.list_extensions(None, None);
    let found = all
        .iter()
        .find(|e| e.kind == ExtensionKind::Plugin && e.name == "weather")
        .expect("scanned hermes plugin should be in the store");
    assert!(found.enabled, "weather plugin should scan as enabled");

    let done = RefCell::new(vec![]);
    delete_extension(&mut store, &fs, &agents, &found.id, |step| {
        done.borrow_mut().push(show_step(&step));
        Ok(())
    })
    .unwrap();
    assert_eq!(
        done.into_inner(),
        vec![
            show_step(&Removal::Path("/h/.hermes/plugins/weather".to_string())),
            show_step(&Removal::HermesPlugin {
                config: "/h/.hermes/config.yaml".to_string(),
                name: "weather".to_string(),
            }),
        ]
    );
    assert!(store.get_extension(&found.id).is_none());
}

fn steps_for_plugin(a: Agent) -> Vec<String> {
    let mut e = make_skill(ConfigScope::Global, None);
    e.kind = ExtensionKind::Plugin;
    e.agents = vec![a.name.clone()];
    e.id = stable_id_for(&format!("{}:{}", a.plugins[0].name, a.plugins[0].source), "plugin", &a.name);
    hk_core::service::removal::plan_removal(&FileTree::new(), &vec![a], &e, &vec![], &e.id)
        .iter()
        .map(show_step)
        .collect()
}

#[test]
fn agents_differ_in_what_is_removed_with_a_plugin() {
    let mut a = agent("listed");
    a.plugins_are_entries = true;
    a.plugin_config_path = "/c".to_string();
    a.plugins = vec![plugin("n", "src", Some("/p/n"))];
    assert_eq!(
        steps_for_plugin(a),
        vec![show_step(&Removal::PluginEntry { config: "/c".to_string(), key: "n@src".to_string() })]
    );
    let mut a = agent("codex");
    a.mcp_config_path = "/codex.toml".to_string();
    a.plugins = vec![plugin("n", "", Some("/h/plugins/cache/n/v1"))];
    assert_eq!(
        steps_for_plugin(a),
        vec![
            show_step(&Removal::Path("/h/plugins/cache/n".to_string())),
            show_step(&Removal::CodexPlugin {
                config: "/codex.toml".to_string(),
                key: "n".to_string()
            }),
        ]
    );
    let mut a = agent("gemini");
    a.base_dir = "/h/.gemini".to_string();
    a.plugins = vec![plugin("n", "", None)];
    assert_eq!(
        steps_for_plugin(a),
        vec![show_step(&Removal::GeminiExtension {
            dir: "/h/.gemini/extensions".to_string(),
            name: "n".to_string()
        })]
    );
    let mut a = agent("copilot");
    a.vscode_user_dir = Some("/vs".to_string());
    a.plugins = vec![plugin("n", "", Some("/p/n"))];
    a.plugins[0].uri = Some("file:///p/n".to_string());
    assert_eq!(
        steps_for_plugin(a),
        vec![
            show_step(&Removal::Path("/p/n".to_string())),
            show_step(&Removal::VscodePlugin {
                dir: "/vs".to_string(),
                uri: "file:///p/n".to_string()
            }),
        ]
    );
    let mut a = agent("other");
    a.plugins = vec![plugin("n", "", Some("/p/n"))];
    assert_eq!(steps_for_plugin(a), vec![show_step(&Removal::Path("/p/n".to_string()))]);
    assert_eq!(find_codex_dir("/h/plugins/n"), "/h/plugins/n");
    assert_eq!(find_codex_dir("/h/cache/n"), "/h/cache/n");
}

#[test]
fn deleting_a_shared_skill_removes_its_copies() {
    let mut store = Store::new();
    let id = seed_skill(&mut store, "foo", None);
    let mut copy = store.get_extension(&id).unwrap();
    copy.id = "copy".to_string();
    copy.source_path = Some("/link/foo/SKILL.md".to_string());
    store.insert_extension(&copy);
    let mut facts = plain(true);
    facts.is_file = true;
    facts.canonical = Some("/h/.aider/skills/foo/SKILL.md".to_string());
    let fs = disk_with_skills(&["/h/.aider/skills/foo"]).with_path("/link/foo/SKILL.md", facts);
    let done = RefCell::new(vec![]);
    delete_extension(&mut store, &fs, &vec![aider()], &id, |step| {
        done.borrow_mut().push(show_step(&step));
        Ok(())
    })
    .unwrap();
    assert_eq!(
        done.into_inner(),
        vec![show_step(&Removal::Dir("/h/.aider/skills/foo".to_string()))]
    );
    assert!(store.get_extension(&id).is_none());
    assert!(store.get_extension("copy").is_none());
    delete_extension(&mut store, &fs, &vec![aider()], &id, |_| panic!("nothing to do")).unwrap();
}

#[test]
fn a_failed_step_leaves_the_table_alone() {
    let mut store = Store::new();
    let id = seed_skill(&mut store, "foo", None);
    let fs = disk_with_skills(&["/h/.aider/skills/foo"]);
    let err = delete_extension(&mut store, &fs, &vec![aider()], &id, |_| {
        Err(HkError::PermissionDenied("read-only".to_string()))
    })
    .unwrap_err();
    assert!(matches!(err, HkError::PermissionDenied(m) if m == "read-only"));
    assert!(store.get_extension(&id).is_some());
}

#[test]
fn a_removal_is_finished_by_its_replies() {
    let mut store = Store::new();
    let id = seed_skill(&mut store, "foo", None);
    let fs = disk_with_skills(&["/h/.aider/skills/foo"]);
    assert!(begin_removal(&store, &fs, &vec![aider()], "unknown").is_none());
    let plan = begin_removal(&store, &fs, &vec![aider()], &id).unwrap();
    assert_eq!(plan.steps.len(), 1);
    let denied = || Err(HkError::PermissionDenied("read-only".to_string()));
    assert!(may_go_on(&plan.steps[0], &Ok(())) && !may_go_on(&plan.steps[0], &denied()));
    let editor = Removal::VscodePlugin { dir: String::new(), uri: String::new() };
    assert!(may_go_on(&editor, &denied()));
    let err = finish_removal(&mut store, &plan, vec![]).unwrap_err();
    assert!(matches!(err, HkError::Internal(_)));
    let err = finish_removal(&mut store, &plan, vec![denied()]).unwrap_err();
    assert!(matches!(err, HkError::PermissionDenied(m) if m == "read-only"));
    assert!(store.get_extension(&id).is_some());
    finish_removal(&mut store, &plan, vec![Ok(())]).unwrap();
    assert!(store.get_extension(&id).is_none());
}

#[test]
fn replies_to_reading_and_writing_are_passed_on() {
    let shown = finish_reading("/d".to_string(), None, Ok("text".to_string())).unwrap();
    assert_eq!((shown.content.as_str(), shown.path.as_deref()), ("text", Some("/d")));
    let lost = || HkError::NotFound("gone".to_string());
    let err = finish_reading("/d".to_string(), None, Err(lost())).unwrap_err();
    assert!(matches!(err, HkError::NotFound(m) if m == "gone"));
    let mut store = Store::new();
    let id = seed_skill(&mut store, "foo", None);
    let e = store.get_extension(&id).unwrap();
    let d = Deployment::Skill { source: "/s".to_string(), target_dir: "/t".to_string() };
    let mut finish = |reply: Result<Deployed, HkError>| {
        finish_install(&mut store, &e, &d, "aider", &ConfigScope::Global, NOW, reply, judge)
    };
    assert!(matches!(finish(Err(lost())), Err(HkError::NotFound(m)) if m == "gone"));
    let done = Deployed { name: "foo-2".to_string(), fs: FileTree::new(), agents: vec![] };
    assert_eq!(finish(Ok(done)).unwrap(), "foo-2");
}

#[test]
fn the_editor_may_refuse() {
    let mut a = agent("copilot");
    a.vscode_user_dir = Some("/vs".to_string());
    a.plugins = vec![plugin("n", "", None)];
    a.plugins[0].uri = Some("file:///p/n".to_string());
    let mut store = Store::new();
    let mut e = make_skill(ConfigScope::Global, None);
    e.kind = ExtensionKind::Plugin;
    e.agents = names(&["copilot"]);
    e.id = stable_id_for("n:", "plugin", "copilot");
    store.insert_extension(&e);
    delete_extension(&mut store, &FileTree::new(), &vec![a], &e.id, |_| {
        Err(HkError::Database("locked".to_string()))
    })
    .unwrap();
    assert!(store.get_extension(&e.id).is_none());
}

#[test]
fn servers_hooks_and_files_are_removed_where_they_stand() {
    let mut a = aider();
    a.global.mcp_config = Some("/mcp.json".to_string());
    a.global.hook_configs = names(&["/hooks.json"]);
    a.mcp_files = vec![McpFile {
        path: "/mcp.json".to_string(),
        servers: vec![server("one", "a", &[]), server("two", "b", &[])],
    }];
    a.hook_files = vec![HookFile {
        path: "/hooks.json".to_string(),
        hooks: vec![hook("Stop", None, "say done")],
    }];
    let fs = disk(&[("/a/x.md.disabled", "off")], &[]);
    let agents = vec![a];
    let mut e = make_skill(ConfigScope::Global, None);
    e.kind = ExtensionKind::Mcp;
    e.id = stable_id_for("two", "mcp", "aider");
    let steps = |e: &Extension| -> Vec<String> {
        hk_core::service::removal::plan_removal(&fs, &agents, e, &vec![], &e.id)
            .iter()
            .map(show_step)
            .collect()
    };
    assert_eq!(
        steps(&e),
        vec![show_step(&Removal::Server {
            config: "/mcp.json".to_string(),
            name: "two".to_string(),
            agent: "aider".to_string()
        })]
    );
    e.kind = ExtensionKind::Hook;
    e.id = stable_id_for("Stop:*:say done", "hook", "aider");
    assert_eq!(
        steps(&e),
        vec![show_step(&Removal::Hook {
            config: "/hooks.json".to_string(),
            event: "Stop".to_string(),
            matcher: None,
            command: "say done".to_string(),
            agent: "aider".to_string()
        })]
    );
    e.kind = ExtensionKind::Command;
    e.source_path = Some("/a/x.md".to_string());
    assert_eq!(steps(&e), vec![show_step(&Removal::File("/a/x.md.disabled".to_string()))]);
    e.kind = ExtensionKind::Cli;
    assert!(steps(&e).is_empty());
}

// --- reading -----------------------------------------------------------------

fn no_read(_: String) -> Result<String, HkError> {
    panic!("nothing to read")
}

#[test]
fn content_of_a_skill_is_its_file() {
    let mut store = Store::new();
    let id = seed_skill(&mut store, "foo", None);
    let mut linked = plain(true);
    linked.is_dir = true;
    linked.is_symlink = true;
    linked.link_target = Some("/dev/skills".to_string());
    linked.children = Some(names(&["/h/.aider/skills/foo"]));
    let fs =
        disk_with_skills(&["/h/.aider/skills/foo"]).with_path("/h/.aider/skills", linked);
    let c = get_extension_content(&store, &fs, &vec![aider()], &id, |p| {
        assert_eq!(p, "/h/.aider/skills/foo/SKILL.md");
        Ok("text".to_string())
    })
    .unwrap();
    assert_eq!(c.content, "text");
    assert_eq!(c.path.as_deref(), Some("/h/.aider/skills/foo"));
    assert_eq!(c.symlink_target.as_deref(), Some("/dev/skills/foo"));
    let err = get_extension_content(&store, &FileTree::new(), &vec![aider()], &id, no_read);
    assert!(matches!(err, Err(HkError::NotFound(m)) if m == "Skill file not found"));
    let err = get_extension_content(&store, &fs, &vec![], "nothing", no_read);
    assert!(matches!(err, Err(HkError::NotFound(m)) if m == "Extension not found"));
    let err = get_extension_content(&store, &fs, &vec![aider()], &id, |_| {
        Err(HkError::Internal("disk".to_string()))
    });
    assert!(matches!(err, Err(HkError::Internal(m)) if m == "disk"));
}

#[test]
fn content_of_servers_and_hooks_is_a_summary() {
    let mut a = aider();
    a.global.mcp_config = Some("/mcp.json".to_string());
    a.global.hook_config = Some("/hooks.json".to_string());
    let mut s = server("srv", "npx", &["-y", "srv"]);
    s.env = vec![("TOKEN".to_string(), "hidden".to_string())];
    a.mcp_files = vec![McpFile { path: "/mcp.json".to_string(), servers: vec![s] }];
    a.hook_files = vec![HookFile {
        path: "/hooks.json".to_string(),
        hooks: vec![hook("PreToolUse", Some("Bash"), "echo hi")],
    }];
    let mut agents = vec![a];
    let mut store = Store::new();
    let mut e = make_skill(ConfigScope::Global, None);
    e.kind = ExtensionKind::Mcp;
    e.id = stable_id_for("srv", "mcp", "aider");
    e.description = "described".to_string();
    store.insert_extension(&e);
    let fs = FileTree::new();
    let c = get_extension_content(&store, &fs, &agents, &e.id, no_read).unwrap();
    assert_eq!(c.content, "Command: npx\nArgs: -y srv\nEnvironment:\n  TOKEN = ****");
    assert_eq!(c.path.as_deref(), Some("/mcp.json"));
    agents[0].mcp_files[0].servers[0].env[0].1 = String::new();
    let same = get_extension_content(&store, &fs, &agents, &e.id, no_read).unwrap();
    assert_eq!(same.content, c.content);
    e.id = "gone".to_string();
    store.insert_extension(&e);
    let c = get_extension_content(&store, &fs, &agents, "gone", no_read).unwrap();
    assert_eq!(c.content, "described");
    assert_eq!(c.path.as_deref(), Some("/mcp.json"));
    e.kind = ExtensionKind::Hook;
    e.id = stable_id_for("PreToolUse:Bash:echo hi", "hook", "aider");
    store.insert_extension(&e);
    let c = get_extension_content(&store, &fs, &agents, &e.id, no_read).unwrap();
    assert_eq!(c.content, "Event: PreToolUse\nMatcher: Bash\nCommand: echo hi");
    assert_eq!(c.path.as_deref(), Some("/hooks.json"));
}

#[test]
fn content_of_a_plugin_is_its_introduction() {
    let fs = disk(
        &[
            ("/r/README.md", "of the repository"),
            ("/r/plugins/a/readme.md", "of the plugin"),
            ("/r/plugins/b/plugin.json", "{}"),
            ("/r/plugins/c.ts", "code"),
        ],
        &["/r/.git"],
    );
    assert_eq!(read_plugin_detail(&fs, "/r/plugins/a", "none"), "of the plugin");
    assert_eq!(read_plugin_detail(&fs, "/r/plugins/b", "none"), "of the repository");
    assert_eq!(read_plugin_detail(&fs, "/r/plugins/c.ts", "none"), "code");
    assert_eq!(read_plugin_detail(&fs, "/elsewhere", "none"), "none");

    let mut a = agent("other");
    a.plugins = vec![plugin("a", "", Some("/r/plugins/a"))];
    let mut store = Store::new();
    let mut e = make_skill(ConfigScope::Global, None);
    e.kind = ExtensionKind::Plugin;
    e.agents = names(&["other"]);
    e.id = stable_id_for("a:", "plugin", "other");
    store.insert_extension(&e);
    let c = get_extension_content(&store, &fs, &vec![a], &e.id, no_read).unwrap();
    assert_eq!(c.content, "of the plugin");
    assert_eq!(c.path.as_deref(), Some("/r/plugins/a"));
}

#[test]
fn content_of_a_command_may_be_disabled() {
    let mut store = Store::new();
    let mut e = make_skill(ConfigScope::Global, None);
    e.kind = ExtensionKind::Command;
    store.insert_extension(&e);
    let fs = FileTree::new();
    let err = get_extension_content(&store, &fs, &vec![], &e.id, no_read);
    assert!(matches!(err, Err(HkError::NotFound(m)) if m == "Extension source path missing"));
    e.id = "second".to_string();
    e.source_path = Some("/c/check.md".to_string());
    store.insert_extension(&e);
    let c = get_extension_content(&store, &fs, &vec![], "second", |p| Ok(p)).unwrap();
    assert_eq!(c.content, "/c/check.md.disabled");
    assert_eq!(c.path.as_deref(), Some("/c/check.md.disabled"));
}

// --- installing --------------------------------------------------------------

fn deployed(name: &str, fs: FileTree, agents: Vec<Agent>) -> Result<Deployed, HkError> {
    Ok(Deployed { name: name.to_string(), fs, agents })
}

#[test]
fn test_install_to_agent_propagates_install_meta() {
    let mut store = Store::new();
    let mut install_meta = record("marketplace", "https://github.com/foo/bar/foo", Some("abc123"));
    install_meta.url_resolved = Some("https://github.com/foo/bar.git".to_string());
    install_meta.subpath = Some("foo".to_string());
    let id = seed_skill(&mut store, "foo", Some(install_meta.clone()));
    let fs = disk_with_skills(&["/h/.aider/skills/foo"]);
    let agents = vec![aider(), codex()];
    let name = install_to_agent(
        &mut store,
        &fs,
        &agents,
        &id,
        "codex",
        None,
        &ConfigScope::Global,
        NOW,
        |d| {
            assert!(matches!(&d, Deployment::Skill { source, target_dir }
                if source == "/h/.aider/skills/foo" && target_dir == "/h/.agents/skills"));
            deployed(
                "foo",
                disk_with_skills(&["/h/.aider/skills/foo", "/h/.agents/skills/foo"]),
                vec![aider(), codex()],
            )
        },
        judge,
    )
    .unwrap();
    assert_eq!(name, "foo");
    let target = store.get_extension(&stable_id_for("foo", "skill", "codex")).unwrap();
    let target_meta =
        target.install_meta.expect("target row should have install_meta propagated from source");
    assert_eq!(target_meta.install_type, install_meta.install_type);
    assert_eq!(target_meta.url, install_meta.url);
    assert_eq!(target_meta.url_resolved, install_meta.url_resolved);
    assert_eq!(target_meta.subpath, install_meta.subpath);
    assert_eq!(target_meta.revision, install_meta.revision);
}

#[test]
fn test_install_to_agent_skips_when_source_has_no_install_meta() {
    let mut store = Store::new();
    let id = seed_skill(&mut store, "bar", None);
    let fs = disk_with_skills(&["/h/.aider/skills/bar"]);
    install_to_agent(
        &mut store,
        &fs,
        &vec![aider(), codex()],
        &id,
        "codex",
        None,
        &ConfigScope::Global,
        NOW,
        |_| {
            deployed(
                "bar",
                disk_with_skills(&["/h/.aider/skills/bar", "/h/.agents/skills/bar"]),
                vec![aider(), codex()],
            )
        },
        judge,
    )
    .unwrap();
    if let Some(row) = store.get_extension(&stable_id_for("bar", "skill", "codex")) {
        assert!(row.install_meta.is_none());
    }
}

#[test]
fn test_install_to_agent_propagates_install_meta_to_cross_vendor_siblings() {
    let mut store = Store::new();
    let install_meta = record("marketplace", "https://github.com/foo/bar/baz", Some("def456"));
    let id = seed_skill(&mut store, "baz", Some(install_meta.clone()));
    let fs = disk_with_skills(&["/h/.aider/skills/baz"]);
    install_to_agent(
        &mut store,
        &fs,
        &vec![aider(), codex(), gemini()],
        &id,
        "codex",
        None,
        &ConfigScope::Global,
        NOW,
        |_| {
            deployed(
                "baz",
                disk_with_skills(&["/h/.aider/skills/baz", "/h/.agents/skills/baz"]),
                vec![aider(), codex(), gemini()],
            )
        },
        judge,
    )
    .unwrap();
    let codex_meta = store
        .get_extension(&stable_id_for("baz", "skill", "codex"))
        .unwrap()
        .install_meta
        .expect("codex row should carry install_meta");
    let gemini_meta = store
        .get_extension(&stable_id_for("baz", "skill", "gemini"))
        .unwrap()
        .install_meta
        .expect("gemini sibling must also carry propagated install_meta");
    assert_eq!(codex_meta.url, install_meta.url);
    assert_eq!(gemini_meta.url, install_meta.url);
    assert_eq!(gemini_meta.revision, install_meta.revision);
}

/// The error of an installation for which nothing may be written.
fn refused(
    store: &mut Store,
    fs: &FileTree,
    agents: &Vec<Agent>,
    id: &str,
    target: &str,
    scope: &ConfigScope,
) -> HkError {
    let write = |_| panic!("nothing must be written");
    install_to_agent(store, fs, agents, id, target, None, scope, NOW, write, judge).unwrap_err()
}

#[test]
fn test_install_to_agent_skill_lands_in_project_scope() {
    let mut store = Store::new();
    let scope = register(&mut store, "proj", "/h/proj");
    let id = seed_skill(&mut store, "foo", None);
    let fs = disk_with_skills(&["/h/.aider/skills/foo"]);
    let name = install_to_agent(
        &mut store,
        &fs,
        &vec![aider(), codex()],
        &id,
        "codex",
        None,
        &scope,
        NOW,
        |d| {
            assert!(matches!(d, Deployment::Skill { target_dir, .. }
                if target_dir == "/h/proj/.agents/skills"));
            deployed("foo", FileTree::new(), vec![])
        },
        judge,
    )
    .unwrap();
    assert_eq!(name, "foo");
}

#[test]
fn test_install_to_agent_rejects_unregistered_project() {
    let mut store = Store::new();
    let id = seed_skill(&mut store, "foo", None);
    let fs = disk_with_skills(&["/h/.aider/skills/foo"]);
    let err = install_to_agent(
        &mut store,
        &fs,
        &vec![aider()],
        &id,
        "aider",
        None,
        &project("ghost", "/h/ghost"),
        NOW,
        |_| panic!("nothing must be written"),
        judge,
    )
    .unwrap_err();
    assert!(
        matches!(&err, HkError::Validation(msg) if msg.contains("not registered")),
        "expected unregistered-project rejection, got: {err:?}"
    );
}

#[test]
fn test_install_to_agent_hermes_has_no_project_skills() {
    let mut store = Store::new();
    let scope = register(&mut store, "proj", "/h/proj");
    let id = seed_skill(&mut store, "foo", None);
    let fs = disk_with_skills(&["/h/.aider/skills/foo"]);
    let agents = vec![aider(), agent("hermes")];
    let err = refused(&mut store, &fs, &agents, &id, "hermes", &scope);
    assert!(
        matches!(&err, HkError::Validation(msg) if msg.contains("no skill directory")),
        "got: {err:?}"
    );
}

#[test]
fn a_category_chooses_the_directory() {
    let mut store = Store::new();
    let id = seed_skill(&mut store, "foo", None);
    let fs = disk_with_skills(&["/h/.aider/skills/foo"]);
    let mut hermes = agent("hermes");
    hermes.global.skill_dir = Some("/h/.hermes/skills".to_string());
    hermes.global.category_dirs =
        vec![("web".to_string(), "/h/.hermes/skills/web".to_string())];
    let agents = vec![aider(), hermes];
    let dir = |category: Option<&str>| {
        match plan_install(&store, &fs, &agents, &id, "hermes", category, &ConfigScope::Global) {
            Ok(Deployment::Skill { target_dir, .. }) => target_dir,
            other => panic!("unexpected {other:?}"),
        }
    };
    assert_eq!(dir(Some("web")), "/h/.hermes/skills/web");
    assert_eq!(dir(Some("other")), "/h/.hermes/skills");
    assert_eq!(dir(None), "/h/.hermes/skills");
}

#[test]
fn test_install_to_agent_mcp_project_scope_and_windsurf_rejection() {
    let mut store = Store::new();
    let scope = register(&mut store, "proj", "/h/proj");
    let mut source = aider();
    source.global.mcp_config = Some("/h/.aider.json".to_string());
    source.mcp_files = vec![McpFile {
        path: "/h/.aider.json".to_string(),
        servers: vec![server("srv", "npx", &["-y", "srv"])],
    }];
    let mut cursor = agent("cursor");
    cursor.needs_path_injection = true;
    let mut paths = no_paths();
    paths.mcp_config = Some("/h/proj/.cursor/mcp.json".to_string());
    cursor.projects = vec![ProjectPaths { project: "/h/proj".to_string(), paths }];
    let mut closed = agent("closed");
    closed.supports_mcp = false;
    let agents = vec![source, cursor, agent("windsurf"), closed];

    let id = stable_id_for("srv", "mcp", "aider");
    let mut ext = make_skill(ConfigScope::Global, None);
    ext.id = id.clone();
    ext.kind = ExtensionKind::Mcp;
    ext.name = "srv".to_string();
    store.insert_extension(&ext);

    let fs = FileTree::new();
    let name = install_to_agent(
        &mut store,
        &fs,
        &agents,
        &id,
        "cursor",
        None,
        &scope,
        NOW,
        |d| {
            match &d {
                Deployment::Server { config, server, inject_path, agent } => {
                    assert_eq!(config, "/h/proj/.cursor/mcp.json");
                    assert_eq!(server.name, "srv");
                    assert!(*inject_path);
                    assert_eq!(agent, "cursor");
                }
                other => panic!("unexpected {other:?}"),
            }
            deployed("", FileTree::new(), vec![])
        },
        judge,
    )
    .unwrap();
    assert_eq!(name, "srv");

    let err = refused(&mut store, &fs, &agents, &id, "windsurf", &scope);
    assert!(
        matches!(&err, HkError::Validation(msg) if msg.contains("project-level MCP")),
        "windsurf has no workspace MCP config, got: {err:?}"
    );
    let err = refused(&mut store, &fs, &agents, &id, "closed", &scope);
    assert!(matches!(&err, HkError::Validation(msg)
        if msg == "closed MCP support is unavailable because its native capability has not been verified"));
    let none = vec![agent("cursor")];
    let err = refused(&mut store, &fs, &none, &id, "cursor", &scope);
    assert!(matches!(&err, HkError::Internal(msg)
        if msg == "Could not find source MCP server config"));
}

#[test]
fn test_install_to_agent_kiro_hook_project_ok_global_rejected() {
    let mut store = Store::new();
    let scope = register(&mut store, "proj", "/h/proj");
    let mut source = aider();
    source.global.hook_configs = names(&["/h/.aider/settings.json"]);
    source.hook_files = vec![HookFile {
        path: "/h/.aider/settings.json".to_string(),
        hooks: vec![hook("PreToolUse", Some("Bash"), "echo hi")],
    }];
    let mut kiro = agent("kiro");
    kiro.supports_global_hooks = false;
    kiro.hook_events = vec![("PreToolUse".to_string(), "preToolUse".to_string())];
    let mut paths = no_paths();
    paths.hook_config = Some("/h/proj/.kiro/hooks/harnesskit.json".to_string());
    kiro.projects = vec![ProjectPaths { project: "/h/proj".to_string(), paths }];
    let mut bare = agent("bare");
    bare.hook_events = vec![("PreToolUse".to_string(), "PreToolUse".to_string())];
    let agents = vec![source, kiro, bare, agent("deaf")];

    let hook_name = "PreToolUse:Bash:echo hi";
    let id = stable_id_with_scope_for(hook_name, "hook", "aider", &ConfigScope::Global);
    let mut ext = make_skill(ConfigScope::Global, None);
    ext.id = id.clone();
    ext.kind = ExtensionKind::Hook;
    ext.name = hook_name.to_string();
    store.insert_extension(&ext);

    let fs = FileTree::new();
    let global = ConfigScope::Global;
    let err = refused(&mut store, &fs, &agents, &id, "kiro", &global);
    assert!(
        matches!(&err, HkError::Validation(msg) if msg.contains("per-project")),
        "kiro global hook install must stay blocked, got: {err:?}"
    );
    let name = install_to_agent(
        &mut store,
        &fs,
        &agents,
        &id,
        "kiro",
        None,
        &scope,
        NOW,
        |d| {
            match &d {
                Deployment::Hook { config, hook, .. } => {
                    assert_eq!(config, "/h/proj/.kiro/hooks/harnesskit.json");
                    assert_eq!(hook.event, "preToolUse");
                    assert_eq!(hook.command, "echo hi");
                }
                other => panic!("unexpected {other:?}"),
            }
            deployed("", FileTree::new(), vec![])
        },
        judge,
    )
    .unwrap();
    assert_eq!(name, "preToolUse:echo hi");

    let err = refused(&mut store, &fs, &agents, &id, "bare", &scope);
    assert!(matches!(&err, HkError::Validation(m) if m == "bare does not support project-level hooks"));
    let err = refused(&mut store, &fs, &agents, &id, "deaf", &scope);
    assert!(matches!(&err, HkError::Internal(m)
        if m == "Hook event 'PreToolUse' is not supported by deaf"));
    let err = refused(&mut store, &fs, &agents, &id, "nobody", &scope);
    assert!(matches!(&err, HkError::NotFound(m) if m == "Agent 'nobody' not found"));
}

#[test]
fn tools_files_and_plugins_are_installed_by_kind() {
    let mut store = Store::new();
    let fs = disk_with_skills(&["/h/.aider/skills/tool-cli"]);
    let mut target = codex();
    target.global.command_dir = Some("/h/.codex/commands".to_string());
    let agents = vec![aider(), target];
    let global = ConfigScope::Global;

    let mut e = make_skill(ConfigScope::Global, None);
    e.id = "tool".to_string();
    e.kind = ExtensionKind::Cli;
    e.name = "Tool".to_string();
    e.cli_meta = Some(CliMeta {
        binary_name: "tool-cli".to_string(),
        binary_path: None,
        install_method: None,
        credentials_path: None,
        version: None,
        api_domains: vec![],
    });
    store.insert_extension(&e);
    let plan = plan_install(&store, &fs, &agents, "tool", "codex", None, &global).unwrap();
    assert!(matches!(plan, Deployment::Skill { source, .. } if source == "/h/.aider/skills/tool-cli"));

    e.id = "lower".to_string();
    e.name = "TOOL-CLI".to_string();
    e.cli_meta = None;
    store.insert_extension(&e);
    let plan = plan_install(&store, &fs, &agents, "lower", "codex", None, &global).unwrap();
    assert!(matches!(plan, Deployment::Skill { source, .. } if source == "/h/.aider/skills/tool-cli"));

    e.id = "file".to_string();
    e.kind = ExtensionKind::Command;
    e.name = "check".to_string();
    e.source_path = Some("/c/check.md".to_string());
    store.insert_extension(&e);
    let plan = plan_install(&store, &fs, &agents, "file", "codex", None, &global).unwrap();
    assert!(matches!(plan, Deployment::ManagedFile { source, target_dir, name }
        if source == "/c/check.md.disabled" && target_dir == "/h/.codex/commands" && name == "check"));
    let err = plan_install(&store, &fs, &agents, "file", "aider", None, &global).unwrap_err();
    assert!(matches!(&err, HkError::Validation(m)
        if m == "aider does not support command extensions at this scope"));

    e.id = "plugin".to_string();
    e.kind = ExtensionKind::Plugin;
    store.insert_extension(&e);
    let err = plan_install(&store, &fs, &agents, "plugin", "codex", None, &global).unwrap_err();
    assert!(matches!(&err, HkError::Internal(m)
        if m == "Cross-agent deploy not supported for 'plugin' extensions"));
}

#[test]
fn a_failed_write_is_passed_on() {
    let mut store = Store::new();
    let id = seed_skill(&mut store, "foo", Some(meta()));
    let fs = disk_with_skills(&["/h/.aider/skills/foo"]);
    let err = install_to_agent(
        &mut store,
        &fs,
        &vec![aider(), codex()],
        &id,
        "codex",
        None,
        &ConfigScope::Global,
        NOW,
        |_| Err(HkError::Conflict("exists".to_string())),
        judge,
    )
    .unwrap_err();
    assert!(matches!(err, HkError::Conflict(m) if m == "exists"));
    assert!(store.get_extension(&stable_id_for("foo", "skill", "codex")).is_none());
}
