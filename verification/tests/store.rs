use hk_core::files::{FileFacts, FileTree};
use hk_core::models::{
    AuditResult, CliMeta, ConfigScope, Extension, ExtensionKind, HkError, InstallMeta, Permission,
    Source, SourceOrigin, Timestamp,
};
use hk_core::store::sync::stale_row_should_prune;
use hk_core::store::{Project, Store};

const NOW: Timestamp = Timestamp { secs: 1_700_000_000, nanos: 0 };

fn sample(id: &str) -> Extension {
    Extension {
        id: id.to_string(),
        kind: ExtensionKind::Skill,
        name: "test-skill".to_string(),
        description: "A test skill".to_string(),
        source: Source {
            origin: SourceOrigin::Local,
            url: None,
            version: None,
            commit_hash: None,
            from_manifest: false,
        },
        agents: vec!["aider".to_string()],
        tags: vec!["test".to_string()],
        pack: None,
        permissions: vec![Permission::FileSystem { paths: vec!["/tmp".to_string()] }],
        enabled: true,
        trust_score: None,
        installed_at: NOW,
        updated_at: NOW,
        source_path: None,
        cli_parent_id: None,
        cli_meta: None,
        install_meta: None,
        scope: ConfigScope::Global,
    }
}

fn record(install_type: &str, url: &str, revision: Option<&str>) -> InstallMeta {
    InstallMeta {
        install_type: install_type.to_string(),
        url: Some(url.to_string()),
        url_resolved: None,
        branch: None,
        subpath: None,
        revision: revision.map(|r| r.to_string()),
        remote_revision: None,
        checked_at: None,
        check_error: None,
    }
}

fn facts(is_file: bool, is_symlink: bool) -> FileFacts {
    FileFacts {
        exists: true,
        is_dir: !is_file,
        is_file,
        content: None,
        children: None,
        canonical: None,
        is_symlink,
        link_target: None,
        created: None,
        modified: None,
        size: 0,
    }
}

fn ids(store: &Store, agent: Option<&str>) -> Vec<String> {
    store.list_extensions(None, agent).into_iter().map(|e| e.id).collect()
}

#[test]
fn a_new_store_is_empty() {
    assert!(Store::new().list_extensions(None, None).is_empty());
    assert!(Store::new().list_project_tuples().is_empty());
}

#[test]
fn test_insert_and_get_extension() {
    let mut store = Store::new();
    store.insert_extension(&sample("one"));
    let fetched = store.get_extension("one").unwrap();
    assert_eq!(fetched.name, "test-skill");
    assert_eq!(fetched.kind, ExtensionKind::Skill);
    assert_eq!(fetched.agents, vec!["aider"]);
    assert_eq!(fetched.tags, vec!["test"]);
    assert!(store.get_extension("two").is_none());
}

#[test]
fn a_second_scan_keeps_what_the_user_put_there() {
    let mut store = Store::new();
    let mut first = sample("one");
    first.pack = Some("a/b".to_string());
    first.trust_score = Some(9);
    first.install_meta = Some(record("git", "https://github.com/a/b", None));
    store.insert_extension(&first);
    let mut again = sample("one");
    again.name = "renamed".to_string();
    again.tags = vec![];
    again.pack = Some("c/d".to_string());
    again.installed_at = Timestamp { secs: 5, nanos: 0 };
    store.insert_extension(&again);
    let row = store.get_extension("one").unwrap();
    assert_eq!(row.name, "renamed");
    assert_eq!(row.tags, vec!["test"]);
    assert_eq!(row.pack.as_deref(), Some("a/b"));
    assert_eq!(row.trust_score, Some(9));
    assert_eq!(row.installed_at, NOW);
    assert!(row.install_meta.is_some());
    assert_eq!(ids(&store, None), vec!["one"]);
}

#[test]
fn test_list_extensions_filter_by_kind() {
    let mut store = Store::new();
    store.insert_extension(&sample("skill"));
    let mut mcp = sample("mcp");
    mcp.kind = ExtensionKind::Mcp;
    store.insert_extension(&mcp);
    let found = store.list_extensions(Some(ExtensionKind::Mcp), None);
    assert_eq!(found.len(), 1);
    assert_eq!(found[0].id, "mcp");
}

#[test]
fn listings_are_sorted_by_name() {
    let mut store = Store::new();
    for name in ["cherry", "apple", "banana", "apple"] {
        let mut e = sample(&format!("{}-{}", name, store.list_extensions(None, None).len()));
        e.name = name.to_string();
        store.insert_extension(&e);
    }
    assert_eq!(ids(&store, None), vec!["apple-1", "apple-3", "banana-2", "cherry-0"]);
}

#[test]
fn test_list_extensions_agent_filter_escapes_wildcards() {
    let mut store = Store::new();
    store.insert_extension(&sample("one"));
    assert_eq!(store.list_extensions(None, Some("%")).len(), 0);
    assert_eq!(store.list_extensions(None, Some("aider")).len(), 1);
}

#[test]
fn records_and_packs_read_back() {
    let mut store = Store::new();
    store.insert_extension(&sample("one"));
    store.insert_extension(&sample("two"));
    store.set_install_meta("one", &record("git", "https://github.com/a/b", Some("r")));
    store.batch_update_pack(&vec!["one".to_string(), "two".to_string()], Some("a/b"));
    store.update_pack("two", None);
    let one = store.get_extension("one").unwrap();
    assert_eq!(one.install_meta.unwrap().revision.as_deref(), Some("r"));
    assert_eq!(one.pack.as_deref(), Some("a/b"));
    let two = store.get_extension("two").unwrap();
    assert!(two.install_meta.is_none() && two.pack.is_none());
    store.clear_install_meta("one");
    assert!(store.get_extension("one").unwrap().install_meta.is_none());
}

#[test]
fn extensions_are_found_by_name_and_kind() {
    let mut store = Store::new();
    store.insert_extension(&sample("one"));
    let mut other = sample("two");
    other.kind = ExtensionKind::Mcp;
    store.insert_extension(&other);
    assert_eq!(store.find_ids_by_name_and_kind("test-skill", "skill"), vec!["one"]);
    assert_eq!(store.find_ids_by_name_and_kind("test-skill", "mcp"), vec!["two"]);
    assert!(store.find_ids_by_name_and_kind("other", "skill").is_empty());
}

#[test]
fn audit_results_need_a_known_extension() {
    let mut store = Store::new();
    store.insert_extension(&sample("one"));
    let mut result = AuditResult {
        extension_id: "one".to_string(),
        findings: vec![],
        trust_score: 88,
        audited_at: NOW,
    };
    store.insert_audit_result(&result).unwrap();
    assert_eq!(store.get_extension("one").unwrap().trust_score, Some(88));
    result.extension_id = "two".to_string();
    assert!(matches!(store.insert_audit_result(&result), Err(HkError::Database(_))));
    store.delete_extension("one");
    assert!(store.get_extension("one").is_none());
}

#[test]
fn test_insert_project_ignores_duplicate_path() {
    let mut store = Store::new();
    for (id, name) in [("proj-001", "my-project"), ("proj-002", "my-project-dup")] {
        store.insert_project(Project {
            id: id.to_string(),
            name: name.to_string(),
            path: "/tmp/my-project".to_string(),
            created_at: NOW,
        });
    }
    assert_eq!(
        store.list_project_tuples(),
        vec![("my-project".to_string(), "/tmp/my-project".to_string())]
    );
}

#[test]
fn test_stale_row_should_prune_decision() {
    let fs = FileTree::new().with_path("/live", facts(true, false));
    let skill = ExtensionKind::Skill;
    let live = Some("/live".to_string());
    let missing = Some("/missing".to_string());
    assert!(!stale_row_should_prune(&fs, false, true, skill, &missing));
    assert!(stale_row_should_prune(&fs, true, false, skill, &None));
    assert!(!stale_row_should_prune(&fs, true, true, ExtensionKind::Cli, &missing));
    assert!(stale_row_should_prune(&fs, true, true, skill, &missing));
    assert!(!stale_row_should_prune(&fs, true, true, skill, &live));
    assert!(!stale_row_should_prune(&fs, true, true, skill, &None));
}

#[test]
fn test_sync_extensions_for_agent_uses_join_table() {
    let mut store = Store::new();
    let fs = FileTree::new();
    let one = sample("agent-ext-1");
    let mut two = sample("agent-ext-2");
    two.agents = vec!["cursor".to_string()];
    store.sync_extensions_for_agent(&fs, "aider", &vec![one]);
    store.sync_extensions_for_agent(&fs, "cursor", &vec![two]);
    assert_eq!(ids(&store, Some("aider")), vec!["agent-ext-1"]);
    assert_eq!(ids(&store, Some("cursor")), vec!["agent-ext-2"]);
    store.sync_extensions_for_agent(&fs, "aider", &vec![]);
    assert!(ids(&store, Some("aider")).is_empty());
    assert_eq!(ids(&store, Some("cursor")), vec!["agent-ext-2"]);
}

#[test]
fn test_sync_for_agent_prunes_ghost_skill_with_install_meta() {
    let mut store = Store::new();
    let fs = FileTree::new().with_path("/t/agent-live-SKILL.md", facts(true, false));
    for (id, path) in [("agent-ghost", "/nonexistent/SKILL.md"), ("agent-live", "/t/agent-live-SKILL.md")] {
        let mut e = sample(id);
        e.source_path = Some(path.to_string());
        e.install_meta = Some(record("marketplace", "https://github.com/tw93/waza", None));
        store.insert_extension(&e);
    }
    store.sync_extensions_for_agent(&fs, "aider", &vec![]);
    assert_eq!(ids(&store, Some("aider")), vec!["agent-live"]);
}

#[test]
fn test_sync_extensions_purges_orphan_project_rows() {
    let mut store = Store::new();
    let mut orphan = sample("ext-orphan");
    orphan.scope = ConfigScope::Project { name: "ghost".to_string(), path: "/tmp/ghost".to_string() };
    store.insert_extension(&orphan);
    let keep = sample("ext-keep");
    store.insert_extension(&keep);
    store.sync_extensions(&FileTree::new(), &vec![keep]);
    let remaining = ids(&store, None);
    assert!(!remaining.contains(&"ext-orphan".to_string()));
    assert!(remaining.contains(&"ext-keep".to_string()));
}

#[test]
fn a_scan_of_everything_gives_up_rows_of_every_agent() {
    let mut store = Store::new();
    store.insert_project(Project {
        id: "p".to_string(),
        name: "p".to_string(),
        path: "/p".to_string(),
        created_at: NOW,
    });
    let mut other = sample("other");
    other.agents = vec!["cursor".to_string()];
    let mut inside = sample("inside");
    inside.scope = ConfigScope::Project { name: "p".to_string(), path: "/p".to_string() };
    for e in [&sample("gone"), &other, &inside] {
        store.insert_extension(e);
    }
    store.sync_extensions(&FileTree::new(), &vec![inside, sample("new")]);
    let mut left = ids(&store, None);
    left.sort();
    assert_eq!(left, vec!["inside", "new"]);
}

#[test]
fn test_sync_preserves_disabled_extensions() {
    let mut store = Store::new();
    let mut e = sample("disabled-mcp");
    e.kind = ExtensionKind::Mcp;
    e.name = "my-mcp".to_string();
    store.insert_extension(&e);
    store.set_enabled("disabled-mcp", false);
    store.sync_extensions(&FileTree::new(), &vec![]);
    let fetched = store.get_extension("disabled-mcp");
    assert!(fetched.is_some(), "Disabled extension should not be deleted by sync");
    assert!(!fetched.unwrap().enabled);
}

#[test]
fn recording_an_extension_again_leaves_it_as_enabled_as_it_was() {
    let mut store = Store::new();
    let e = sample("a");
    store.insert_extension(&e);
    store.set_enabled("a", false);
    store.insert_extension(&e);
    assert!(!store.get_extension("a").unwrap().enabled);
    store.sync_extensions_for_agent(&FileTree::new(), "aider", &vec![e]);
    assert!(store.get_extension("a").unwrap().enabled);
}

#[test]
fn a_server_that_was_taken_out_of_its_file_stays_disabled() {
    let mut store = Store::new();
    let fs = FileTree::new();
    let mut e = sample("srv");
    e.kind = ExtensionKind::Mcp;
    e.enabled = false;
    store.insert_extension(&e);
    store.set_disabled_config("srv", Some("{}"));
    e.enabled = true;
    store.sync_extensions_for_agent(&fs, "aider", &vec![e.clone()]);
    assert!(!store.get_extension("srv").unwrap().enabled);
    store.set_disabled_config("srv", None);
    store.sync_extensions_for_agent(&fs, "aider", &vec![e]);
    assert!(store.get_extension("srv").unwrap().enabled);
}

#[test]
fn test_sync_preserves_install_meta() {
    let mut store = Store::new();
    let mut e = sample("git-skill");
    let mut meta = record("git", "https://github.com/user/repo", Some("abc123"));
    meta.remote_revision = Some("def456".to_string());
    e.install_meta = Some(meta);
    store.insert_extension(&e);
    e.install_meta = None;
    store.sync_extensions(&FileTree::new(), &vec![e]);
    let im = store.get_extension("git-skill").unwrap().install_meta.unwrap();
    assert_eq!(im.install_type, "git");
    assert_eq!(im.revision.as_deref(), Some("abc123"));
    assert_eq!(im.remote_revision.as_deref(), Some("def456"));
}

#[test]
fn test_sync_heals_symlinked_git_install_meta() {
    let mut store = Store::new();
    let fs = FileTree::new()
        .with_path("/t/.aider/skills/tdd", facts(false, true))
        .with_path("/t/.aider/skills/ggg", facts(false, true))
        .with_path("/t/.aider/skills/ddd", facts(false, true))
        .with_path("/t/.aider/skills/ddd/SKILL.md.disabled", facts(true, false))
        .with_path("/t/.codex/skills/foo", facts(false, false));
    let mut linked = sample("linked-tdd");
    linked.source.origin = SourceOrigin::Agent;
    linked.source_path = Some("/t/.aider/skills/tdd/SKILL.md".to_string());
    let mut plain = sample("plain-foo");
    plain.source.origin = SourceOrigin::Agent;
    plain.source_path = Some("/t/.codex/skills/foo/SKILL.md".to_string());
    let mut gitlink = sample("linked-ggg");
    gitlink.source.origin = SourceOrigin::Git;
    gitlink.source.url = Some("https://github.com/team/shared".to_string());
    gitlink.source_path = Some("/t/.aider/skills/ggg/SKILL.md".to_string());
    let mut disabled = sample("linked-ddd");
    disabled.enabled = false;
    disabled.source.origin = SourceOrigin::Agent;
    disabled.source.url = None;
    disabled.source_path = Some("/t/.aider/skills/ddd/SKILL.md".to_string());
    for (e, url, pack) in [
        (&disabled, "https://github.com/octo/dotfiles", "octo/dotfiles"),
        (&linked, "https://github.com/octo/dotfiles", "octo/dotfiles"),
        (&plain, "https://github.com/real/repo", "real/repo"),
        (&gitlink, "https://github.com/team/shared", "team/shared"),
    ] {
        store.insert_extension(e);
        store.set_install_meta(&e.id, &record("git", url, None));
        store.update_pack(&e.id, Some(pack));
    }
    store.sync_extensions(&fs, &vec![linked, plain, disabled, gitlink]);
    let healed = store.get_extension("linked-tdd").unwrap();
    assert!(healed.install_meta.is_none());
    assert!(healed.pack.is_none());
    let healed = store.get_extension("linked-ddd").unwrap();
    assert!(healed.install_meta.is_none());
    assert!(healed.pack.is_none());
    let kept = store.get_extension("plain-foo").unwrap();
    assert_eq!(kept.install_meta.unwrap().install_type, "git");
    let kept = store.get_extension("linked-ggg").unwrap();
    assert_eq!(kept.install_meta.unwrap().install_type, "git");
    assert_eq!(kept.pack.as_deref(), Some("team/shared"));
}

#[test]
fn test_sync_refreshes_stale_git_install_meta() {
    let mut store = Store::new();
    let rows = [
        ("plugin-cr", "https://github.com/market/plugins", "https://github.com/octo/dotfiles", None),
        ("plugin-ok", "https://github.com/real/repo", "https://github.com/real/repo", None),
        (
            "plugin-variant",
            "https://github.com/owner/repo.git",
            "https://github.com/owner/repo",
            Some("pinned123"),
        ),
        (
            "plugin-case",
            "https://github.com/owner/repo",
            "https://github.com/Owner/Repo",
            Some("casepin99"),
        ),
    ];
    let mut seen = vec![];
    for (id, source, installed, revision) in rows {
        let mut e = sample(id);
        e.kind = ExtensionKind::Plugin;
        e.source.origin = SourceOrigin::Git;
        e.source.url = Some(source.to_string());
        store.insert_extension(&e);
        store.set_install_meta(id, &record("git", installed, revision));
        e.source.from_manifest = id == "plugin-cr";
        seen.push(e);
    }
    store.update_pack("plugin-cr", Some("octo/dotfiles"));
    store.update_pack("plugin-ok", Some("real/repo"));
    store.sync_extensions(&FileTree::new(), &seen);
    let fixed = store.get_extension("plugin-cr").unwrap();
    let im = fixed.install_meta.unwrap();
    assert_eq!(im.url.as_deref(), Some("https://github.com/market/plugins"));
    assert_eq!(fixed.pack.as_deref(), Some("market/plugins"));
    let kept = store.get_extension("plugin-ok").unwrap();
    assert_eq!(kept.pack.as_deref(), Some("real/repo"));
    let vm = store.get_extension("plugin-variant").unwrap().install_meta.unwrap();
    assert_eq!(vm.url.as_deref(), Some("https://github.com/owner/repo"));
    assert_eq!(vm.revision.as_deref(), Some("pinned123"));
    let cm = store.get_extension("plugin-case").unwrap().install_meta.unwrap();
    assert_eq!(cm.revision.as_deref(), Some("casepin99"));
}

#[test]
fn manifests_that_name_the_same_repository_change_no_record() {
    let mut store = Store::new();
    let rows = [
        ("variant", "https://github.com/owner/repo.git", "https://github.com/owner/repo"),
        ("case", "https://github.com/owner/repo", "https://github.com/Owner/Repo"),
    ];
    let mut seen = vec![];
    for (id, source, installed) in rows {
        let mut e = sample(id);
        e.source.origin = SourceOrigin::Git;
        e.source.url = Some(source.to_string());
        e.source.from_manifest = true;
        store.insert_extension(&e);
        store.set_install_meta(id, &record("git", installed, Some("pinned")));
        seen.push(e);
    }
    store.sync_extensions_for_agent(&FileTree::new(), "aider", &seen);
    for (id, _, installed) in rows {
        let im = store.get_extension(id).unwrap().install_meta.unwrap();
        assert_eq!(im.url.as_deref(), Some(installed));
        assert_eq!(im.revision.as_deref(), Some("pinned"));
    }
}

#[test]
fn test_refresh_preserves_authoritative_install_url_for_inferred_source() {
    let mut store = Store::new();
    let mut skill = sample("hk-skill");
    skill.name = "my-skill".to_string();
    skill.source.origin = SourceOrigin::Git;
    skill.source.url = Some("https://github.com/octo/dotfiles".to_string());
    skill.source.from_manifest = false;
    store.insert_extension(&skill);
    store.set_install_meta(
        "hk-skill",
        &record("git", "https://github.com/real/my-skill", Some("pinnedabc123")),
    );
    store.update_pack("hk-skill", Some("real/my-skill"));
    store.sync_extensions(&FileTree::new(), &vec![skill]);
    let im = store.get_extension("hk-skill").unwrap().install_meta.unwrap();
    assert_eq!(im.url.as_deref(), Some("https://github.com/real/my-skill"));
    assert_eq!(im.revision.as_deref(), Some("pinnedabc123"));
}

#[test]
fn test_sync_prunes_ghost_skill_with_install_meta_when_files_deleted() {
    let mut store = Store::new();
    let fs = FileTree::new().with_path("/t/live-SKILL.md", facts(true, false));
    for (id, kind, path) in [
        ("ghost-skill", ExtensionKind::Skill, "/nonexistent/harnesskit/ghost/SKILL.md"),
        ("live-skill", ExtensionKind::Skill, "/t/live-SKILL.md"),
        ("cli-tool", ExtensionKind::Cli, "/nonexistent/harnesskit/cli-bin"),
    ] {
        let mut e = sample(id);
        e.kind = kind;
        e.source_path = Some(path.to_string());
        e.install_meta = Some(record("marketplace", "https://github.com/tw93/waza", None));
        store.insert_extension(&e);
    }
    store.sync_extensions(&fs, &vec![]);
    let ids = ids(&store, None);
    assert!(!ids.contains(&"ghost-skill".to_string()));
    assert!(ids.contains(&"live-skill".to_string()));
    assert!(ids.contains(&"cli-tool".to_string()));
}

#[test]
fn test_sync_backfill_does_not_overwrite_existing_install_meta() {
    let mut store = Store::new();
    let mut e = sample("our-install");
    e.source.origin = SourceOrigin::Git;
    e.source.url = Some("https://github.com/user/skill".to_string());
    e.source.commit_hash = Some("new-scan-hash".to_string());
    let mut meta = record("marketplace", "marketplace-source", Some("original-hash"));
    meta.url_resolved = Some("https://github.com/user/skill".to_string());
    meta.subpath = Some("my-skill".to_string());
    e.install_meta = Some(meta);
    store.insert_extension(&e);
    e.install_meta = None;
    store.sync_extensions(&FileTree::new(), &vec![e]);
    let im = store.get_extension("our-install").unwrap().install_meta.unwrap();
    assert_eq!(im.install_type, "marketplace");
    assert_eq!(im.url.as_deref(), Some("marketplace-source"));
    assert_eq!(im.revision.as_deref(), Some("original-hash"));
}

#[test]
fn test_sync_backfills_install_meta_from_git_source() {
    let mut store = Store::new();
    let mut e = sample("pre-existing");
    e.source.origin = SourceOrigin::Git;
    e.source.url = Some("https://github.com/user/old-skill".to_string());
    e.source.commit_hash = Some("aaa111".to_string());
    store.sync_extensions(&FileTree::new(), &vec![e]);
    let row = store.get_extension("pre-existing").unwrap();
    let im = row.install_meta.expect("install_meta should be backfilled");
    assert_eq!(im.install_type, "git");
    assert_eq!(im.url.as_deref(), Some("https://github.com/user/old-skill"));
    assert_eq!(im.revision.as_deref(), Some("aaa111"));
    assert!(im.branch.is_none());
    assert!(im.subpath.is_none());
    assert_eq!(row.pack.as_deref(), Some("user/old-skill"));
}

#[test]
fn test_sync_backfill_skips_non_git_sources() {
    let mut store = Store::new();
    let mut e = sample("agent-skill");
    e.source.origin = SourceOrigin::Agent;
    store.sync_extensions(&FileTree::new(), &vec![e]);
    assert!(store.get_extension("agent-skill").unwrap().install_meta.is_none());
}

#[test]
fn tools_and_their_skills_share_a_pack() {
    let mut store = Store::new();
    let mut tool = sample("tool");
    tool.kind = ExtensionKind::Cli;
    tool.cli_meta = Some(CliMeta {
        binary_name: "tool".to_string(),
        binary_path: None,
        install_method: None,
        credentials_path: None,
        version: None,
        api_domains: vec![],
    });
    let mut child = sample("child");
    child.cli_parent_id = Some("tool".to_string());
    child.pack = Some("a/b".to_string());
    let mut bare = sample("bare");
    bare.cli_parent_id = Some("tool".to_string());
    store.sync_extensions_for_agent(&FileTree::new(), "aider", &vec![tool, child, bare]);
    let tool = store.get_extension("tool").unwrap();
    assert_eq!(tool.pack.as_deref(), Some("a/b"));
    assert_eq!(tool.install_meta.unwrap().install_type, "cli-registry");
    assert_eq!(store.get_extension("bare").unwrap().pack.as_deref(), Some("a/b"));
}
