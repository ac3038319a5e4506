use std::collections::BTreeMap;

use hk_core::agents::{Agent, ConfigPaths, HookFile, ScopePaths};
use hk_core::binaries::{
    brew_install_time, cli_timestamps, get_binary_version, known_clis, parse_which,
    resolve_credential_path, time_of_receipt, which_binary, Machine, Platform, VersionAnswer,
};
use hk_core::cli::{cli_candidates, scan_cli_binaries};
use hk_core::files::{FileFacts, FileTree};
use hk_core::ids::{cli_stable_id_for, stable_id_for};
use hk_core::inventory::scan_all;
use hk_core::managed::scan_managed_files;
use hk_core::models::{
    ConfigScope, ExtensionKind, HookEntry, McpServerEntry, Permission, Timestamp,
};
use hk_core::scanner::{scan_hooks, scan_project_extensions};
use hk_core::service::audit::input_for;
use hk_core::skills::{find_skill_by_id, scan_skills_for};

const NOW: Timestamp = Timestamp { secs: 1_700_000_000, nanos: 0 };

fn parent_of(p: &str) -> Option<String> {
    if p == "/" {
        return None;
    }
    match p.rfind('/') {
        Some(0) => Some("/".to_string()),
        Some(i) => Some(p[..i].to_string()),
        None => None,
    }
}

fn plain(exists: bool) -> FileFacts {
    FileFacts {
        exists,
        is_dir: false,
        is_file: false,
        content: None,
        children: None,
        canonical: None,
        is_symlink: false,
        link_target: None,
        created: None,
        modified: None,
        size: 0,
    }
}

/// A disk with some files and some empty directories.
fn disk(files: &[(&str, &str)], dirs: &[&str]) -> FileTree {
    let mut children: BTreeMap<String, Vec<String>> = BTreeMap::new();
    let mut all: Vec<String> = files.iter().map(|f| f.0.to_string()).collect();
    for d in dirs {
        children.entry(d.to_string()).or_default();
        all.push(d.to_string());
    }
    for start in all {
        let mut p = start;
        while let Some(up) = parent_of(&p) {
            let entry = children.entry(up.clone()).or_default();
            if !entry.contains(&p) {
                entry.push(p.clone());
            }
            p = up;
        }
    }
    let mut fs = FileTree::new();
    for (d, entries) in children {
        let mut facts = plain(true);
        facts.is_dir = true;
        facts.children = Some(entries);
        facts.canonical = Some(d.clone());
        fs = fs.with_path(&d, facts);
    }
    for (p, content) in files {
        let mut facts = plain(true);
        facts.is_file = true;
        facts.content = Some(content.to_string());
        facts.canonical = Some(p.to_string());
        facts.size = content.len() as u64;
        fs = fs.with_path(p, facts);
    }
    fs
}

fn no_paths() -> ScopePaths {
    ScopePaths {
        mcp_config: None,
        hook_configs: vec![],
        hook_config: None,
        skill_dir: None,
        category_dirs: vec![],
        subagent_dir: None,
        command_dir: None,
    }
}

fn agent(name: &str) -> Agent {
    Agent {
        name: name.to_string(),
        detected: true,
        skill_dirs: vec![],
        project_skill_dirs: vec![],
        mcp_config_path: String::new(),
        mcp_servers: vec![],
        mcp_files: vec![],
        hook_files: vec![],
        plugins: vec![],
        plugin_config_path: String::new(),
        plugins_are_entries: false,
        base_dir: String::new(),
        vscode_user_dir: None,
        subagent_files: vec![],
        command_files: vec![],
        subagent_patterns: vec![],
        command_patterns: vec![],
        project_markers: vec![],
        supports_mcp: true,
        needs_path_injection: false,
        supports_global_hooks: true,
        hook_events: vec![],
        global: no_paths(),
        projects: vec![],
        configs: ConfigPaths {
            external_memory: vec![],
            global_rules: vec![],
            global_memory: vec![],
            global_subagents: vec![],
            global_settings: vec![],
            global_workflow: vec![],
            project_rules: vec![],
            project_memory: vec![],
            project_subagents: vec![],
            project_settings: vec![],
            project_workflow: vec![],
            project_ignore: vec![],
        },
    }
}


fn machine(platform: Platform) -> Machine {
    Machine {
        platform,
        home: Some("/h".to_string()),
        config_dir: Some("/config".to_string()),
        which: vec![],
        versions: vec![],
    }
}

fn says(binary: &str, stdout: &str, stderr: &str) -> VersionAnswer {
    VersionAnswer {
        binary: binary.to_string(),
        stdout: stdout.to_string(),
        stderr: stderr.to_string(),
    }
}

#[test]
fn the_first_line_of_which_is_the_path() {
    assert_eq!(parse_which("/usr/bin/a\n/usr/local/bin/a\n"), Some("/usr/bin/a".to_string()));
    assert_eq!(parse_which("  /usr/bin/a  \n"), Some("/usr/bin/a".to_string()));
    assert_eq!(parse_which("\n/usr/bin/a"), None);
    assert_eq!(parse_which(""), None);
}

#[test]
fn binaries_are_looked_for_beyond_the_search_path() {
    let mut m = machine(Platform::Linux);
    m.which = vec![("a".to_string(), "/usr/bin/a\n".to_string())];
    let fs = disk(
        &[
            ("/h/.cargo/bin/a", ""),
            ("/h/.cargo/bin/b", ""),
            ("/h/.linuxbrew/bin/c", ""),
            ("/h/scoop/shims/d.exe", ""),
        ],
        &["/h/.local/bin/b"],
    );
    assert_eq!(which_binary(&fs, &m, "a"), Some("/usr/bin/a".to_string()));
    assert_eq!(which_binary(&fs, &m, "b"), Some("/h/.cargo/bin/b".to_string()));
    assert_eq!(which_binary(&fs, &m, "c"), Some("/h/.linuxbrew/bin/c".to_string()));
    assert_eq!(which_binary(&fs, &m, "d"), None);
    m.platform = Platform::Windows;
    assert_eq!(which_binary(&fs, &m, "c"), None);
    assert_eq!(which_binary(&fs, &m, "d"), Some("/h/scoop/shims/d.exe".to_string()));
    m.home = None;
    assert_eq!(which_binary(&fs, &m, "b"), None);
}

#[test]
fn versions_are_read_off_either_output() {
    let mut m = machine(Platform::Linux);
    m.versions = vec![
        says("/a", "tool 1.2.3 (build 4.5)", "9.9.9"),
        says("/b", "  \n", "b version 2.0"),
        says("/c", "no number", "1.1.1"),
    ];
    assert_eq!(get_binary_version(&m, "/a"), Some("1.2.3".to_string()));
    assert_eq!(get_binary_version(&m, "/b"), Some("2.0".to_string()));
    assert_eq!(get_binary_version(&m, "/c"), None);
    assert_eq!(get_binary_version(&m, "/d"), None);
}

#[test]
fn credentials_lie_below_the_home_directory() {
    let mut m = machine(Platform::Linux);
    assert_eq!(resolve_credential_path("~/.config/x/y", &m), "/h/.config/x/y");
    assert_eq!(resolve_credential_path("/etc/x", &m), "/etc/x");
    m.platform = Platform::Windows;
    assert_eq!(resolve_credential_path("~/.config/x/y", &m), "/config/x/y");
    assert_eq!(resolve_credential_path("~/.x/y", &m), "/h/.x/y");
    m.config_dir = None;
    assert_eq!(resolve_credential_path("~/.config/x/y", &m), "/h/.config/x/y");
}

#[test]
fn a_receipt_tells_when_a_tool_was_installed() {
    let cellar = "/opt/homebrew/Cellar/t/1.0";
    let mut binary = plain(true);
    binary.is_file = true;
    binary.canonical = Some(format!("{cellar}/bin/t"));
    binary.created = Some(Timestamp { secs: 7, nanos: 0 });
    binary.modified = Some(Timestamp { secs: 8, nanos: 0 });
    let fs = disk(&[(&format!("{cellar}/INSTALL_RECEIPT.json"), r#"{"time":1600000000}"#)], &[])
        .with_path("/opt/homebrew/bin/t", binary.clone());
    let at = Some("/opt/homebrew/bin/t".to_string());
    let receipt = Timestamp { secs: 1_600_000_000, nanos: 0 };
    assert_eq!(brew_install_time(&fs, "/opt/homebrew/bin/t"), Some(receipt));
    let brew = Some("brew".to_string());
    assert_eq!(
        cli_timestamps(&fs, &at, &brew, NOW),
        (receipt, Timestamp { secs: 8, nanos: 0 })
    );
    assert_eq!(
        cli_timestamps(&fs, &at, &Some("npm".to_string()), NOW),
        (Timestamp { secs: 7, nanos: 0 }, Timestamp { secs: 8, nanos: 0 })
    );
    assert_eq!(cli_timestamps(&fs, &None, &brew, NOW), (NOW, NOW));
    let late = r#"{"time":9223372036854775807}"#;
    let fs = disk(&[(&format!("{cellar}/INSTALL_RECEIPT.json"), late)], &[])
        .with_path("/opt/homebrew/bin/t", binary);
    assert_eq!(brew_install_time(&fs, "/opt/homebrew/bin/t"), None);
}

fn skill(name: &str, bins: &str) -> String {
    format!("---\nname: {name}\ndescription: About {name}\n{bins}---\nUse it.")
}

fn agent_with_skills() -> (Agent, FileTree) {
    let mut a = agent("aider");
    a.skill_dirs = vec!["/h/skills".to_string()];
    a.mcp_servers = vec![McpServerEntry {
        name: "officecli".to_string(),
        command: "node".to_string(),
        args: vec![],
        env: vec![],
        enabled: true,
    }];
    let fs = disk(
        &[
            ("/h/skills/send/SKILL.md", &skill("send", "bins: [\"my-tool\"]\n")),
            ("/h/skills/dws/SKILL.md", &skill("dws", "")),
            ("/h/skills/plain/SKILL.md", &skill("plain", "")),
        ],
        &[],
    );
    (a, fs)
}

fn machine_with_tools() -> Machine {
    let mut m = machine(Platform::Linux);
    for name in ["my-tool", "dws", "officecli"] {
        m.which.push((name.to_string(), format!("/usr/bin/{name}\n")));
    }
    m.versions = vec![says("/usr/bin/officecli", "officecli 3.1", "")];
    m
}

#[test]
fn tools_are_found_by_skills_and_by_name() {
    let (a, fs) = agent_with_skills();
    let all = scan_all(&fs, &machine_with_tools(), &vec![a], &vec![], NOW);
    let tools: Vec<_> = all.iter().filter(|e| e.kind == ExtensionKind::Cli).collect();
    assert_eq!(tools.len(), 3);

    let mine = tools.iter().find(|e| e.id == cli_stable_id_for("my-tool")).unwrap();
    assert_eq!(mine.name, "my-tool");
    assert_eq!(mine.description, "About send");
    assert_eq!(mine.agents, vec!["aider"]);
    assert_eq!(mine.source_path.as_deref(), Some("/usr/bin/my-tool"));

    let known = tools.iter().find(|e| e.id == cli_stable_id_for("dws")).unwrap();
    assert_eq!(known.name, "DingTalk Workspace CLI");
    let meta = known.cli_meta.as_ref().unwrap();
    assert_eq!(meta.credentials_path.as_deref(), Some("/h/.config/dws/auth.json"));
    assert_eq!(meta.api_domains, vec!["api.dingtalk.com"]);
    assert!(known.permissions.iter().any(|p| matches!(p, Permission::Shell { commands }
        if commands.contains(&"dws".to_string()))));

    let office = tools.iter().find(|e| e.id == cli_stable_id_for("officecli")).unwrap();
    assert_eq!(office.description, "OfficeCLI v3.1");
    assert!(office.permissions.iter().any(|p| matches!(p, Permission::FileSystem { .. })));

    let parent = |id: &str| {
        all.iter().find(|e| e.id == id).unwrap().cli_parent_id.clone()
    };
    assert_eq!(parent(&stable_id_for("send", "skill", "aider")), Some(mine.id.clone()));
    assert_eq!(parent(&stable_id_for("dws", "skill", "aider")), Some(known.id.clone()));
    assert_eq!(parent(&stable_id_for("plain", "skill", "aider")), None);
    assert_eq!(parent(&stable_id_for("officecli", "mcp", "aider")), Some(office.id.clone()));
}

#[test]
fn agents_that_are_not_installed_are_not_scanned() {
    let (mut a, fs) = agent_with_skills();
    a.detected = false;
    assert!(scan_all(&fs, &machine(Platform::Linux), &vec![a], &vec![], NOW).is_empty());
}

#[test]
fn candidates_are_named_once() {
    let (a, fs) = agent_with_skills();
    let exts = hk_core::scanner::scan_adapter(&fs, &a, NOW);
    let bins = cli_candidates(&fs, &exts);
    assert_eq!(bins.len(), known_clis().len() + 1);
    assert_eq!(bins.iter().filter(|b| *b == "dws").count(), 1);
    assert_eq!(bins[0], "my-tool");
    let scan = scan_cli_binaries(&fs, &machine_with_tools(), &exts, NOW);
    assert_eq!(scan.exts.len(), 3);
    assert_eq!(scan.links.len(), 2);
    assert_eq!(scan.links[0].cli_id, cli_stable_id_for("my-tool"));
    assert_eq!(scan.links[0].skill_ids, vec![stable_id_for("send", "skill", "aider")]);
}

#[test]
fn only_years_that_a_date_can_hold_have_a_time() {
    let at = |secs: i64| Some(Timestamp { secs, nanos: 0 });
    assert_eq!(time_of_receipt(Some(8_210_266_876_799)), at(8_210_266_876_799));
    assert_eq!(time_of_receipt(Some(8_210_266_876_800)), None);
    assert_eq!(time_of_receipt(Some(-8_334_601_228_800)), at(-8_334_601_228_800));
    assert_eq!(time_of_receipt(Some(-8_334_601_228_801)), None);
    assert_eq!(time_of_receipt(None), None);
}

#[test]
fn every_scanned_skill_is_found_again() {
    let mut a = agent("aider");
    a.skill_dirs = vec!["/h/skills".to_string()];
    a.project_skill_dirs = vec![".skills".to_string()];
    let fs = disk(
        &[
            ("/h/skills/send/SKILL.md", &skill("other name", "")),
            ("/h/skills/off/SKILL.md.disabled", &skill("off", "")),
            ("/h/skills/single.md", "no block"),
            ("/p/.skills/send/SKILL.md", &skill("other name", "")),
        ],
        &[],
    );
    let projects = vec![("p".to_string(), "/p".to_string())];
    let names = vec!["aider".to_string()];
    let mut found = scan_skills_for(&fs, &a, NOW);
    assert_eq!(found.len(), 3);
    found.extend(scan_project_extensions(&fs, &a, "p", "/p", NOW));
    assert_eq!(found.len(), 4);
    let agents = vec![a];
    let places: Vec<String> = found
        .iter()
        .map(|e| find_skill_by_id(&fs, &agents, &e.id, &names, &projects).unwrap().skill_file)
        .collect();
    assert_eq!(
        places,
        vec![
            "/h/skills/send/SKILL.md",
            "/h/skills/off/SKILL.md.disabled",
            "/h/skills/single.md",
            "/p/.skills/send/SKILL.md",
        ]
    );
}

#[test]
fn a_moved_file_is_another_extension() {
    let fs = disk(&[("/h/a.md", "---\nname: a\n---"), ("/h/sub/a.md", "edited")], &[]);
    let scan = |p: &str| {
        scan_managed_files(
            &fs,
            &vec![p.to_string()],
            "aider",
            ExtensionKind::Command,
            &ConfigScope::Global,
            NOW,
        )
    };
    assert_eq!(scan("/h/a.md")[0].id, stable_id_for("/h/a.md", "command", "aider"));
    assert_eq!(scan("/h/sub/a.md")[0].id, stable_id_for("/h/sub/a.md", "command", "aider"));
    assert_ne!(scan("/h/a.md")[0].id, scan("/h/sub/a.md")[0].id);
    assert!(scan("/h/missing.md").is_empty());
}

#[test]
fn a_hook_is_audited_by_its_command() {
    let mut a = agent("aider");
    a.global.hook_configs = vec!["/h/hooks.json".to_string()];
    a.hook_files = vec![HookFile {
        path: "/h/hooks.json".to_string(),
        hooks: vec![HookEntry {
            event: "Stop".to_string(),
            matcher: None,
            command: "curl http://x:80/y".to_string(),
            enabled: true,
        }],
    }];
    let fs = disk(&[("/h/hooks.json", "{}")], &[]);
    let found = scan_hooks(&fs, &a, NOW);
    assert_eq!(found[0].name, "Stop:*:curl http://x:80/y");
    let input = input_for(&fs, &vec![a], &found[0]);
    assert_eq!(input.content, "curl http://x:80/y");
}

#[test]
fn known_tools_have_distinct_identifiers() {
    let ids: Vec<String> = known_clis().iter().map(|k| cli_stable_id_for(&k.binary_name)).collect();
    assert_eq!(ids.len(), 8);
    assert_eq!(ids[0], "059d2fb57f5e7f35");
    assert_eq!(ids[1], "4cc92beea4fa5b3e");
    for i in 0..ids.len() {
        for j in 0..i {
            assert_ne!(ids[i], ids[j]);
        }
    }
}

#[test]
fn an_edited_or_disabled_file_stays_the_same_extension() {
    let scan = |fs: &FileTree, p: &str| {
        scan_managed_files(
            fs,
            &vec![p.to_string()],
            "aider",
            ExtensionKind::Subagent,
            &ConfigScope::Global,
            NOW,
        )
    };
    let first = scan(&disk(&[("/h/agents/x.md", "one")], &[]), "/h/agents/x.md");
    let edited = scan(&disk(&[("/h/agents/x.md", "two")], &[]), "/h/agents/x.md");
    let off = "/h/agents/x.md.disabled";
    let disabled = scan(&disk(&[(off, "one")], &[]), off);
    for found in [&first, &edited, &disabled] {
        assert_eq!(found.len(), 1);
        assert_eq!(found[0].id, first[0].id);
        assert_eq!(found[0].name, "x");
        assert_eq!(found[0].source_path.as_deref(), Some("/h/agents/x.md"));
    }
    assert!(first[0].enabled && edited[0].enabled && !disabled[0].enabled);
}

#[test]
fn a_file_is_no_directory() {
    let mut facts = plain(true);
    facts.is_file = true;
    facts.is_dir = true;
    let fs = FileTree::new().with_path("/f", facts);
    assert!(fs.is_file("/f"));
    assert!(!fs.is_dir("/f"));
}
