use hk_core::frontmatter::{frontmatter_description, yaml_block};
use hk_core::ids::{fnv1a, stable_id_for, stable_id_with_scope_for};
use hk_core::lists::{dedup, push_all_new, str_le};
use hk_core::models::{ConfigCategory, ConfigScope, ExtensionKind, Permission, Platform};
use hk_core::pack::synthesize_manual_install_meta;
use hk_core::path;
use hk_core::permissions::{
    base_of_command, infer_hook_permissions, infer_skill_permissions, merge_permissions,
};
use hk_core::plugins::{find_install_programs, plugin_code_extension};
use hk_core::scanner::is_windows_abs_path;
use hk_core::sources::parse_git_remote;
use hk_core::split;
use hk_core::text;

fn strings(list: &[&str]) -> Vec<String> {
    list.iter().map(|s| s.to_string()).collect()
}

#[test]
fn hashes_have_their_published_values() {
    assert_eq!(fnv1a(b""), 0xcbf29ce484222325);
    assert_eq!(fnv1a(b"a"), 0xaf63dc4c8601ec8c);
    assert_eq!(fnv1a(b"foobar"), 0x85944171f73967e8);
}

#[test]
fn identifiers_are_hashes_of_keys() {
    let id = stable_id_for("n", "skill", "a");
    assert_eq!(id, format!("{:016x}", fnv1a(b"skill:a:n")));
    assert_eq!(id, stable_id_with_scope_for("n", "skill", "a", &ConfigScope::Global));
    let p = ConfigScope::Project { name: "x".to_string(), path: "/p".to_string() };
    let q = ConfigScope::Project { name: "y".to_string(), path: "/p".to_string() };
    let scoped = stable_id_with_scope_for("n", "skill", "a", &p);
    assert_eq!(scoped, format!("{:016x}", fnv1a(b"skill:a:n:/p")));
    assert_eq!(scoped, stable_id_with_scope_for("n", "skill", "a", &q));
    assert_ne!(scoped, id);
    let accented = stable_id_for("é", "skill", "a");
    assert_eq!(accented, format!("{:016x}", fnv1a("skill:a:é".as_bytes())));
}

#[test]
fn lists_keep_first_occurrences() {
    assert_eq!(dedup(&strings(&["b", "a", "b"])), strings(&["b", "a"]));
    let mut v = strings(&["a"]);
    push_all_new(&mut v, &strings(&["b", "a", "c", "b"]));
    assert_eq!(v, strings(&["a", "b", "c"]));
    assert!(str_le("a", "a") && str_le("a", "b") && str_le("a", "ab") && !str_le("b", "ab"));
}

#[test]
fn paths_have_parts() {
    assert_eq!(path::join("/a", "b"), "/a/b");
    assert_eq!(path::join("/a/", "b"), "/a/b");
    assert_eq!(path::join("/a", "/b"), "/b");
    assert_eq!(path::parent("/a/b"), Some("/a".to_string()));
    assert_eq!(path::parent("/"), None);
    assert_eq!(path::file_name("/a/b.md"), Some("b.md".to_string()));
    assert_eq!(path::file_name("/a/.."), None);
    assert_eq!(path::file_stem("/a/b.tar.gz"), Some("b.tar".to_string()));
    assert_eq!(path::extension("/a/b.tar.gz"), Some("gz".to_string()));
    assert_eq!(path::extension("/a/.hidden"), None);
    assert!(path::path_eq("/a/./b/", "/a/b"));
    assert!(!path::path_eq("/a/b", "/a/c"));
}

#[test]
fn texts_are_split_and_trimmed() {
    assert_eq!(split::split("a/b//c", '/'), strings(&["a", "b", "", "c"]));
    assert_eq!(split::lines("a\r\nb\n\n"), strings(&["a", "b", ""]));
    assert_eq!(split::first_token("  go  now"), Some("go".to_string()));
    assert_eq!(split::first_token("  "), None);
    assert_eq!(split::find("hello", "l"), Some(2));
    assert_eq!(split::join(&strings(&["a", "b"]), ", "), "a, b");
    assert_eq!(split::replace_char("a-b-c", '-', '_'), "a_b_c");
    assert_eq!(split::rest_after("a:b:c", ':'), Some("b:c"));
    assert_eq!(text::trim("\u{3000} a b \n"), "a b");
    assert_eq!(text::trim_matches("\"a\"", '"'), "a");
    assert_eq!(text::strip_prefix("abc", "ab"), Some("c"));
    assert_eq!(text::strip_suffix("abc", "x"), None);
    assert_eq!(text::trim_end_matches("a.git.git", ".git"), "a");
}

#[test]
fn kinds_and_categories_have_their_names_and_order() {
    assert_eq!(ExtensionKind::Skill.as_str(), "skill");
    assert_eq!(ExtensionKind::Cli.as_str(), "cli");
    assert_eq!(ExtensionKind::Subagent.as_str(), "subagent");
    assert!(ConfigCategory::Rules.order() < ConfigCategory::Memory.order());
    assert!(ConfigCategory::Workflow.order() < ConfigCategory::Ignore.order());
}

#[test]
fn drive_paths_are_absolute() {
    assert!(is_windows_abs_path("C:\\x"));
    assert!(is_windows_abs_path("d:/x"));
    assert!(!is_windows_abs_path("C:x"));
    assert!(!is_windows_abs_path("1:/x"));
}

#[test]
fn manual_records_point_to_github() {
    let m = synthesize_manual_install_meta("a/b");
    assert_eq!(m.install_type, "manual");
    assert_eq!(m.url.as_deref(), Some("https://github.com/a/b.git"));
}

#[test]
fn descriptions_are_read_as_yaml() {
    let content = "---\ndescription: |\n  Two\n  lines\n---\nbody";
    assert_eq!(yaml_block(content).is_some(), true);
    assert_eq!(frontmatter_description(content), Some("Two\nlines".to_string()));
    assert_eq!(frontmatter_description("---\nname: x\n---\n"), None);
    assert_eq!(frontmatter_description("no block"), None);
}

#[test]
fn permissions_list_what_a_text_names() {
    let perms = infer_skill_permissions(
        "See https://api.example.com/v1 and /tmp/x.\n```bash\ncurl -s x\ngit push\n```\n",
        Platform::Linux,
    );
    assert!(perms.iter().any(|p| matches!(p, Permission::Network { domains }
        if domains == &strings(&["api.example.com"]))));
    assert!(perms.iter().any(|p| matches!(p, Permission::Shell { commands }
        if commands.contains(&"curl".to_string()))));
    let perms = infer_hook_permissions("/usr/bin/curl https://hooks.example.org/x", Platform::Linux);
    assert!(matches!(&perms[0], Permission::Shell { commands }
        if commands == &strings(&["/usr/bin/curl https://hooks.example.org/x", "curl"])));
    assert!(matches!(&perms[1], Permission::Network { domains }
        if domains == &strings(&["hooks.example.org"])));
    assert_eq!(perms.len(), 2);
    assert!(matches!(&infer_hook_permissions("make", Platform::Linux)[0], Permission::Shell { commands }
        if commands == &strings(&["make"])));
    assert_eq!(base_of_command("/usr/bin/env python", Platform::Linux), "env");
}

#[test]
fn programs_are_named_as_the_platform_names_them() {
    for (text, windows, others) in [
        ("npx", "npx", "npx"),
        ("/usr/bin/npx", "npx", "npx"),
        (r"C:\tools\npx.cmd", "npx.cmd", r"C:\tools\npx.cmd"),
        (r"C:/tools\npx.cmd", "npx.cmd", r"tools\npx.cmd"),
        ("c:npx", "npx", "c:npx"),
        (r"C:\", "", r"C:\"),
        (r"tools\npx\", "npx", r"tools\npx\"),
        (r"\\server\share\bin\npx", "npx", r"\\server\share\bin\npx"),
        (r"\\server\share", "", r"\\server\share"),
        (r"\\server", "server", r"\\server"),
        (r"bin\..", "", r"bin\.."),
        ("", "", ""),
    ] {
        assert_eq!(path::program_name(text, Platform::Windows), windows, "{}", text);
        for other in [Platform::Linux, Platform::MacOs, Platform::Other] {
            assert_eq!(path::program_name(text, other), others, "{}", text);
        }
    }
    let hook = |platform: Platform| infer_hook_permissions(r"C:\tools\run.exe --x", platform);
    assert!(matches!(&hook(Platform::Windows)[0], Permission::Shell { commands }
        if commands == &strings(&[r"C:\tools\run.exe --x", "run.exe"])));
    assert!(matches!(&hook(Platform::Linux)[0], Permission::Shell { commands }
        if commands == &strings(&[r"C:\tools\run.exe --x", r"C:\tools\run.exe"])));
}

#[test]
fn merging_adds_what_is_new_in_each_dimension() {
    let mut perms = vec![Permission::Shell { commands: strings(&["a"]) }];
    merge_permissions(
        &mut perms,
        &vec![
            Permission::Shell { commands: strings(&["b", "a"]) },
            Permission::Env { keys: strings(&["K"]) },
        ],
    );
    assert_eq!(perms.len(), 2);
    assert!(matches!(&perms[0], Permission::Shell { commands }
        if commands == &strings(&["a", "b"])));
    assert!(matches!(&perms[1], Permission::Env { keys } if keys == &strings(&["K"])));
}

#[test]
fn merged_dimensions_stay_apart() {
    let mut perms = infer_hook_permissions("curl https://hooks.example.org/x > /tmp/out", Platform::Linux);
    merge_permissions(
        &mut perms,
        &vec![
            Permission::Network { domains: strings(&["a.example.org"]) },
            Permission::FileSystem { paths: strings(&["/tmp/more"]) },
            Permission::Network { domains: strings(&["b.example.org"]) },
        ],
    );
    let network = perms.iter().filter(|p| matches!(p, Permission::Network { .. })).count();
    let files = perms.iter().filter(|p| matches!(p, Permission::FileSystem { .. })).count();
    assert_eq!((network, files), (1, 1));
    assert!(perms.iter().any(|p| matches!(p, Permission::Network { domains }
        if domains == &strings(&["hooks.example.org", "a.example.org", "b.example.org"]))));
}

#[test]
fn install_scripts_name_their_programs() {
    let package = r#"{"scripts":{"postinstall":"/bin/sh run.sh","test":"jest"}}"#;
    assert_eq!(find_install_programs(&Some(package.to_string()), Platform::Linux), strings(&["sh"]));
    assert!(find_install_programs(&Some("not json".to_string()), Platform::Linux).is_empty());
    assert!(find_install_programs(&None, Platform::Linux).is_empty());
    assert_eq!(plugin_code_extension("/p/index.ts.disabled"), Some("ts".to_string()));
    assert_eq!(plugin_code_extension("/p/index"), None);
}

#[test]
fn the_remote_of_a_repository_is_its_origin() {
    let config = "[core]\n\tbare = false\n[remote \"origin\"]\n\turl = git@github.com:a/b.git\n";
    assert_eq!(parse_git_remote(config), Some("git@github.com:a/b.git".to_string()));
    assert_eq!(parse_git_remote("[core]\n"), None);
}
