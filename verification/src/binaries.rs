//! Command line tools: which ones are installed, and what is known of them.

use vstd::prelude::*;

use crate::agents;
use crate::files;
use crate::files::{FileTree, FileTreeView};
use crate::ids;
use crate::models;
use crate::models::Timestamp;
pub use crate::models::Platform;
use crate::outside;
use crate::path;
use crate::permissions;
use crate::split;
use crate::text;

verus! {

/// Version numbers, as group.
pub const VERSION: &'static str = r"(\d+\.\d+(?:\.\d+)?)";

// ---------------------------------------------------------------------------
// Well-known tools
// ---------------------------------------------------------------------------

/// A tool that is known beforehand.
#[derive(Debug)]
pub struct KnownCli {
    /// The name of its binary.
    pub binary_name: String,
    /// Its name for display.
    pub display_name: String,
    /// The domains that it talks to.
    pub api_domains: Vec<String>,
    /// Where its credentials lie, as a template.
    pub credentials_path: Option<String>,
    /// The address of its repository.
    pub repo_url: Option<String>,
}

/// The mathematical value of a [`KnownCli`].
#[verifier::ext_equal]
pub struct KnownCliView {
    pub binary_name: Seq<char>,
    pub display_name: Seq<char>,
    pub api_domains: Seq<Seq<char>>,
    pub credentials_path: Option<Seq<char>>,
    pub repo_url: Option<Seq<char>>,
}

impl View for KnownCli {
    type V = KnownCliView;

    open spec fn view(&self) -> KnownCliView {
        KnownCliView {
            binary_name: self.binary_name@,
            display_name: self.display_name@,
            api_domains: text::strs(self.api_domains@),
            credentials_path: text::ostr(self.credentials_path),
            repo_url: text::ostr(self.repo_url),
        }
    }
}

/// The entry of a well-known tool that has no repository on record.
pub open spec fn known(
    binary_name: Seq<char>,
    display_name: Seq<char>,
    api_domains: Seq<Seq<char>>,
    credentials_path: Option<Seq<char>>,
) -> KnownCliView {
    KnownCliView { binary_name, display_name, api_domains, credentials_path, repo_url: None }
}

/// The well-known tools.
pub open spec fn known_clis_view() -> Seq<KnownCliView> {
    seq![
        known("wecom-cli"@, "WeChat Work CLI"@, seq!["qyapi.weixin.qq.com"@], Some("~/.config/wecom/bot.enc"@)),
        known("lark-cli"@, "Lark / Feishu CLI"@, seq!["open.feishu.cn"@, "open.larksuite.com"@], Some("~/.config/lark/credentials"@)),
        known("dws"@, "DingTalk Workspace CLI"@, seq!["api.dingtalk.com"@], Some("~/.config/dws/auth.json"@)),
        known("meitu"@, "Meitu CLI"@, seq!["openapi.mtlab.meitu.com"@], Some("~/.meitu/credentials.json"@)),
        known("officecli"@, "OfficeCLI"@, Seq::<Seq<char>>::empty(), None),
        known("notion-cli"@, "Notion CLI"@, seq!["mcp.notion.com"@], Some("~/.config/notion-cli/token.json"@)),
        known("opencli"@, "OpenCLI"@, Seq::<Seq<char>>::empty(), None),
        known("cli-anything"@, "CLI-Anything"@, Seq::<Seq<char>>::empty(), None),
    ]
}

fn known_cli(
    binary_name: &str,
    display_name: &str,
    api_domains: Vec<String>,
    credentials_path: Option<String>,
) -> (r: KnownCli)
    ensures
        r@ == known(
            binary_name@,
            display_name@,
            text::strs(api_domains@),
            text::ostr(credentials_path),
        ),
{
    KnownCli {
        binary_name: binary_name.to_owned(),
        display_name: display_name.to_owned(),
        api_domains,
        credentials_path,
        repo_url: None,
    }
}

/// The well-known tools.
pub fn known_clis() -> (r: Vec<KnownCli>)
    ensures
        models::list_view(r@) == known_clis_view(),
{
    let mut v: Vec<KnownCli> = Vec::new();
    let mut lark: Vec<String> = Vec::new();
    lark.push("open.feishu.cn".to_owned());
    lark.push("open.larksuite.com".to_owned());
    assert(text::strs(lark@) =~= seq!["open.feishu.cn"@, "open.larksuite.com"@]);
    v.push(known_cli("wecom-cli", "WeChat Work CLI", text::one("qyapi.weixin.qq.com".to_owned()), Some("~/.config/wecom/bot.enc".to_owned())));
    v.push(known_cli("lark-cli", "Lark / Feishu CLI", lark, Some("~/.config/lark/credentials".to_owned())));
    v.push(known_cli("dws", "DingTalk Workspace CLI", text::one("api.dingtalk.com".to_owned()), Some("~/.config/dws/auth.json".to_owned())));
    v.push(known_cli("meitu", "Meitu CLI", text::one("openapi.mtlab.meitu.com".to_owned()), Some("~/.meitu/credentials.json".to_owned())));
    v.push(known_cli("officecli", "OfficeCLI", text::no_strings(), None));
    v.push(known_cli("notion-cli", "Notion CLI", text::one("mcp.notion.com".to_owned()), Some("~/.config/notion-cli/token.json".to_owned())));
    v.push(known_cli("opencli", "OpenCLI", text::no_strings(), None));
    v.push(known_cli("cli-anything", "CLI-Anything", text::no_strings(), None));
    assert(models::list_view(v@) =~= known_clis_view());
    v
}

/// The entry of the first tool with a binary name.
pub open spec fn known_in(list: Seq<KnownCliView>, name: Seq<char>) -> Option<KnownCliView>
    decreases list.len(),
{
    if list.len() == 0 {
        None
    } else if list[0].binary_name == name {
        Some(list[0])
    } else {
        known_in(list.drop_first(), name)
    }
}

/// The place of the first tool with a binary name.
pub fn find_known(list: &Vec<KnownCli>, name: &str) -> (r: Option<usize>)
    ensures
        match r {
            Some(i) => i < list.len() && known_in(models::list_view(list@), name@) == Some(
                list@[i as int]@,
            ),
            None => known_in(models::list_view(list@), name@) is None,
        },
{
    let ghost v = models::list_view(list@);
    let mut i: usize = 0;
    assert(v.skip(0) =~= v);
    while i < list.len()
        invariant
            v == models::list_view(list@),
            i <= list.len(),
            known_in(v.skip(i as int), name@) == known_in(v, name@),
        decreases list.len() - i,
    {
        assert(v.skip(i as int)[0] == list@[i as int]@);
        assert(v.skip(i as int).drop_first() =~= v.skip(i + 1));
        if text::str_eq(&list[i].binary_name, name) {
            return Some(i);
        }
        i += 1;
    }
    None
}

// ---------------------------------------------------------------------------
// The machine
// ---------------------------------------------------------------------------

/// What a binary said when it was asked for its version.
#[derive(Debug)]
pub struct VersionAnswer {
    /// The path of the binary.
    pub binary: String,
    /// What it wrote to the standard output.
    pub stdout: String,
    /// What it wrote to the standard error.
    pub stderr: String,
}

/// The mathematical value of a [`VersionAnswer`].
#[verifier::ext_equal]
pub struct VersionAnswerView {
    pub binary: Seq<char>,
    pub stdout: Seq<char>,
    pub stderr: Seq<char>,
}

impl View for VersionAnswer {
    type V = VersionAnswerView;

    open spec fn view(&self) -> VersionAnswerView {
        VersionAnswerView {
            binary: self.binary@,
            stdout: self.stdout@,
            stderr: self.stderr@,
        }
    }
}

/// What was asked of the machine.
#[derive(Debug)]
pub struct Machine {
    /// The operating system.
    pub platform: Platform,
    /// The home directory.
    pub home: Option<String>,
    /// The directory for configuration files.
    pub config_dir: Option<String>,
    /// The names that `which` found a binary for, with what it wrote.
    pub which: Vec<(String, String)>,
    /// What binaries said of their version.
    pub versions: Vec<VersionAnswer>,
}

/// The mathematical value of a [`Machine`].
#[verifier::ext_equal]
pub struct MachineView {
    pub platform: Platform,
    pub home: Option<Seq<char>>,
    pub config_dir: Option<Seq<char>>,
    pub which: Seq<(Seq<char>, Seq<char>)>,
    pub versions: Seq<VersionAnswerView>,
}

impl View for Machine {
    type V = MachineView;

    open spec fn view(&self) -> MachineView {
        MachineView {
            platform: self.platform,
            home: text::ostr(self.home),
            config_dir: text::ostr(self.config_dir),
            which: models::pairs_view(self.which@),
            versions: models::list_view(self.versions@),
        }
    }
}

/// The first line of what `which` wrote, unless it is blank.
pub open spec fn first_path(output: Seq<char>) -> Option<Seq<char>> {
    let lines = split::lines_of(output);
    if lines.len() == 0 || text::trimmed(lines[0]).len() == 0 {
        None
    } else {
        Some(text::trimmed(lines[0]))
    }
}

/// The first line of what `which` wrote, unless it is blank.
pub fn parse_which(output: &str) -> (r: Option<String>)
    ensures
        text::ostr(r) == first_path(output@),
{
    let lines = split::lines(output);
    let ghost all = split::lines_of(output@);
    if lines.len() == 0 {
        return None;
    }
    assert(all[0] == lines@[0]@);
    let t = text::trim(&lines[0]);
    if t.is_empty() {
        None
    } else {
        Some(t.to_owned())
    }
}

/// Directories with binaries that may be missing from the search path.
pub open spec fn extra_dirs(platform: Platform, home: Seq<char>) -> Seq<Seq<char>> {
    seq![
        path::extended(home, ".local/bin"@),
        path::extended(home, ".cargo/bin"@),
        path::extended(home, "go/bin"@),
        path::extended(home, ".bun/bin"@),
    ] + (match platform {
        Platform::MacOs => seq!["/opt/homebrew/bin"@, "/usr/local/bin"@],
        Platform::Linux => seq![
            "/usr/local/bin"@,
            path::extended(home, ".linuxbrew/bin"@),
            "/home/linuxbrew/.linuxbrew/bin"@,
        ],
        Platform::Windows => seq![
            path::extended(home, "AppData/Local/Programs"@),
            path::extended(home, "scoop/shims"@),
        ],
        Platform::Other => Seq::<Seq<char>>::empty(),
    })
}

/// Directories with binaries that may be missing from the search path.
pub fn list_extra_dirs(platform: Platform, home: &str) -> (r: Vec<String>)
    ensures
        text::strs(r@) == extra_dirs(platform, home@),
{
    let mut v: Vec<String> = Vec::new();
    v.push(path::join(home, ".local/bin"));
    v.push(path::join(home, ".cargo/bin"));
    v.push(path::join(home, "go/bin"));
    v.push(path::join(home, ".bun/bin"));
    match platform {
        Platform::MacOs => {
            v.push("/opt/homebrew/bin".to_owned());
            v.push("/usr/local/bin".to_owned());
        },
        Platform::Linux => {
            v.push("/usr/local/bin".to_owned());
            v.push(path::join(home, ".linuxbrew/bin"));
            v.push("/home/linuxbrew/.linuxbrew/bin".to_owned());
        },
        Platform::Windows => {
            v.push(path::join(home, "AppData/Local/Programs"));
            v.push(path::join(home, "scoop/shims"));
        },
        Platform::Other => {},
    }
    assert(text::strs(v@) =~= extra_dirs(platform, home@));
    v
}

/// The binary with a name in a directory, if it is there. On Windows its file may
/// end in `.exe`.
pub open spec fn file_in_dir(
    fs: FileTreeView,
    platform: Platform,
    dir: Seq<char>,
    name: Seq<char>,
) -> Option<Seq<char>> {
    if fs.at(path::extended(dir, name)).is_file {
        Some(path::extended(dir, name))
    } else if platform == Platform::Windows && fs.at(
        path::extended(dir, name + ".exe"@),
    ).is_file {
        Some(path::extended(dir, name + ".exe"@))
    } else {
        None
    }
}

/// The first binary with a name in some directories.
pub open spec fn file_in_dirs(
    fs: FileTreeView,
    platform: Platform,
    dirs: Seq<Seq<char>>,
    name: Seq<char>,
) -> Option<Seq<char>>
    decreases dirs.len(),
{
    if dirs.len() == 0 {
        None
    } else {
        match file_in_dir(fs, platform, dirs[0], name) {
            Some(p) => Some(p),
            None => file_in_dirs(fs, platform, dirs.drop_first(), name),
        }
    }
}

/// Where a binary lies: where `which` found it, else in a directory that may be
/// missing from the search path.
pub open spec fn binary_path(fs: FileTreeView, m: MachineView, name: Seq<char>) -> Option<
    Seq<char>,
> {
    let found = match agents::value_of(m.which, name) {
        Some(output) => first_path(output),
        None => None,
    };
    if found is Some {
        found
    } else {
        match m.home {
            None => None,
            Some(home) => file_in_dirs(fs, m.platform, extra_dirs(m.platform, home), name),
        }
    }
}

fn find_in_dir(fs: &FileTree, platform: Platform, dir: &str, name: &str) -> (r: Option<String>)
    ensures
        text::ostr(r) == file_in_dir(fs@, platform, dir@, name@),
{
    let plain = path::join(dir, name);
    if fs.is_file(&plain) {
        return Some(plain);
    }
    if platform == Platform::Windows {
        let program = path::join(dir, &text::cat2(name, ".exe"));
        if fs.is_file(&program) {
            return Some(program);
        }
    }
    None
}

/// Where a binary lies.
pub fn which_binary(fs: &FileTree, m: &Machine, name: &str) -> (r: Option<String>)
    ensures
        text::ostr(r) == binary_path(fs@, m@, name@),
{
    if let Some(output) = agents::lookup(&m.which, name) {
        let found = parse_which(&output);
        if found.is_some() {
            return found;
        }
    }
    let home = match &m.home {
        None => {
            return None;
        },
        Some(h) => h,
    };
    let dirs = list_extra_dirs(m.platform, home);
    let ghost all = text::strs(dirs@);
    let mut i: usize = 0;
    assert(all.skip(0) =~= all);
    while i < dirs.len()
        invariant
            all == text::strs(dirs@),
            binary_path(fs@, m@, name@) == file_in_dirs(fs@, m.platform, all, name@),
            i <= dirs.len(),
            file_in_dirs(fs@, m.platform, all.skip(i as int), name@) == file_in_dirs(
                fs@,
                m.platform,
                all,
                name@,
            ),
        decreases dirs.len() - i,
    {
        assert(all.skip(i as int)[0] == dirs@[i as int]@);
        assert(all.skip(i as int).drop_first() =~= all.skip(i + 1));
        let found = find_in_dir(fs, m.platform, &dirs[i], name);
        if found.is_some() {
            return found;
        }
        i += 1;
    }
    None
}

/// The first of some texts.
pub open spec fn first_of(groups: Seq<Seq<char>>) -> Option<Seq<char>> {
    if groups.len() == 0 {
        None
    } else {
        Some(groups[0])
    }
}

/// The text in which a binary tells its version.
pub open spec fn version_text(stdout: Seq<char>, stderr: Seq<char>) -> Seq<char> {
    if text::trimmed(stdout).len() == 0 {
        stderr
    } else {
        stdout
    }
}

/// The version of the binary at `p`: the first version number in its standard
/// output, or in its standard error where the standard output is blank.
pub open spec fn version_in(answers: Seq<VersionAnswerView>, p: Seq<char>) -> Option<Seq<char>>
    decreases answers.len(),
{
    if answers.len() == 0 {
        None
    } else if answers[0].binary == p {
        first_of(
            permissions::all_groups(
                VERSION@,
                version_text(answers[0].stdout, answers[0].stderr),
            ),
        )
    } else {
        version_in(answers.drop_first(), p)
    }
}

/// The text in which a binary tells its version.
pub fn pick_version_text<'a>(stdout: &'a str, stderr: &'a str) -> (r: &'a str)
    ensures
        r@ == version_text(stdout@, stderr@),
{
    if text::trim(stdout).is_empty() {
        stderr
    } else {
        stdout
    }
}

/// The version of the binary at `p`, from what it said.
pub fn get_binary_version(m: &Machine, p: &str) -> (r: Option<String>)
    ensures
        text::ostr(r) == version_in(m@.versions, p@),
{
    let ghost v = models::list_view(m.versions@);
    let mut i: usize = 0;
    assert(v.skip(0) =~= v);
    while i < m.versions.len()
        invariant
            v == models::list_view(m.versions@),
            v == m@.versions,
            i <= m.versions.len(),
            version_in(v.skip(i as int), p@) == version_in(v, p@),
        decreases m.versions.len() - i,
    {
        assert(v.skip(i as int)[0] == m.versions@[i as int]@);
        assert(v.skip(i as int).drop_first() =~= v.skip(i + 1));
        if text::str_eq(&m.versions[i].binary, p) {
            let t = pick_version_text(&m.versions[i].stdout, &m.versions[i].stderr);
            let groups = permissions::find_groups(VERSION, t);
            let ghost g = text::strs(groups@);
            if groups.len() == 0 {
                return None;
            }
            assert(g[0] == groups@[0]@);
            return Some(groups[0].clone());
        }
        i += 1;
    }
    None
}

// ---------------------------------------------------------------------------
// Package managers
// ---------------------------------------------------------------------------

/// The package manager that a path in lower case, with `/` as separator, belongs
/// to.
pub open spec fn method_of(p: Seq<char>) -> Option<Seq<char>> {
    if split::has_text(p, "/node_modules/"@) || split::has_text(p, "/.npm/"@) || split::has_text(
        p,
        "/npx/"@,
    ) {
        Some("npm"@)
    } else if split::has_text(p, "/.cargo/"@) {
        Some("cargo"@)
    } else if split::has_text(p, "/pip"@) || split::has_text(p, "/python"@) || split::has_text(
        p,
        "/site-packages/"@,
    ) {
        Some("pip"@)
    } else if split::has_text(p, "/homebrew/"@) || split::has_text(p, "/cellar/"@)
        || split::has_text(p, "/linuxbrew/"@) {
        Some("brew"@)
    } else {
        None
    }
}

/// The package manager that a path in lower case, with `/` as separator, belongs
/// to.
pub fn method_from_normalized(p: &str) -> (r: Option<String>)
    ensures
        text::ostr(r) == method_of(p@),
{
    if split::contains(p, "/node_modules/") || split::contains(p, "/.npm/") || split::contains(
        p,
        "/npx/",
    ) {
        Some("npm".to_owned())
    } else if split::contains(p, "/.cargo/") {
        Some("cargo".to_owned())
    } else if split::contains(p, "/pip") || split::contains(p, "/python") || split::contains(
        p,
        "/site-packages/",
    ) {
        Some("pip".to_owned())
    } else if split::contains(p, "/homebrew/") || split::contains(p, "/cellar/")
        || split::contains(p, "/linuxbrew/") {
        Some("brew".to_owned())
    } else {
        None
    }
}

/// A path in lower case, with `/` as separator.
pub open spec fn normalized(p: Seq<char>) -> Seq<char> {
    split::replaced(outside::lowercase(p), '\\', '/')
}

/// The package manager that a binary was installed by, read off its path.
pub fn detect_install_method(p: &str) -> (r: Option<String>)
    ensures
        text::ostr(r) == method_of(normalized(p@)),
{
    let lower = outside::to_lowercase(p);
    let n = split::replace_char(&lower, '\\', '/');
    method_from_normalized(&n)
}

/// A template with the home directory in place of a leading `~/`. On Windows the
/// directory for configuration files stands for a leading `~/.config/`, where
/// there is one.
pub open spec fn credential_path(template: Seq<char>, m: MachineView) -> Seq<char> {
    let home = match m.home {
        Some(h) => h,
        None => Seq::<char>::empty(),
    };
    let in_home = match text::after_prefix(template, "~/"@) {
        Some(rest) => path::extended(home, rest),
        None => template,
    };
    match (text::after_prefix(template, "~/.config/"@), m.config_dir) {
        (Some(rest), Some(dir)) => if m.platform == Platform::Windows {
            path::extended(dir, rest)
        } else {
            in_home
        },
        _ => in_home,
    }
}

/// A template with the home directory in place of a leading `~/`.
pub fn resolve_credential_path(template: &str, m: &Machine) -> (r: String)
    ensures
        r@ == credential_path(template@, m@),
{
    if m.platform == Platform::Windows {
        if let Some(dir) = &m.config_dir {
            if let Some(rest) = text::strip_prefix(template, "~/.config/") {
                return path::join(dir, rest);
            }
        }
    }
    let empty = String::new();
    let home: &String = match &m.home {
        Some(h) => h,
        None => &empty,
    };
    match text::strip_prefix(template, "~/") {
        Some(rest) => path::join(home, rest),
        None => template.to_owned(),
    }
}

/// The point in time that a number of seconds stands for, if there is one.
pub open spec fn receipt_time(seconds: Option<i64>) -> Option<Timestamp> {
    match seconds {
        None => None,
        Some(s) => if outside::FIRST_SECOND <= s <= outside::LAST_SECOND {
            Some(Timestamp { secs: s, nanos: 0 })
        } else {
            None
        },
    }
}

/// The point in time that a number of seconds stands for, if there is one.
pub fn time_of_receipt(seconds: Option<i64>) -> (r: Option<Timestamp>)
    ensures
        r == receipt_time(seconds),
{
    match seconds {
        None => None,
        Some(s) => outside::from_unix_seconds(s),
    }
}

/// The time in the first receipt from `dir` upwards, over at most `levels`
/// directories.
pub open spec fn receipt_above(fs: FileTreeView, dir: Seq<char>, levels: nat) -> Option<Timestamp>
    decreases levels,
{
    let receipt = fs.at(path::extended(dir, "INSTALL_RECEIPT.json"@));
    if levels == 0 {
        None
    } else if receipt.exists {
        match receipt.content {
            None => None,
            Some(json) => receipt_time(outside::json_int_at(json, "/time"@)),
        }
    } else {
        match path::parent_of(dir) {
            None => None,
            Some(up) => receipt_above(fs, up, (levels - 1) as nat),
        }
    }
}

/// When Homebrew installed the binary at `p`, by the receipt above the file that
/// the path really leads to.
pub open spec fn brew_time(fs: FileTreeView, p: Seq<char>) -> Option<Timestamp> {
    match fs.at(p).canonical {
        None => None,
        Some(q) => match path::parent_of(q) {
            None => None,
            Some(dir) => receipt_above(fs, dir, 5),
        },
    }
}

/// When Homebrew installed the binary at `p`.
pub fn brew_install_time(fs: &FileTree, p: &str) -> (r: Option<Timestamp>)
    ensures
        r == brew_time(fs@, p@),
{
    let file = match fs.canonicalize(p) {
        None => {
            return None;
        },
        Some(q) => q,
    };
    let mut dir = match path::parent(&file) {
        None => {
            return None;
        },
        Some(d) => d,
    };
    let mut left: usize = 5;
    while left > 0
        invariant
            left <= 5,
            brew_time(fs@, p@) == receipt_above(fs@, dir@, left as nat),
        decreases left,
    {
        let receipt = path::join(&dir, "INSTALL_RECEIPT.json");
        if fs.has(&receipt) {
            return match fs.read(&receipt) {
                None => None,
                Some(json) => time_of_receipt(outside::json_int(&json, "/time")),
            };
        }
        match path::parent(&dir) {
            None => {
                return None;
            },
            Some(up) => {
                dir = up;
            },
        }
        left -= 1;
    }
    None
}

/// When the binary at `p` was installed and last changed; now, where there is no
/// binary.
pub open spec fn cli_times(
    fs: FileTreeView,
    p: Option<Seq<char>>,
    method: Option<Seq<char>>,
    now: Timestamp,
) -> (Timestamp, Timestamp) {
    match p {
        None => (now, now),
        Some(b) => (
            if method == Some("brew"@) && brew_time(fs, b) is Some {
                brew_time(fs, b)->0
            } else {
                files::created_or(fs.at(b), now)
            },
            files::modified_or(fs.at(b), now),
        ),
    }
}

/// When the binary at `p` was installed and last changed.
pub fn cli_timestamps(
    fs: &FileTree,
    p: &Option<String>,
    method: &Option<String>,
    now: Timestamp,
) -> (r: (Timestamp, Timestamp))
    ensures
        r == cli_times(fs@, text::ostr(*p), text::ostr(*method), now),
{
    match p {
        None => (now, now),
        Some(b) => {
            let brew = match method {
                Some(m) => text::str_eq(m, "brew"),
                None => false,
            };
            let installed = if brew {
                match brew_install_time(fs, b) {
                    Some(t) => t,
                    None => fs.created_time(b, now),
                }
            } else {
                fs.created_time(b, now)
            };
            (installed, fs.modified_time(b, now))
        },
    }
}

// ---------------------------------------------------------------------------
// Laws
// ---------------------------------------------------------------------------

/// Any two well-known tools have distinct identifiers.
pub proof fn known_tools_have_distinct_ids(i: int, j: int)
    requires
        0 <= i < j < known_clis_view().len(),
    ensures
        ids::cli_id(known_clis_view()[i].binary_name) != ids::cli_id(
            known_clis_view()[j].binary_name,
        ),
{
    let (a, b) = (known_clis_view()[i].binary_name, known_clis_view()[j].binary_name);
    lemma_tool_hash(i);
    lemma_tool_hash(j);
    ids::ids_agree_exactly_with_hashes("cli::"@ + a, "cli::"@ + b);
}

/// The hash of the key of a well-known tool.
spec fn tool_hash(i: int) -> u64 {
    if i == 0 {
        0x059d_2fb5_7f5e_7f35
    } else if i == 1 {
        0x4cc9_2bee_a4fa_5b3e
    } else if i == 2 {
        0xdf01_d7bf_0c4d_7829
    } else if i == 3 {
        0x6cbe_f519_4a35_f199
    } else if i == 4 {
        0xd2d6_4bde_9427_2e79
    } else if i == 5 {
        0x6b6c_21d7_759c_2b3b
    } else if i == 6 {
        0x3347_8af9_62b5_9599
    } else {
        0xa757_4a7f_8014_890a
    }
}

proof fn lemma_tool_prefix()
    ensures
        vstd::utf8::is_ascii_chars("cli::"@),
        ids::fnv1a_of(vstd::utf8::encode_utf8("cli::"@)) == 0x8d65_4e95_09e8_6909,
{
    reveal_strlit("cli::");
    let none = Seq::<char>::empty();
    assert(none + "cli::"@ =~= "cli::"@);
    ids::lemma_hash_of_ascii(none, "cli::"@);
    vstd::utf8::is_ascii_chars_encode_utf8(none);
    reveal_with_fuel(ids::hashed_on, 6);
    assert(ids::mixed(ids::mixed(ids::mixed(ids::mixed(ids::mixed(0xcbf2_9ce4_8422_2325, 99), 108),
        105), 58), 58) == 0x8d65_4e95_09e8_6909) by (bit_vector);
}

proof fn lemma_tool_hash(i: int)
    requires
        0 <= i < known_clis_view().len(),
    ensures
        ids::fnv1a_of(vstd::utf8::encode_utf8("cli::"@ + known_clis_view()[i].binary_name))
            == tool_hash(i),
{
    lemma_tool_prefix();
    if i == 0 {
        lemma_wecom_cli();
    } else if i == 1 {
        lemma_lark_cli();
    } else if i == 2 {
        lemma_dws();
    } else if i == 3 {
        lemma_meitu();
    } else if i == 4 {
        lemma_officecli();
    } else if i == 5 {
        lemma_notion_cli();
    } else if i == 6 {
        lemma_opencli();
    } else {
        lemma_cli_anything();
    }
    ids::lemma_hash_of_ascii("cli::"@, known_clis_view()[i].binary_name);
}

proof fn lemma_wecom_cli()
    ensures
        vstd::utf8::is_ascii_chars("wecom-cli"@),
        ids::hashed_on(0x8d65_4e95_09e8_6909, "wecom-cli"@) == 0x059d_2fb5_7f5e_7f35,
{
    reveal_strlit("wecom-cli");
    reveal_with_fuel(ids::hashed_on, 10);
    assert(ids::mixed(ids::mixed(ids::mixed(ids::mixed(ids::mixed(ids::mixed(ids::mixed(ids::mixed(
        ids::mixed(0x8d65_4e95_09e8_6909, 119), 101), 99), 111), 109), 45), 99), 108), 105) ==
        0x059d_2fb5_7f5e_7f35) by (bit_vector);
}

proof fn lemma_lark_cli()
    ensures
        vstd::utf8::is_ascii_chars("lark-cli"@),
        ids::hashed_on(0x8d65_4e95_09e8_6909, "lark-cli"@) == 0x4cc9_2bee_a4fa_5b3e,
{
    reveal_strlit("lark-cli");
    reveal_with_fuel(ids::hashed_on, 9);
    assert(ids::mixed(ids::mixed(ids::mixed(ids::mixed(ids::mixed(ids::mixed(ids::mixed(ids::mixed(
        0x8d65_4e95_09e8_6909, 108), 97), 114), 107), 45), 99), 108), 105) == 0x4cc9_2bee_a4fa_5b3e)
        by (bit_vector);
}

proof fn lemma_dws()
    ensures
        vstd::utf8::is_ascii_chars("dws"@),
        ids::hashed_on(0x8d65_4e95_09e8_6909, "dws"@) == 0xdf01_d7bf_0c4d_7829,
{
    reveal_strlit("dws");
    reveal_with_fuel(ids::hashed_on, 4);
    assert(ids::mixed(ids::mixed(ids::mixed(0x8d65_4e95_09e8_6909, 100), 119), 115) ==
        0xdf01_d7bf_0c4d_7829) by (bit_vector);
}

proof fn lemma_meitu()
    ensures
        vstd::utf8::is_ascii_chars("meitu"@),
        ids::hashed_on(0x8d65_4e95_09e8_6909, "meitu"@) == 0x6cbe_f519_4a35_f199,
{
    reveal_strlit("meitu");
    reveal_with_fuel(ids::hashed_on, 6);
    assert(ids::mixed(ids::mixed(ids::mixed(ids::mixed(ids::mixed(0x8d65_4e95_09e8_6909, 109), 101),
        105), 116), 117) == 0x6cbe_f519_4a35_f199) by (bit_vector);
}

proof fn lemma_officecli()
    ensures
        vstd::utf8::is_ascii_chars("officecli"@),
        ids::hashed_on(0x8d65_4e95_09e8_6909, "officecli"@) == 0xd2d6_4bde_9427_2e79,
{
    reveal_strlit("officecli");
    reveal_with_fuel(ids::hashed_on, 10);
    assert(ids::mixed(ids::mixed(ids::mixed(ids::mixed(ids::mixed(ids::mixed(ids::mixed(ids::mixed(
        ids::mixed(0x8d65_4e95_09e8_6909, 111), 102), 102), 105), 99), 101), 99), 108), 105) ==
        0xd2d6_4bde_9427_2e79) by (bit_vector);
}

proof fn lemma_notion_cli()
    ensures
        vstd::utf8::is_ascii_chars("notion-cli"@),
        ids::hashed_on(0x8d65_4e95_09e8_6909, "notion-cli"@) == 0x6b6c_21d7_759c_2b3b,
{
    reveal_strlit("notion-cli");
    reveal_with_fuel(ids::hashed_on, 11);
    assert(ids::mixed(ids::mixed(ids::mixed(ids::mixed(ids::mixed(ids::mixed(ids::mixed(ids::mixed(
        ids::mixed(ids::mixed(0x8d65_4e95_09e8_6909, 110), 111), 116), 105), 111), 110), 45), 99),
        108), 105) == 0x6b6c_21d7_759c_2b3b) by (bit_vector);
}

proof fn lemma_opencli()
    ensures
        vstd::utf8::is_ascii_chars("opencli"@),
        ids::hashed_on(0x8d65_4e95_09e8_6909, "opencli"@) == 0x3347_8af9_62b5_9599,
{
    reveal_strlit("opencli");
    reveal_with_fuel(ids::hashed_on, 8);
    assert(ids::mixed(ids::mixed(ids::mixed(ids::mixed(ids::mixed(ids::mixed(ids::mixed(
        0x8d65_4e95_09e8_6909, 111), 112), 101), 110), 99), 108), 105) == 0x3347_8af9_62b5_9599)
        by (bit_vector);
}

proof fn lemma_cli_anything()
    ensures
        vstd::utf8::is_ascii_chars("cli-anything"@),
        ids::hashed_on(0x8d65_4e95_09e8_6909, "cli-anything"@) == 0xa757_4a7f_8014_890a,
{
    reveal_strlit("cli-anything");
    reveal_with_fuel(ids::hashed_on, 13);
    assert(ids::mixed(ids::mixed(ids::mixed(ids::mixed(ids::mixed(ids::mixed(ids::mixed(ids::mixed(
        ids::mixed(ids::mixed(ids::mixed(ids::mixed(0x8d65_4e95_09e8_6909, 99), 108), 105), 45),
        97), 110), 121), 116), 104), 105), 110), 103) == 0xa757_4a7f_8014_890a) by (bit_vector);
}

} // verus!
