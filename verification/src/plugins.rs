//! The code of plugins: which files belong to it, what it may do, and the text
//! that an audit looks at.

use vstd::prelude::*;
use vstd::string::StringExecFns;

use crate::files::{FileTree, FileTreeView};
use crate::models;
use crate::models::{Permission, PermissionView, Platform};
use crate::outside;
use crate::path;
use crate::permissions;
use crate::split;
use crate::text;

verus! {

/// How many bytes of code are read to find out what a plugin may do.
pub const MAX_PERMISSION_BYTES: usize = 262144;

/// How many bytes of code an audit reads.
pub const MAX_AUDIT_BYTES: usize = 524288;

/// The extension of a code file, which may carry `.disabled` behind it.
pub open spec fn code_extension(p: Seq<char>) -> Option<Seq<char>> {
    match path::file_name_of(p) {
        None => None,
        Some(f) => path::extension_of(
            match text::before_suffix(f, ".disabled"@) {
                Some(base) => base,
                None => f,
            },
        ),
    }
}

/// The extension of a code file, which may carry `.disabled` behind it.
pub fn plugin_code_extension(p: &str) -> (r: Option<String>)
    ensures
        text::ostr(r) == code_extension(p@),
{
    match path::file_name(p) {
        None => None,
        Some(f) => match text::strip_suffix(&f, ".disabled") {
            Some(base) => path::extension(base),
            None => path::extension(&f),
        },
    }
}

/// Whether a text is one of a list.
pub open spec fn among(e: Option<Seq<char>>, allowed: Seq<Seq<char>>) -> bool {
    e is Some && allowed.contains(e->0)
}

/// The regular files of a list whose extension is allowed.
pub open spec fn allowed_files(
    fs: FileTreeView,
    files: Seq<Seq<char>>,
    allowed: Seq<Seq<char>>,
) -> Seq<Seq<char>>
    decreases files.len(),
{
    if files.len() == 0 {
        Seq::<Seq<char>>::empty()
    } else {
        let before = allowed_files(fs, files.drop_last(), allowed);
        if fs.at(files.last()).is_file && among(path::extension_of(files.last()), allowed) {
            before.push(files.last())
        } else {
            before
        }
    }
}

/// The code files of a plugin: the plugin itself where it is a file, else the
/// files of its directory; none where there is neither.
pub open spec fn code_files(fs: FileTreeView, p: Seq<char>, allowed: Seq<Seq<char>>) -> Option<
    Seq<Seq<char>>,
> {
    if fs.at(p).is_file {
        Some(
            if among(code_extension(p), allowed) {
                seq![p]
            } else {
                Seq::<Seq<char>>::empty()
            },
        )
    } else {
        match fs.at(p).children {
            Some(c) => Some(allowed_files(fs, c, allowed)),
            None => None,
        }
    }
}

fn is_among(e: &Option<String>, allowed: &Vec<String>) -> (r: bool)
    ensures
        r == among(text::ostr(*e), text::strs(allowed@)),
{
    match e {
        Some(x) => text::list_has(allowed, x),
        None => false,
    }
}

/// The code files of a plugin.
pub fn find_code_files(fs: &FileTree, p: &str, allowed: &Vec<String>) -> (r: Option<Vec<String>>)
    ensures
        outside::opt_strs(r) == code_files(fs@, p@, text::strs(allowed@)),
{
    if fs.is_file(p) {
        let e = plugin_code_extension(p);
        if is_among(&e, allowed) {
            return Some(text::one(p.to_owned()));
        }
        return Some(text::no_strings());
    }
    match fs.list(p) {
        None => None,
        Some(entries) => {
            let ghost all = text::strs(entries@);
            let mut out = text::no_strings();
            let mut i: usize = 0;
            assert(all.take(0) =~= Seq::<Seq<char>>::empty());
            while i < entries.len()
                invariant
                    all == text::strs(entries@),
                    i <= entries.len(),
                    text::strs(out@) == allowed_files(
                        fs@,
                        all.take(i as int),
                        text::strs(allowed@),
                    ),
                decreases entries.len() - i,
            {
                assert(all.take(i + 1).drop_last() =~= all.take(i as int));
                assert(all[i as int] == entries@[i as int]@);
                let ghost before = text::strs(out@);
                if fs.is_file(&entries[i]) && is_among(&path::extension(&entries[i]), allowed) {
                    out.push(entries[i].clone());
                    assert(text::strs(out@) =~= before.push(all[i as int]));
                }
                i += 1;
            }
            assert(all.take(i as int) =~= all);
            Some(out)
        },
    }
}

/// The number of bytes of a text in UTF-8.
pub open spec fn byte_len(s: Seq<char>) -> nat {
    vstd::utf8::encode_utf8(s).len()
}

/// The files that can be read, with their texts, up to the first one that would
/// take the sum of their bytes, and of the `used` ones before, above `max`.
pub open spec fn readable(
    fs: FileTreeView,
    files: Seq<Seq<char>>,
    used: nat,
    max: nat,
) -> Seq<(Seq<char>, Seq<char>)>
    decreases files.len(),
{
    if files.len() == 0 {
        Seq::<(Seq<char>, Seq<char>)>::empty()
    } else {
        match fs.at(files[0]).content {
            None => readable(fs, files.drop_first(), used, max),
            Some(c) => if used + byte_len(c) > max {
                Seq::<(Seq<char>, Seq<char>)>::empty()
            } else {
                seq![(files[0], c)] + readable(fs, files.drop_first(), used + byte_len(c), max)
            },
        }
    }
}

/// The files that can be read within `max` bytes, with their texts.
pub fn read_within(fs: &FileTree, files: &Vec<String>, max: usize) -> (r: Vec<(String, String)>)
    ensures
        models::pairs_view(r@) == readable(fs@, text::strs(files@), 0, max as nat),
{
    let mut out: Vec<(String, String)> = Vec::new();
    let mut used: usize = 0;
    let ghost all = text::strs(files@);
    let ghost whole = readable(fs@, all, 0, max as nat);
    let mut i: usize = 0;
    assert(all.skip(0) =~= all);
    assert(models::pairs_view(out@) + whole =~= whole);
    while i < files.len()
        invariant
            all == text::strs(files@),
            whole == readable(fs@, all, 0, max as nat),
            i <= files.len(),
            used <= max,
            models::pairs_view(out@) + readable(
                fs@,
                all.skip(i as int),
                used as nat,
                max as nat,
            ) == whole,
        decreases files.len() - i,
    {
        assert(all.skip(i as int)[0] == files@[i as int]@);
        assert(all.skip(i as int).drop_first() =~= all.skip(i + 1));
        if let Some(c) = fs.read(&files[i]) {
            let n: usize = c.as_str().as_bytes().len();
            if n > max - used {
                assert(models::pairs_view(out@) =~= whole);
                return out;
            }
            let ghost before = models::pairs_view(out@);
            let ghost text = c@;
            let ghost rest = readable(fs@, all.skip(i + 1), (used + n) as nat, max as nat);
            out.push((files[i].clone(), c));
            used += n;
            assert(models::pairs_view(out@) =~= before.push((all[i as int], text)));
            assert(models::pairs_view(out@) + rest =~= before + (seq![(all[i as int], text)]
                + rest));
        }
        i += 1;
    }
    assert(models::pairs_view(out@) =~= whole);
    out
}

// ---------------------------------------------------------------------------
// Permissions
// ---------------------------------------------------------------------------

/// The extensions of files that are read to find out what a plugin may do.
pub open spec fn permission_extensions() -> Seq<Seq<char>> {
    seq!["js"@, "ts"@, "py"@, "json"@, "sh"@, "mjs"@, "cjs"@]
}

/// The texts of files, each followed by a line feed.
pub open spec fn combined(files: Seq<(Seq<char>, Seq<char>)>) -> Seq<char>
    decreases files.len(),
{
    if files.len() == 0 {
        Seq::<char>::empty()
    } else {
        combined(files.drop_last()) + files.last().1 + seq!['\n']
    }
}

/// Whether a list holds the permission to run commands.
pub open spec fn has_shell(perms: Seq<PermissionView>) -> bool {
    exists|i: int| 0 <= i < perms.len() && (#[trigger] perms[i]) is Shell
}

/// Whether a list holds the permission to access files.
pub open spec fn has_files(perms: Seq<PermissionView>) -> bool {
    exists|i: int| 0 <= i < perms.len() && (#[trigger] perms[i]) is FileSystem
}

/// A list with the permission to run commands, which names none if it is added.
pub open spec fn with_shell(perms: Seq<PermissionView>) -> Seq<PermissionView> {
    if has_shell(perms) {
        perms
    } else {
        perms.push(PermissionView::Shell { commands: Seq::<Seq<char>>::empty() })
    }
}

/// A list with the permission to access files, which names none if it is added.
pub open spec fn with_files(perms: Seq<PermissionView>) -> Seq<PermissionView> {
    if has_files(perms) {
        perms
    } else {
        perms.push(PermissionView::FileSystem { paths: Seq::<Seq<char>>::empty() })
    }
}

/// What a plugin may do, from what its code shows and the programs that its
/// package runs when it is installed. Those are listed only where the code shows
/// no commands; commands and files are always listed.
pub open spec fn plugin_perms(code: Seq<PermissionView>, scripts: Seq<Seq<char>>) -> Seq<
    PermissionView,
> {
    with_files(
        with_shell(
            if scripts.len() > 0 && !has_shell(code) {
                code.push(PermissionView::Shell { commands: scripts })
            } else {
                code
            },
        ),
    )
}

/// What a plugin may do of which no code is known.
pub open spec fn unknown_plugin_perms() -> Seq<PermissionView> {
    seq![
        PermissionView::Shell { commands: Seq::<Seq<char>>::empty() },
        PermissionView::FileSystem { paths: Seq::<Seq<char>>::empty() },
    ]
}

/// What a plugin may do of which no code is known.
pub fn unknown_plugin_permissions() -> (r: Vec<Permission>)
    ensures
        models::list_view(r@) == unknown_plugin_perms(),
{
    let mut v: Vec<Permission> = Vec::new();
    v.push(Permission::Shell { commands: text::no_strings() });
    v.push(Permission::FileSystem { paths: text::no_strings() });
    assert(models::list_view(v@) =~= unknown_plugin_perms());
    v
}

/// Whether a list holds the permission to run commands.
pub fn lists_shell(perms: &Vec<Permission>) -> (r: bool)
    ensures
        r == has_shell(models::list_view(perms@)),
{
    let ghost v = models::list_view(perms@);
    let mut i: usize = 0;
    while i < perms.len()
        invariant
            v == models::list_view(perms@),
            i <= perms.len(),
            forall|j: int| 0 <= j < i ==> !((#[trigger] v[j]) is Shell),
        decreases perms.len() - i,
    {
        assert(v[i as int] == perms@[i as int]@);
        if let Permission::Shell { .. } = &perms[i] {
            assert(v[i as int] is Shell);
            return true;
        }
        i += 1;
    }
    false
}

/// Whether a list holds the permission to access files.
pub fn lists_files(perms: &Vec<Permission>) -> (r: bool)
    ensures
        r == has_files(models::list_view(perms@)),
{
    let ghost v = models::list_view(perms@);
    let mut i: usize = 0;
    while i < perms.len()
        invariant
            v == models::list_view(perms@),
            i <= perms.len(),
            forall|j: int| 0 <= j < i ==> !((#[trigger] v[j]) is FileSystem),
        decreases perms.len() - i,
    {
        assert(v[i as int] == perms@[i as int]@);
        if let Permission::FileSystem { .. } = &perms[i] {
            assert(v[i as int] is FileSystem);
            return true;
        }
        i += 1;
    }
    false
}

/// Adds a permission to a list.
pub(crate) fn push_permission(perms: &mut Vec<Permission>, p: Permission)
    ensures
        models::list_view(final(perms)@) == models::list_view(old(perms)@).push(p@),
{
    perms.push(p);
    assert(models::list_view(perms@) =~= models::list_view(old(perms)@).push(p@));
}

/// What a plugin may do, from what its code shows and the programs that its
/// package runs when it is installed.
pub fn plugin_permissions(code: Vec<Permission>, scripts: Vec<String>) -> (r: Vec<Permission>)
    ensures
        models::list_view(r@) == plugin_perms(models::list_view(code@), text::strs(scripts@)),
{
    let mut perms = code;
    if scripts.len() > 0 && !lists_shell(&perms) {
        push_permission(&mut perms, Permission::Shell { commands: scripts });
    }
    if !lists_shell(&perms) {
        push_permission(&mut perms, Permission::Shell { commands: text::no_strings() });
    }
    if !lists_files(&perms) {
        push_permission(&mut perms, Permission::FileSystem { paths: text::no_strings() });
    }
    perms
}

/// The scripts of a package that run when it is installed.
pub open spec fn lifecycle_keys() -> Seq<Seq<char>> {
    seq!["postinstall"@, "preinstall"@, "install"@, "prepare"@]
}

/// The programs that the given scripts of a package run.
pub open spec fn script_programs(
    package: Seq<char>,
    keys: Seq<Seq<char>>,
    platform: Platform,
) -> Seq<Seq<char>>
    decreases keys.len(),
{
    if keys.len() == 0 {
        Seq::<Seq<char>>::empty()
    } else {
        let before = script_programs(package, keys.drop_last(), platform);
        match outside::json_text_at(package, "/scripts/"@ + keys.last()) {
            Some(cmd) => if permissions::command_base(cmd, platform).len() > 0 {
                before.push(permissions::command_base(cmd, platform))
            } else {
                before
            },
            None => before,
        }
    }
}

/// The programs that a package runs when it is installed; none where its text
/// holds no `scripts` object.
pub open spec fn install_programs(package: Option<Seq<char>>, platform: Platform) -> Seq<Seq<char>> {
    match package {
        Some(t) => if outside::json_keys_at(t, "/scripts"@) is Some {
            script_programs(t, lifecycle_keys(), platform)
        } else {
            Seq::<Seq<char>>::empty()
        },
        None => Seq::<Seq<char>>::empty(),
    }
}

/// The programs that a package runs when it is installed.
pub fn find_install_programs(package: &Option<String>, platform: Platform) -> (r: Vec<String>)
    ensures
        text::strs(r@) == install_programs(text::ostr(*package), platform),
{
    let mut out = text::no_strings();
    if let Some(t) = package {
        if outside::json_keys(t, "/scripts").is_some() {
            let mut keys: Vec<&'static str> = Vec::new();
            keys.push("postinstall");
            keys.push("preinstall");
            keys.push("install");
            keys.push("prepare");
            let ghost all = lifecycle_keys();
            let mut i: usize = 0;
            assert(all.take(0) =~= Seq::<Seq<char>>::empty());
            while i < keys.len()
                invariant
                    keys@.len() == all.len() == 4,
                    all == lifecycle_keys(),
                    forall|j: int| 0 <= j < 4 ==> (#[trigger] keys@[j])@ == all[j],
                    i <= keys.len(),
                    text::strs(out@) == script_programs(t@, all.take(i as int), platform),
                decreases keys.len() - i,
            {
                assert(all.take(i + 1).drop_last() =~= all.take(i as int));
                assert(all.take(i + 1).last() == keys@[i as int]@);
                let ghost before = text::strs(out@);
                let pointer = text::cat2("/scripts/", keys[i]);
                if let Some(cmd) = outside::json_text(t, &pointer) {
                    let base = permissions::base_of_command(&cmd, platform);
                    if !base.as_str().is_empty() {
                        let ghost b = base@;
                        out.push(base);
                        assert(text::strs(out@) =~= before.push(b));
                    }
                }
                i += 1;
            }
            assert(all.take(i as int) =~= all);
        }
    }
    out
}

/// Where the package file of a plugin lies.
pub open spec fn package_path(fs: FileTreeView, p: Seq<char>) -> Seq<char> {
    let dir = if fs.at(p).is_dir {
        p
    } else {
        match path::parent_of(p) {
            Some(d) => d,
            None => p,
        }
    };
    path::extended(dir, "package.json"@)
}

/// What a plugin may do, read off its code.
pub open spec fn plugin_code_perms(fs: FileTreeView, p: Seq<char>) -> Seq<PermissionView> {
    match code_files(fs, p, permission_extensions()) {
        None => unknown_plugin_perms(),
        Some(files) => {
            let code = combined(readable(fs, files, 0, MAX_PERMISSION_BYTES as nat));
            if code.len() == 0 {
                unknown_plugin_perms()
            } else {
                plugin_perms(
                    permissions::skill_text_perms(code, fs.platform),
                    install_programs(fs.at(package_path(fs, p)).content, fs.platform),
                )
            }
        },
    }
}

fn permission_extension_list() -> (r: Vec<String>)
    ensures
        text::strs(r@) == permission_extensions(),
{
    let mut v: Vec<String> = Vec::new();
    v.push("js".to_owned());
    v.push("ts".to_owned());
    v.push("py".to_owned());
    v.push("json".to_owned());
    v.push("sh".to_owned());
    v.push("mjs".to_owned());
    v.push("cjs".to_owned());
    assert(text::strs(v@) =~= permission_extensions());
    v
}

fn combine(files: &Vec<(String, String)>) -> (r: String)
    ensures
        r@ == combined(models::pairs_view(files@)),
{
    let ghost all = models::pairs_view(files@);
    let mut out = String::new();
    let mut i: usize = 0;
    assert(all.take(0) =~= Seq::<(Seq<char>, Seq<char>)>::empty());
    while i < files.len()
        invariant
            all == models::pairs_view(files@),
            i <= files.len(),
            out@ == combined(all.take(i as int)),
        decreases files.len() - i,
    {
        assert(all.take(i + 1).drop_last() =~= all.take(i as int));
        assert(all[i as int].1 == files@[i as int].1@);
        let ghost before = out@;
        out.append(&files[i].1);
        out.push('\n');
        assert(out@ =~= before + all[i as int].1 + seq!['\n']);
        i += 1;
    }
    assert(all.take(i as int) =~= all);
    out
}

/// What a plugin may do, read off its code: a single file, or the files of a
/// directory up to a limit, and the package file beside them.
pub fn infer_plugin_permissions(fs: &FileTree, p: &str) -> (r: Vec<Permission>)
    ensures
        models::list_view(r@) == plugin_code_perms(fs@, p@),
{
    let allowed = permission_extension_list();
    let files = match find_code_files(fs, p, &allowed) {
        None => {
            return unknown_plugin_permissions();
        },
        Some(f) => f,
    };
    let read = read_within(fs, &files, MAX_PERMISSION_BYTES);
    let code = combine(&read);
    if code.as_str().is_empty() {
        return unknown_plugin_permissions();
    }
    let perms = permissions::infer_skill_permissions(&code, fs.platform());
    let dir = if fs.is_dir(p) {
        p.to_owned()
    } else {
        match path::parent(p) {
            Some(d) => d,
            None => p.to_owned(),
        }
    };
    let package = fs.read(&path::join(&dir, "package.json"));
    let scripts = find_install_programs(&package, fs.platform());
    plugin_permissions(perms, scripts)
}

// ---------------------------------------------------------------------------
// Audit
// ---------------------------------------------------------------------------

/// The extensions of files that an audit reads. Package files are left out.
pub open spec fn audit_extensions_allowed() -> Seq<Seq<char>> {
    seq!["js"@, "ts"@, "py"@, "sh"@, "mjs"@, "cjs"@]
}

/// A file in the text of an audit: its name in a heading, then its text.
pub open spec fn audit_part(file: (Seq<char>, Seq<char>)) -> Seq<char> {
    "// === "@ + path::base_name(file.0) + " ===\n"@ + file.1
}

/// The code of a plugin for an audit: its files, each under a heading, joined by
/// line feeds.
pub open spec fn audit_text(fs: FileTreeView, p: Seq<char>) -> Seq<char> {
    match code_files(fs, p, audit_extensions_allowed()) {
        None => Seq::<char>::empty(),
        Some(files) => split::joined(
            readable(fs, files, 0, MAX_AUDIT_BYTES as nat).map_values(
                |f: (Seq<char>, Seq<char>)| audit_part(f),
            ),
            "\n"@,
        ),
    }
}

/// The code of a plugin for an audit.
pub fn read_plugin_content(fs: &FileTree, plugin_path: &str) -> (r: String)
    ensures
        r@ == audit_text(fs@, plugin_path@),
{
    let mut allowed: Vec<String> = Vec::new();
    allowed.push("js".to_owned());
    allowed.push("ts".to_owned());
    allowed.push("py".to_owned());
    allowed.push("sh".to_owned());
    allowed.push("mjs".to_owned());
    allowed.push("cjs".to_owned());
    assert(text::strs(allowed@) =~= audit_extensions_allowed());
    let files = match find_code_files(fs, plugin_path, &allowed) {
        None => {
            return String::new();
        },
        Some(f) => f,
    };
    let read = read_within(fs, &files, MAX_AUDIT_BYTES);
    let ghost all = models::pairs_view(read@);
    let mut parts: Vec<String> = Vec::new();
    let mut i: usize = 0;
    while i < read.len()
        invariant
            all == models::pairs_view(read@),
            i <= read.len(),
            parts.len() == i,
            forall|j: int| 0 <= j < i ==> (#[trigger] parts@[j])@ == audit_part(all[j]),
        decreases read.len() - i,
    {
        let name = path::file_name_or_empty(&read[i].0);
        assert(all[i as int] == (read@[i as int].0@, read@[i as int].1@));
        parts.push(text::cat4("// === ", &name, " ===\n", &read[i].1));
        i += 1;
    }
    assert(text::strs(parts@) =~= all.map_values(|f: (Seq<char>, Seq<char>)| audit_part(f)));
    split::join(&parts, "\n")
}

// ---------------------------------------------------------------------------
// Laws
// ---------------------------------------------------------------------------

/// A plugin always lists the permission to run commands and the permission to
/// access files.
pub proof fn plugin_always_lists_shell_and_files(
    fs: FileTreeView,
    p: Seq<char>,
    code: Seq<PermissionView>,
    scripts: Seq<Seq<char>>,
)
    ensures
        has_shell(plugin_perms(code, scripts)),
        has_files(plugin_perms(code, scripts)),
        has_shell(plugin_code_perms(fs, p)),
        has_files(plugin_code_perms(fs, p)),
{
    lemma_plugin_perms(code, scripts);
    assert(unknown_plugin_perms()[0] is Shell);
    assert(unknown_plugin_perms()[1] is FileSystem);
    match code_files(fs, p, permission_extensions()) {
        None => {},
        Some(files) => {
            lemma_plugin_perms(
                permissions::skill_text_perms(
                    combined(readable(fs, files, 0, MAX_PERMISSION_BYTES as nat)),
                    fs.platform,
                ),
                install_programs(fs.at(package_path(fs, p)).content, fs.platform),
            );
        },
    }
}

proof fn lemma_plugin_perms(code: Seq<PermissionView>, scripts: Seq<Seq<char>>)
    ensures
        has_shell(plugin_perms(code, scripts)),
        has_files(plugin_perms(code, scripts)),
{
    let a = if scripts.len() > 0 && !has_shell(code) {
        code.push(PermissionView::Shell { commands: scripts })
    } else {
        code
    };
    let b = with_shell(a);
    if !has_shell(a) {
        assert(b[a.len() as int] is Shell);
    }
    let c = with_files(b);
    let i = choose|i: int| 0 <= i < b.len() && (#[trigger] b[i]) is Shell;
    assert(c[i] is Shell);
    if !has_files(b) {
        assert(c[b.len() as int] is FileSystem);
    }
}

/// What is read of a plugin never goes beyond the limit.
pub proof fn reading_stays_within_limit(
    fs: FileTreeView,
    files: Seq<Seq<char>>,
    used: nat,
    max: nat,
)
    requires
        used <= max,
    ensures
        used + total_bytes(readable(fs, files, used, max)) <= max,
    decreases files.len(),
{
    if files.len() > 0 {
        match fs.at(files[0]).content {
            None => {
                reading_stays_within_limit(fs, files.drop_first(), used, max);
            },
            Some(c) => {
                if used + byte_len(c) <= max {
                    reading_stays_within_limit(fs, files.drop_first(), used + byte_len(c), max);
                    let rest = readable(fs, files.drop_first(), used + byte_len(c), max);
                    lemma_total_bytes_front((files[0], c), rest);
                }
            },
        }
    }
}

/// The number of bytes of the texts of files.
pub open spec fn total_bytes(files: Seq<(Seq<char>, Seq<char>)>) -> nat
    decreases files.len(),
{
    if files.len() == 0 {
        0
    } else {
        total_bytes(files.drop_last()) + byte_len(files.last().1)
    }
}

proof fn lemma_total_bytes_front(
    first: (Seq<char>, Seq<char>),
    rest: Seq<(Seq<char>, Seq<char>)>,
)
    ensures
        total_bytes(seq![first] + rest) == byte_len(first.1) + total_bytes(rest),
    decreases rest.len(),
{
    let all = seq![first] + rest;
    if rest.len() == 0 {
        assert(all.drop_last() =~= rest);
    } else {
        lemma_total_bytes_front(first, rest.drop_last());
        assert(all.drop_last() =~= seq![first] + rest.drop_last());
        assert(all.last() == rest.last());
    }
}

} // verus!
