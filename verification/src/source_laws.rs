//! Where things come from, what the head of a skill says, and which code of a plugin
//! is read.

use vstd::prelude::*;

use crate::files::FileTreeView;
use crate::frontmatter;
use crate::lists;
use crate::models::{PermissionView, Platform, SourceOrigin};
use crate::outside;
use crate::path;
use crate::path_laws;
use crate::permissions;
use crate::plugins;
use crate::sources;
use crate::split;
use crate::text;
use crate::text_laws;

verus! {

// ---------------------------------------------------------------------------
// Repositories
// ---------------------------------------------------------------------------

/// Whether a line gives the address of a remote: `url = `, and then the address.
pub open spec fn gives_url(line: Seq<char>, u: Seq<char>) -> bool {
    text::trimmed(line) == "url = "@ + u
}

proof fn lemma_gives_url(line: Seq<char>)
    ensures
        forall|u: Seq<char>| #[trigger]
            gives_url(line, u) <==> text::after_prefix(text::trimmed(line), "url = "@) == Some(u),
{
    let t = text::trimmed(line);
    let k = "url = "@;
    assert forall|u: Seq<char>| #[trigger] gives_url(line, u) <==> text::after_prefix(t, k) == Some(
        u,
    ) by {
        if t == k + u {
            assert(t.take(k.len() as int) =~= k);
            assert(t.skip(k.len() as int) =~= u);
        }
        if text::after_prefix(t, k) == Some(u) {
            assert(t =~= k + u);
        }
    }
}

/// The remote of a repository is the one that the first line with an address gives.
pub proof fn first_address_is_the_remote(lines: Seq<Seq<char>>, i: int, u: Seq<char>)
    ensures
        0 <= i < lines.len() && gives_url(lines[i], u) && (forall|j: int, v: Seq<char>|
            0 <= j < i ==> !#[trigger] gives_url(lines[j], v)) ==> sources::first_url(lines)
            == Some(u),
        (forall|j: int, v: Seq<char>|
            0 <= j < lines.len() ==> !#[trigger] gives_url(lines[j], v)) ==> sources::first_url(
            lines,
        ) is None,
    decreases lines.len(),
{
    if lines.len() > 0 {
        let t = lines.drop_first();
        lemma_gives_url(lines[0]);
        first_address_is_the_remote(t, i - 1, u);
        assert forall|j: int| 0 <= j < t.len() implies #[trigger] t[j] == lines[j + 1] by {}
        if 0 < i < lines.len() && gives_url(lines[i], u) && (forall|j: int, v: Seq<char>|
            0 <= j < i ==> !#[trigger] gives_url(lines[j], v)) {
            assert(text::after_prefix(text::trimmed(lines[0]), "url = "@) is None) by {
                if let Some(v) = text::after_prefix(text::trimmed(lines[0]), "url = "@) {
                    assert(gives_url(lines[0], v));
                }
            }
            assert(gives_url(t[i - 1], u));
            assert forall|j: int, v: Seq<char>| 0 <= j < i - 1 implies !#[trigger] gives_url(
                t[j],
                v,
            ) by {
                assert(!gives_url(lines[j + 1], v));
            }
        }
        if 0 == i && gives_url(lines[0], u) {
            assert(text::after_prefix(text::trimmed(lines[0]), "url = "@) == Some(u));
        }
        if forall|j: int, v: Seq<char>|
            0 <= j < lines.len() ==> !#[trigger] gives_url(lines[j], v) {
            if let Some(v) = text::after_prefix(text::trimmed(lines[0]), "url = "@) {
                assert(gives_url(lines[0], v));
            }
            assert forall|j: int, v: Seq<char>| 0 <= j < t.len() implies !#[trigger] gives_url(
                t[j],
                v,
            ) by {
                assert(!gives_url(lines[j + 1], v));
            }
        }
    }
}

/// The commit of a repository is what the file of the branch holds that `HEAD` names,
/// or what `HEAD` holds itself if it names none, without white space around it; none
/// where that is blank or cannot be read.
pub proof fn checked_out_commit_is_read(fs: FileTreeView, dir: Seq<char>, branch: Seq<char>)
    ensures
        ({
            let head = fs.at(path::extended(dir, ".git/HEAD"@)).content;
            let r = sources::commit_in(fs, dir);
            let names_branch = head is Some && text::has_prefix(text::trimmed(head->0), "ref: "@);
            let file = fs.at(path::extended(path::extended(dir, ".git"@), branch)).content;
            &&& head is None ==> r is None
            &&& head is Some && !names_branch && text::trimmed(head->0).len() > 0 ==> r == Some(
                text::trimmed(head->0),
            )
            &&& head is Some && !names_branch && text::trimmed(head->0).len() == 0 ==> r is None
            &&& head is Some && text::trimmed(head->0) == "ref: "@ + branch ==> (match file {
                None => r is None,
                Some(c) => if text::trimmed(c).len() == 0 {
                    r is None
                } else {
                    r == Some(text::trimmed(c))
                },
            })
        }),
{
    if let Some(head) = fs.at(path::extended(dir, ".git/HEAD"@)).content {
        let t = text::trimmed(head);
        let k = "ref: "@;
        if t == k + branch {
            assert(t.take(k.len() as int) =~= k);
            assert(t.skip(k.len() as int) =~= branch);
        }
    }
}

/// What lies in a repository comes from there: from its remote, at the commit that is
/// checked out. All else belongs to the agent that manages it, or is local.
pub proof fn source_is_the_repository_around(fs: FileTreeView, p: Seq<char>, managed: bool)
    ensures
        ({
            let s = sources::source_of(fs, p, managed);
            &&& s.version is None && !s.from_manifest
            &&& match sources::repository_of(fs, p) {
                Some(dir) => s.origin == SourceOrigin::Git && s.commit_hash == sources::commit_in(
                    fs,
                    dir,
                ) && s.url == (match fs.at(path::extended(dir, ".git/config"@)).content {
                    Some(c) => sources::first_url(split::lines_of(c)),
                    None => None,
                }),
                None => s.url is None && s.commit_hash is None && s.origin == (if managed {
                    SourceOrigin::Agent
                } else {
                    SourceOrigin::Local
                }),
            }
        }),
{
}

/// A lock file has the say on a skill if it lists it with a source: it lies two levels
/// above the skill, and where it gives no address, the source stands in for it.
pub proof fn lock_lists_skills_by_name(fs: FileTreeView, place: Seq<char>, name: Seq<char>)
    ensures
        ({
            let r = sources::locked_source(fs, place, name);
            let up = match path::parent_of(place) {
                Some(d) => path::parent_of(d),
                None => None,
            };
            let text = match up {
                Some(root) => fs.at(path::extended(root, ".skill-lock.json"@)).content,
                None => None,
            };
            match text {
                None => r is None,
                Some(json) => {
                    let key = "/skills/"@ + sources::pointer_part(name);
                    let names = outside::json_keys_at(json, "/skills"@);
                    let source = outside::json_text_at(json, key + "/source"@);
                    let url = outside::json_text_at(json, key + "/sourceUrl"@);
                    &&& r is Some <==> names is Some && names->0.contains(name) && source is Some
                    &&& r matches Some(l) ==> l.source == source->0 && l.url == (
                    if url is Some {
                        url->0
                    } else {
                        source->0
                    })
                },
            }
        }),
{
}

/// A key becomes a part of a pointer character by character: `~` turns into `~0`, `/`
/// into `~1`, and all else stays.
pub proof fn pointer_parts_are_made_by_character(a: Seq<char>, b: Seq<char>, c: char)
    ensures
        sources::pointer_part(a + b) == sources::pointer_part(a) + sources::pointer_part(b),
        sources::pointer_part(seq!['~']) == seq!['~', '0'],
        sources::pointer_part(seq!['/']) == seq!['~', '1'],
        c != '~' && c != '/' ==> sources::pointer_part(seq![c]) == seq![c],
    decreases b.len(),
{
    if b.len() > 0 {
        pointer_parts_are_made_by_character(a, b.drop_last(), c);
        assert((a + b).drop_last() =~= a + b.drop_last());
        assert((a + b).last() == b.last());
        assert(sources::pointer_part(a + b) =~= sources::pointer_part(a) + sources::pointer_part(
            b,
        ));
    } else {
        assert(a + b =~= a);
        assert(sources::pointer_part(a) + sources::pointer_part(b) =~= sources::pointer_part(a));
    }
    lemma_pointer_char('~');
    lemma_pointer_char('/');
    lemma_pointer_char(c);
}

proof fn lemma_pointer_char(c: char)
    ensures
        sources::pointer_part(seq![c]) == (if c == '~' {
            seq!['~', '0']
        } else if c == '/' {
            seq!['~', '1']
        } else {
            seq![c]
        }),
{
    let s = seq![c];
    assert(s.drop_last() =~= Seq::<char>::empty());
    assert(sources::pointer_part(s.drop_last()) =~= Seq::<char>::empty());
    assert(s.last() == c);
    assert(sources::pointer_part(s) =~= (if c == '~' {
        seq!['~', '0']
    } else if c == '/' {
        seq!['~', '1']
    } else {
        seq![c]
    }));
}

// ---------------------------------------------------------------------------
// The head of a skill
// ---------------------------------------------------------------------------

/// The head of a text is what stands between a leading `---` and the next `---`; a
/// skill without a name in its head has none. What the head says by its last lines is
/// its name and its description.
pub proof fn head_stands_between_dashes(block: Seq<char>, rest: Seq<char>)
    requires
        split::found(block + "---"@ + rest, "---"@) == Some(block.len() as int),
    ensures
        ({
            let content = "---"@ + block + "---"@ + rest;
            let lines = split::lines_of(block);
            let name = frontmatter::last_value(lines, "name:"@);
            let description = frontmatter::last_value(lines, "description:"@);
            match frontmatter::frontmatter_of(content) {
                None => name is None,
                Some(f) => name == Some(f.0) && f.1 == (match description {
                    Some(d) => d,
                    None => Seq::<char>::empty(),
                }),
            }
        }),
        !text::has_prefix(rest, "---"@) ==> frontmatter::frontmatter_of(rest) is None,
{
    reveal_strlit("---");
    let content = "---"@ + block + "---"@ + rest;
    assert(content.take(3) =~= "---"@);
    assert(content.skip(3) =~= block + "---"@ + rest);
    assert((block + "---"@ + rest).take(block.len() as int) =~= block);
    frontmatter::last_lines_give_name_and_description(split::lines_of(block));
}

/// The binaries that a head requires stand behind `bins:`, in brackets and parted by
/// commas, or on the lines after it, each after a dash: such a line adds its name, and
/// one without a name adds none. No other line adds any; blank lines and comments do not
/// end such a list, all others do.
pub proof fn bins_stand_behind_their_key(lines: Seq<Seq<char>>, line: Seq<char>)
    ensures
        ({
            let before = frontmatter::read_lines(lines);
            let after = frontmatter::read_lines(lines.push(line));
            let t = text::trimmed(line);
            let is_key = text::has_prefix(t, "bins:"@) && !text::has_prefix(t, "name:"@)
                && !text::has_prefix(t, "description:"@);
            let is_item = before.in_list && text::has_prefix(t, "- "@) && !text::has_prefix(
                t,
                "name:"@,
            ) && !text::has_prefix(t, "description:"@) && !text::has_prefix(t, "bins:"@);
            let value = text::trimmed(t.skip("bins:"@.len() as int));
            let item = frontmatter::bin_name(t.skip("- "@.len() as int));
            &&& is_key && value.len() == 0 ==> after.in_list && after.bins == before.bins
            &&& is_key && value.len() > 0 ==> !after.in_list && after.bins == frontmatter::with_bins(
                before.bins,
                frontmatter::inline_items(value),
            )
            &&& is_item ==> after.in_list && after.bins == (if item.len() == 0 {
                before.bins
            } else {
                before.bins.push(item)
            })
            &&& !is_key && !is_item ==> after.bins == before.bins
            &&& !is_key && !is_item && (t.len() == 0 || t[0] == '#') ==> after.in_list
                == before.in_list
            &&& !is_key && !is_item && t.len() > 0 && t[0] != '#' ==> !after.in_list
        }),
        frontmatter::read_lines(Seq::empty()).bins.len() == 0,
        !frontmatter::read_lines(Seq::empty()).in_list,
{
    assert(lines.push(line).drop_last() =~= lines);
    reveal_strlit("name:");
    reveal_strlit("bins:");
    reveal_strlit("description:");
    reveal_strlit("- ");
    let t = text::trimmed(line);
    if text::has_prefix(t, "bins:"@) && text::has_prefix(t, "name:"@) {
        assert(t.take(5)[0] == 'b' && t.take(5)[0] == 'n');
    }
    if text::has_prefix(t, "name:"@) {
        assert(t.take(5)[0] == 'n');
    }
    if text::has_prefix(t, "description:"@) {
        assert(t.take(12)[0] == 'd');
    }
}

/// The names in a list of binaries are those of its items, in order, without those
/// that are empty.
pub proof fn items_give_names(bins: Seq<Seq<char>>, items: Seq<Seq<char>>, x: Seq<char>)
    ensures
        frontmatter::with_bins(bins, items).contains(x) <==> bins.contains(x) || (x.len() > 0
            && exists|i: int| 0 <= i < items.len() && frontmatter::bin_name(#[trigger] items[i])
            == x),
    decreases items.len(),
{
    if items.len() > 0 {
        let t = items.drop_last();
        let before = frontmatter::with_bins(bins, t);
        let name = frontmatter::bin_name(items.last());
        items_give_names(bins, t, x);
        lists::lemma_push_contains(before, name, x);
        if exists|i: int| 0 <= i < t.len() && frontmatter::bin_name(#[trigger] t[i]) == x {
            let i = choose|i: int| 0 <= i < t.len() && frontmatter::bin_name(#[trigger] t[i]) == x;
            assert(items[i] == t[i]);
        }
        if name == x {
            assert(frontmatter::bin_name(items[items.len() - 1]) == x);
        }
        if exists|i: int| 0 <= i < items.len() && frontmatter::bin_name(#[trigger] items[i]) == x {
            let i = choose|i: int|
                0 <= i < items.len() && frontmatter::bin_name(#[trigger] items[i]) == x;
            if i < t.len() {
                assert(t[i] == items[i]);
            }
        }
    }
}

// ---------------------------------------------------------------------------
// The code of a plugin
// ---------------------------------------------------------------------------

proof fn lemma_allowed_files(
    fs: FileTreeView,
    files: Seq<Seq<char>>,
    allowed: Seq<Seq<char>>,
    x: Seq<char>,
)
    ensures
        plugins::allowed_files(fs, files, allowed).contains(x) <==> files.contains(x) && fs.at(
            x,
        ).is_file && (path::extension_of(x) matches Some(e) && allowed.contains(e)),
    decreases files.len(),
{
    if files.len() > 0 {
        lemma_allowed_files(fs, files.drop_last(), allowed, x);
        lists::lemma_last_contains(files, x);
        lists::lemma_push_contains(
            plugins::allowed_files(fs, files.drop_last(), allowed),
            files.last(),
            x,
        );
    } else {
        assert(!plugins::allowed_files(fs, files, allowed).contains(x));
    }
}

/// The code of a plugin is the plugin itself, if it is a file with the extension of
/// code, which `.disabled` may follow; else the regular files of its directory with
/// such an extension; there is none where it is neither.
pub proof fn code_lies_in_the_files_of_a_plugin(
    fs: FileTreeView,
    p: Seq<char>,
    allowed: Seq<Seq<char>>,
    x: Seq<char>,
)
    ensures
        ({
            let r = plugins::code_files(fs, p, allowed);
            &&& r is None <==> !fs.at(p).is_file && fs.at(p).children is None
            &&& fs.at(p).is_file && r is Some ==> (r->0.contains(x) <==> x == p && (
            plugins::code_extension(p) matches Some(e) && allowed.contains(e)))
            &&& !fs.at(p).is_file && r is Some ==> (r->0.contains(x) <==> fs.at(
                p,
            ).children->0.contains(x) && fs.at(x).is_file && (path::extension_of(x) matches Some(e)
                && allowed.contains(e)))
        }),
{
    if fs.at(p).is_file {
        assert(seq![p][0] == p);
    } else if let Some(c) = fs.at(p).children {
        lemma_allowed_files(fs, c, allowed, x);
    }
}

/// Files are read in order, each that can be read with its text, up to the first one
/// that would go beyond the limit: it and all after it are left out.
pub proof fn files_are_read_up_to_the_limit(
    fs: FileTreeView,
    files: Seq<Seq<char>>,
    used: nat,
    max: nat,
)
    ensures
        ({
            let r = plugins::readable(fs, files, used, max);
            if files.len() == 0 {
                r.len() == 0
            } else {
                let rest = files.drop_first();
                match fs.at(files[0]).content {
                    None => r == plugins::readable(fs, rest, used, max),
                    Some(c) => {
                        let n = used + vstd::utf8::encode_utf8(c).len();
                        &&& n > max ==> r.len() == 0
                        &&& n <= max ==> r.len() > 0 && r[0] == (files[0], c) && r.drop_first()
                            == plugins::readable(fs, rest, n, max)
                    },
                }
            }
        }),
{
    if files.len() > 0 {
        let r = plugins::readable(fs, files, used, max);
        if let Some(c) = fs.at(files[0]).content {
            let n = used + vstd::utf8::encode_utf8(c).len();
            if n <= max {
                assert(r.drop_first() =~= plugins::readable(fs, files.drop_first(), n, max));
            }
        }
    }
}

/// What a plugin may do is what its code shows, and always to run commands and to
/// access files. Where its code shows no commands, the programs are listed that its
/// package runs when it is installed.
pub proof fn plugin_lists_what_its_code_shows(
    code: Seq<PermissionView>,
    scripts: Seq<Seq<char>>,
    i: int,
)
    ensures
        ({
            let r = plugins::plugin_perms(code, scripts);
            let shell = exists|k: int| 0 <= k < code.len() && (#[trigger] code[k]) is Shell;
            let files = exists|k: int| 0 <= k < code.len() && (#[trigger] code[k]) is FileSystem;
            let n = code.len() as int;
            &&& 0 <= i < n ==> r[i] == code[i]
            &&& !shell ==> r[n] == (PermissionView::Shell { commands: scripts })
            &&& !files ==> r.last() == (PermissionView::FileSystem {
                paths: Seq::<Seq<char>>::empty(),
            })
            &&& r.len() == n + (if shell {
                0int
            } else {
                1
            }) + (if files {
                0int
            } else {
                1
            })
        }),
{
    let shell = exists|k: int| 0 <= k < code.len() && (#[trigger] code[k]) is Shell;
    let files = exists|k: int| 0 <= k < code.len() && (#[trigger] code[k]) is FileSystem;
    assert(shell == plugins::has_shell(code));
    let a = if scripts.len() > 0 && !shell {
        code.push(PermissionView::Shell { commands: scripts })
    } else {
        code
    };
    let b = plugins::with_shell(a);
    if !shell {
        if scripts.len() > 0 {
            assert(a[code.len() as int] is Shell);
            assert(plugins::has_shell(a));
        } else {
            assert(scripts =~= Seq::<Seq<char>>::empty());
        }
    }
    assert(b =~= if shell {
        code
    } else {
        code.push(PermissionView::Shell { commands: scripts })
    });
    assert(files == plugins::has_files(b)) by {
        if files {
            let k = choose|k: int| 0 <= k < code.len() && (#[trigger] code[k]) is FileSystem;
            assert(b[k] is FileSystem);
        }
        if plugins::has_files(b) {
            let k = choose|k: int| 0 <= k < b.len() && (#[trigger] b[k]) is FileSystem;
            assert(k < code.len());
            assert(code[k] is FileSystem);
        }
    }
}

proof fn lemma_script_programs(
    package: Seq<char>,
    keys: Seq<Seq<char>>,
    platform: Platform,
    x: Seq<char>,
)
    ensures
        plugins::script_programs(package, keys, platform).contains(x) <==> x.len() > 0 && exists|
            k: int,
        |
            0 <= k < keys.len() && runs_in_script(package, #[trigger] keys[k], platform, x),
    decreases keys.len(),
{
    let all = plugins::script_programs(package, keys, platform);
    if keys.len() > 0 {
        let t = keys.drop_last();
        let before = plugins::script_programs(package, t, platform);
        lemma_script_programs(package, t, platform, x);
        if let Some(cmd) = outside::json_text_at(package, "/scripts/"@ + keys.last()) {
            lists::lemma_push_contains(before, permissions::command_base(cmd, platform), x);
        }
        if before.contains(x) {
            let k = choose|k: int|
                0 <= k < t.len() && runs_in_script(package, #[trigger] t[k], platform, x);
            assert(keys[k] == t[k]);
        }
        if all.contains(x) && !before.contains(x) {
            assert(runs_in_script(package, keys[keys.len() - 1], platform, x));
        }
        if exists|k: int|
            0 <= k < keys.len() && runs_in_script(package, #[trigger] keys[k], platform, x) {
            let k = choose|k: int|
                0 <= k < keys.len() && runs_in_script(package, #[trigger] keys[k], platform, x);
            if k < t.len() {
                assert(t[k] == keys[k]);
            }
        }
    } else {
        assert(!all.contains(x));
    }
}

/// Whether the script of a package under a key runs a program: the one that its first
/// word names.
pub open spec fn runs_in_script(
    package: Seq<char>,
    key: Seq<char>,
    platform: Platform,
    x: Seq<char>,
) -> bool {
    outside::json_text_at(package, "/scripts/"@ + key) matches Some(cmd) && x == (
    match split::first_word(cmd) {
        Some(w) => path::program_name_of(w, platform),
        None => Seq::<char>::empty(),
    })
}

/// The programs that a package runs when it is installed are those of its scripts
/// `postinstall`, `preinstall`, `install` and `prepare`; of no other script, and of none
/// where it has no scripts.
pub proof fn install_scripts_are_four(package: Seq<char>, platform: Platform, x: Seq<char>)
    ensures
        plugins::install_programs(Some(package), platform).contains(x) <==> x.len() > 0
            && outside::json_keys_at(package, "/scripts"@) is Some && (runs_in_script(
            package,
            "postinstall"@,
            platform,
            x,
        ) || runs_in_script(package, "preinstall"@, platform, x) || runs_in_script(
            package,
            "install"@,
            platform,
            x,
        ) || runs_in_script(package, "prepare"@, platform, x)),
        plugins::install_programs(None, platform).len() == 0,
{
    let keys = plugins::lifecycle_keys();
    lemma_script_programs(package, keys, platform, x);
    assert(keys[0] == "postinstall"@ && keys[1] == "preinstall"@ && keys[2] == "install"@ && keys[3]
        == "prepare"@);
    if outside::json_keys_at(package, "/scripts"@) is None {
        assert(!plugins::install_programs(Some(package), platform).contains(x));
    }
}

/// What a plugin with readable code may do is read off that code, up to the limit, and
/// off the package file beside it; of one without any, nothing is known but that it may
/// run commands and access files.
pub proof fn plugin_permissions_come_from_its_code(fs: FileTreeView, p: Seq<char>)
    ensures
        ({
            let kinds = seq!["js"@, "ts"@, "py"@, "json"@, "sh"@, "mjs"@, "cjs"@];
            let r = plugins::plugin_code_perms(fs, p);
            let code = match plugins::code_files(fs, p, kinds) {
                Some(files) => plugins::combined(
                    plugins::readable(fs, files, 0, 262144),
                ),
                None => Seq::<char>::empty(),
            };
            let dir = if fs.at(p).is_dir || path::parent_of(p) is None {
                p
            } else {
                path::parent_of(p)->0
            };
            let package = fs.at(path::extended(dir, "package.json"@)).content;
            &&& code.len() == 0 ==> r.len() == 2 && r[0] == (PermissionView::Shell {
                commands: Seq::<Seq<char>>::empty(),
            }) && r[1] == (PermissionView::FileSystem { paths: Seq::<Seq<char>>::empty() })
            &&& code.len() > 0 ==> r == plugins::plugin_perms(
                permissions::skill_text_perms(code, fs.platform),
                plugins::install_programs(package, fs.platform),
            )
        }),
{
}

/// What an audit reads of a plugin are its code files, up to the limit and without
/// package files, each under a heading with its name.
pub proof fn audited_code_stands_under_headings(fs: FileTreeView, p: Seq<char>)
    ensures
        ({
            let kinds = seq!["js"@, "ts"@, "py"@, "sh"@, "mjs"@, "cjs"@];
            match plugins::code_files(fs, p, kinds) {
                None => plugins::audit_text(fs, p).len() == 0,
                Some(files) => {
                    let read = plugins::readable(fs, files, 0, 524288);
                    plugins::audit_text(fs, p) == split::joined(
                        Seq::new(
                            read.len(),
                            |k: int|
                                "// === "@ + path::base_name(read[k].0) + " ===\n"@ + read[k].1,
                        ),
                        "\n"@,
                    )
                },
            }
        }),
{
    let kinds = plugins::audit_extensions_allowed();
    if let Some(files) = plugins::code_files(fs, p, kinds) {
        let read = plugins::readable(fs, files, 0, plugins::MAX_AUDIT_BYTES as nat);
        let parts = read.map_values(|f: (Seq<char>, Seq<char>)| plugins::audit_part(f));
        assert(parts =~= Seq::new(
            read.len(),
            |k: int| "// === "@ + path::base_name(read[k].0) + " ===\n"@ + read[k].1,
        ));
    }
}

/// A code file goes by the extension of its name; one that is disabled by that of the
/// name that it has when it is enabled.
pub proof fn disabled_code_keeps_its_extension(p: Seq<char>, n: Seq<char>)
    requires
        path_laws::is_name(n),
    ensures
        path::file_name_of(p) == Some(n) && !text::has_suffix(n, ".disabled"@)
            ==> plugins::code_extension(p) == path::extension_of(p),
        path::file_name_of(p) == Some(n + ".disabled"@) ==> plugins::code_extension(p)
            == path::extension_of(n),
        path::file_name_of(p) is None ==> plugins::code_extension(p) is None,
{
    path_laws::paths_end_with_names(Seq::<char>::empty(), n);
    text_laws::beginnings_and_ends_are_told(n, ".disabled"@);
}

/// The code of a plugin is put together file by file, each with a line feed behind it.
pub proof fn code_is_put_together_file_by_file(
    a: Seq<(Seq<char>, Seq<char>)>,
    b: Seq<(Seq<char>, Seq<char>)>,
    p: Seq<char>,
    code: Seq<char>,
)
    ensures
        plugins::combined(a + b) == plugins::combined(a) + plugins::combined(b),
        plugins::combined(seq![(p, code)]) == code + seq!['\n'],
    decreases b.len(),
{
    let none = Seq::<(Seq<char>, Seq<char>)>::empty();
    let one = seq![(p, code)];
    assert(one.drop_last() =~= none);
    assert(plugins::combined(none) + code + seq!['\n'] =~= code + seq!['\n']);
    if b.len() > 0 {
        let t = b.drop_last();
        assert((a + b).drop_last() =~= a + t);
        code_is_put_together_file_by_file(a, t, p, code);
        assert(plugins::combined(a) + plugins::combined(t) + b.last().1 + seq!['\n']
            =~= plugins::combined(a) + (plugins::combined(t) + b.last().1 + seq!['\n']));
    } else {
        assert(a + b =~= a);
        assert(plugins::combined(a) + plugins::combined(b) =~= plugins::combined(a));
    }
}

/// The remote of a repository is the first that its configuration gives.
pub proof fn remote_is_read_from_the_configuration(fs: FileTreeView, dir: Seq<char>)
    ensures
        sources::remote_of(fs, dir) == (match fs.at(path::extended(dir, ".git/config"@)).content {
            Some(c) => sources::first_url(split::lines_of(c)),
            None => None,
        }),
{
}

/// What a pattern finds in a text is what the engine finds; a text that is no pattern
/// finds nothing.
pub proof fn patterns_find_what_the_engine_finds(pattern: Seq<char>, s: Seq<char>)
    ensures
        outside::regex_matches(pattern, s) matches Some(v) ==> permissions::all_matches(pattern, s)
            == v,
        outside::regex_matches(pattern, s) is None ==> permissions::all_matches(pattern, s).len()
            == 0,
        outside::regex_groups(pattern, s) matches Some(v) ==> permissions::all_groups(pattern, s)
            == v,
        outside::regex_groups(pattern, s) is None ==> permissions::all_groups(pattern, s).len()
            == 0,
{
}

} // verus!
