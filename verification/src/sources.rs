//! Where an extension comes from: the repository that it lies in, or the entry
//! of a lock file.

use vstd::prelude::*;

use crate::files::{FileTree, FileTreeView};
use crate::models::{Source, SourceOrigin, SourceView};
use crate::outside;
use crate::path;
use crate::split;
use crate::text;

verus! {

// ---------------------------------------------------------------------------
// Git
// ---------------------------------------------------------------------------

/// The value of the first `url = ` line.
pub open spec fn first_url(lines: Seq<Seq<char>>) -> Option<Seq<char>>
    decreases lines.len(),
{
    if lines.len() == 0 {
        None
    } else {
        match text::after_prefix(text::trimmed(lines[0]), "url = "@) {
            Some(u) => Some(u),
            None => first_url(lines.drop_first()),
        }
    }
}

/// The address of the remote that the configuration of a repository names.
pub open spec fn remote_in(config: Seq<char>) -> Option<Seq<char>> {
    first_url(split::lines_of(config))
}

/// The address of the remote that the configuration of a repository names.
pub fn parse_git_remote(config: &str) -> (r: Option<String>)
    ensures
        text::ostr(r) == remote_in(config@),
{
    let lines = split::lines(config);
    let ghost all = split::lines_of(config@);
    let mut i: usize = 0;
    assert(all.skip(0) =~= all);
    while i < lines.len()
        invariant
            all == text::strs(lines@),
            all == split::lines_of(config@),
            i <= lines.len(),
            first_url(all.skip(i as int)) == first_url(all),
        decreases lines.len() - i,
    {
        assert(all.skip(i as int)[0] == lines@[i as int]@);
        assert(all.skip(i as int).drop_first() =~= all.skip(i + 1));
        if let Some(u) = text::strip_prefix(text::trim(&lines[i]), "url = ") {
            return Some(u.to_owned());
        }
        i += 1;
    }
    None
}

/// A text without white space around it, unless nothing is left.
pub open spec fn nonblank(s: Seq<char>) -> Option<Seq<char>> {
    if text::trimmed(s).len() == 0 {
        None
    } else {
        Some(text::trimmed(s))
    }
}

/// The commit that the repository in `dir` has checked out: the one that the
/// branch of `HEAD` names, or the one that `HEAD` holds itself.
pub open spec fn commit_in(fs: FileTreeView, dir: Seq<char>) -> Option<Seq<char>> {
    match fs.at(path::extended(dir, ".git/HEAD"@)).content {
        None => None,
        Some(head) => match text::after_prefix(text::trimmed(head), "ref: "@) {
            None => nonblank(head),
            Some(branch) => match fs.at(
                path::extended(path::extended(dir, ".git"@), branch),
            ).content {
                None => None,
                Some(hash) => nonblank(hash),
            },
        },
    }
}

fn trim_nonblank(s: &str) -> (r: Option<String>)
    ensures
        text::ostr(r) == nonblank(s@),
{
    let t = text::trim(s);
    if t.is_empty() {
        None
    } else {
        Some(t.to_owned())
    }
}

/// The commit that the repository in `dir` has checked out.
pub fn read_git_commit_hash(fs: &FileTree, dir: &str) -> (r: Option<String>)
    ensures
        text::ostr(r) == commit_in(fs@, dir@),
{
    match fs.read(&path::join(dir, ".git/HEAD")) {
        None => None,
        Some(head) => match text::strip_prefix(text::trim(&head), "ref: ") {
            None => trim_nonblank(&head),
            Some(branch) => match fs.read(&path::join(&path::join(dir, ".git"), branch)) {
                None => None,
                Some(hash) => trim_nonblank(&hash),
            },
        },
    }
}

/// The address of the remote of the repository in `dir`.
pub open spec fn remote_of(fs: FileTreeView, dir: Seq<char>) -> Option<Seq<char>> {
    match fs.at(path::extended(dir, ".git/config"@)).content {
        None => None,
        Some(config) => remote_in(config),
    }
}

/// The address of the remote of the repository in `dir`.
pub fn read_git_remote(fs: &FileTree, dir: &str) -> (r: Option<String>)
    ensures
        text::ostr(r) == remote_of(fs@, dir@),
{
    match fs.read(&path::join(dir, ".git/config")) {
        None => None,
        Some(config) => parse_git_remote(&config),
    }
}

/// The nearest directory from `p` upwards that holds a repository.
pub open spec fn repository_of(fs: FileTreeView, p: Seq<char>) -> Option<Seq<char>>
    decreases p.len(),
{
    if fs.at(path::extended(p, ".git"@)).exists {
        Some(p)
    } else {
        match path::parent_of(p) {
            None => None,
            Some(q) => {
                proof {
                    path::lemma_parent_shorter(p);
                }
                repository_of(fs, q)
            },
        }
    }
}

/// The nearest directory from `p` upwards that holds a repository.
pub fn find_repository(fs: &FileTree, p: &str) -> (r: Option<String>)
    ensures
        text::ostr(r) == repository_of(fs@, p@),
{
    let mut dir = p.to_owned();
    loop
        invariant
            repository_of(fs@, dir@) == repository_of(fs@, p@),
        decreases dir@.len(),
    {
        if fs.has(&path::join(&dir, ".git")) {
            return Some(dir);
        }
        match path::parent(&dir) {
            None => {
                return None;
            },
            Some(q) => {
                proof {
                    path::lemma_parent_shorter(dir@);
                }
                dir = q;
            },
        }
    }
}

/// The source of what lies at `p`: the repository around it, or none that is
/// known; then it belongs to the agent if an agent manages it.
pub open spec fn source_of(fs: FileTreeView, p: Seq<char>, agent_managed: bool) -> SourceView {
    match repository_of(fs, p) {
        Some(dir) => SourceView {
            origin: SourceOrigin::Git,
            url: remote_of(fs, dir),
            version: None,
            commit_hash: commit_in(fs, dir),
            from_manifest: false,
        },
        None => plain_source(
            if agent_managed {
                SourceOrigin::Agent
            } else {
                SourceOrigin::Local
            },
        ),
    }
}

/// A source of which only the origin is known.
pub open spec fn plain_source(origin: SourceOrigin) -> SourceView {
    SourceView { origin, url: None, version: None, commit_hash: None, from_manifest: false }
}

/// A source of which only the origin is known.
pub fn bare_source(origin: SourceOrigin) -> (r: Source)
    ensures
        r@ == plain_source(origin),
{
    Source { origin, url: None, version: None, commit_hash: None, from_manifest: false }
}

/// The source of what lies at `p`.
pub fn detect_source(fs: &FileTree, p: &str, agent_managed: bool) -> (r: Source)
    ensures
        r@ == source_of(fs@, p@, agent_managed),
{
    match find_repository(fs, p) {
        Some(dir) => Source {
            origin: SourceOrigin::Git,
            url: read_git_remote(fs, &dir),
            version: None,
            commit_hash: read_git_commit_hash(fs, &dir),
            from_manifest: false,
        },
        None => bare_source(
            if agent_managed {
                SourceOrigin::Agent
            } else {
                SourceOrigin::Local
            },
        ),
    }
}

/// The source of what lies at `p`, for something that no agent manages.
pub fn detect_source_for(fs: &FileTree, p: &str) -> (r: Source)
    ensures
        r@ == source_of(fs@, p@, false),
{
    detect_source(fs, p, false)
}

// ---------------------------------------------------------------------------
// The lock file of the `skills` tool
// ---------------------------------------------------------------------------

/// The source of a skill as a lock file records it.
pub struct SkillLock {
    /// The address of the repository.
    pub url: String,
    /// The short `owner/repo`.
    pub source: String,
}

/// The mathematical value of a [`SkillLock`].
#[verifier::ext_equal]
pub struct SkillLockView {
    pub url: Seq<char>,
    pub source: Seq<char>,
}

impl View for SkillLock {
    type V = SkillLockView;

    open spec fn view(&self) -> SkillLockView {
        SkillLockView { url: self.url@, source: self.source@ }
    }
}

/// A key as a part of a JSON pointer.
pub open spec fn pointer_part(key: Seq<char>) -> Seq<char>
    decreases key.len(),
{
    if key.len() == 0 {
        Seq::<char>::empty()
    } else {
        let before = pointer_part(key.drop_last());
        if key.last() == '~' {
            before + seq!['~', '0']
        } else if key.last() == '/' {
            before + seq!['~', '1']
        } else {
            before.push(key.last())
        }
    }
}

fn escape_pointer(key: &str) -> (r: String)
    ensures
        r@ == pointer_part(key@),
{
    let cs = text::chars_of(key);
    let mut out = String::new();
    let mut i: usize = 0;
    assert(key@.take(0) =~= Seq::<char>::empty());
    while i < cs.len()
        invariant
            cs@ == key@,
            i <= cs.len(),
            out@ == pointer_part(key@.take(i as int)),
        decreases cs.len() - i,
    {
        assert(key@.take(i + 1).drop_last() =~= key@.take(i as int));
        let ghost before = out@;
        let c = cs[i];
        if c == '~' {
            out.push('~');
            out.push('0');
            assert(out@ =~= before + seq!['~', '0']);
        } else if c == '/' {
            out.push('~');
            out.push('1');
            assert(out@ =~= before + seq!['~', '1']);
        } else {
            out.push(c);
        }
        i += 1;
    }
    assert(key@.take(i as int) =~= key@);
    out
}

/// The entry of a skill, from what a lock file holds: the names of the skills,
/// and the `source` and the `sourceUrl` of the one in question. A skill that is
/// not listed, or has no `source`, has no entry; without an address the `source`
/// stands in for it.
pub open spec fn lock_entry(
    names: Option<Seq<Seq<char>>>,
    name: Seq<char>,
    source: Option<Seq<char>>,
    url: Option<Seq<char>>,
) -> Option<SkillLockView> {
    if names is Some && names->0.contains(name) && source is Some {
        Some(
            SkillLockView {
                url: match url {
                    Some(u) => u,
                    None => source->0,
                },
                source: source->0,
            },
        )
    } else {
        None
    }
}

/// The view of an optional entry.
pub open spec fn lock_view(o: Option<SkillLock>) -> Option<SkillLockView> {
    match o {
        Some(l) => Some(l@),
        None => None,
    }
}

/// The entry of a skill, from what a lock file holds.
pub fn make_lock_entry(
    names: &Option<Vec<String>>,
    name: &str,
    source: Option<String>,
    url: Option<String>,
) -> (r: Option<SkillLock>)
    ensures
        lock_view(r) == lock_entry(
            outside::opt_strs(*names),
            name@,
            text::ostr(source),
            text::ostr(url),
        ),
{
    match names {
        None => None,
        Some(list) => if !text::list_has(list, name) {
            None
        } else {
            match source {
                None => None,
                Some(s) => {
                    let u = match url {
                        Some(u) => u,
                        None => s.clone(),
                    };
                    Some(SkillLock { url: u, source: s })
                },
            }
        },
    }
}

/// The entry of a skill in the text of a lock file.
pub open spec fn lock_entry_in(json: Seq<char>, name: Seq<char>) -> Option<SkillLockView> {
    lock_entry(
        outside::json_keys_at(json, "/skills"@),
        name,
        outside::json_text_at(json, "/skills/"@ + pointer_part(name) + "/source"@),
        outside::json_text_at(json, "/skills/"@ + pointer_part(name) + "/sourceUrl"@),
    )
}

/// The entry of a skill in the text of a lock file.
pub fn parse_skill_lock(json: &str, name: &str) -> (r: Option<SkillLock>)
    ensures
        lock_view(r) == lock_entry_in(json@, name@),
{
    let part = escape_pointer(name);
    let names = outside::json_keys(json, "/skills");
    let source = outside::json_text(json, &text::cat3("/skills/", &part, "/source"));
    let url = outside::json_text(json, &text::cat3("/skills/", &part, "/sourceUrl"));
    make_lock_entry(&names, name, source, url)
}

/// Where the lock file for a skill lies: two levels above it.
pub open spec fn lock_path(resolved: Seq<char>) -> Option<Seq<char>> {
    match path::parent_of(resolved) {
        None => None,
        Some(dir) => match path::parent_of(dir) {
            None => None,
            Some(root) => Some(path::extended(root, ".skill-lock.json"@)),
        },
    }
}

/// The entry of the skill at `resolved` in the lock file that belongs to it.
pub open spec fn locked_source(
    fs: FileTreeView,
    resolved: Seq<char>,
    name: Seq<char>,
) -> Option<SkillLockView> {
    match lock_path(resolved) {
        None => None,
        Some(p) => match fs.at(p).content {
            None => None,
            Some(json) => lock_entry_in(json, name),
        },
    }
}

/// The entry of the skill at `resolved` in the lock file that belongs to it.
pub fn skill_lock_source(fs: &FileTree, resolved: &str, name: &str) -> (r: Option<SkillLock>)
    ensures
        lock_view(r) == locked_source(fs@, resolved@, name@),
{
    match path::parent(resolved) {
        None => None,
        Some(dir) => match path::parent(&dir) {
            None => None,
            Some(root) => match fs.read(&path::join(&root, ".skill-lock.json")) {
                None => None,
                Some(json) => parse_skill_lock(&json, name),
            },
        },
    }
}

// ---------------------------------------------------------------------------
// Laws
// ---------------------------------------------------------------------------

/// The repository that something is attributed to lies at it or above it, holds
/// a `.git`, and no nearer directory does.
pub proof fn repository_is_the_nearest(fs: FileTreeView, p: Seq<char>)
    ensures
        match repository_of(fs, p) {
            Some(dir) => fs.at(path::extended(dir, ".git"@)).exists && exists|n: nat|
                ancestor(p, n) == Some(dir) && forall|m: nat|
                    m < n ==> !fs.at(path::extended((#[trigger] ancestor(p, m))->0, ".git"@)).exists,
            None => forall|m: nat|
                (#[trigger] ancestor(p, m)) is Some ==> !fs.at(
                    path::extended(ancestor(p, m)->0, ".git"@),
                ).exists,
        },
    decreases p.len(),
{
    if fs.at(path::extended(p, ".git"@)).exists {
        assert(ancestor(p, 0) == Some(p));
    } else {
        match path::parent_of(p) {
            None => {
                assert forall|m: nat| (#[trigger] ancestor(p, m)) is Some implies !fs.at(
                    path::extended(ancestor(p, m)->0, ".git"@),
                ).exists by {
                    if m > 0 {
                        lemma_ancestor_of_parent(p, m);
                    }
                }
            },
            Some(q) => {
                path::lemma_parent_shorter(p);
                repository_is_the_nearest(fs, q);
                match repository_of(fs, q) {
                    Some(dir) => {
                        let n = choose|n: nat|
                            ancestor(q, n) == Some(dir) && forall|m: nat|
                                m < n ==> !fs.at(
                                    path::extended((#[trigger] ancestor(q, m))->0, ".git"@),
                                ).exists;
                        lemma_ancestor_of_parent(p, n + 1);
                        assert forall|m: nat| m < n + 1 implies !fs.at(
                            path::extended((#[trigger] ancestor(p, m))->0, ".git"@),
                        ).exists by {
                            if m > 0 {
                                lemma_ancestor_of_parent(p, m);
                                assert(ancestor(p, m) == ancestor(q, (m - 1) as nat));
                            }
                        }
                        assert(ancestor(p, n + 1) == Some(dir));
                    },
                    None => {
                        assert forall|m: nat| (#[trigger] ancestor(p, m)) is Some implies !fs.at(
                            path::extended(ancestor(p, m)->0, ".git"@),
                        ).exists by {
                            if m > 0 {
                                lemma_ancestor_of_parent(p, m);
                                assert(ancestor(p, m) == ancestor(q, (m - 1) as nat));
                            }
                        }
                    },
                }
            },
        }
    }
}

/// The directory `n` levels above `p`.
pub open spec fn ancestor(p: Seq<char>, n: nat) -> Option<Seq<char>>
    decreases n,
{
    if n == 0 {
        Some(p)
    } else {
        match ancestor(p, (n - 1) as nat) {
            None => None,
            Some(q) => path::parent_of(q),
        }
    }
}

proof fn lemma_ancestor_of_parent(p: Seq<char>, n: nat)
    requires
        n > 0,
    ensures
        ancestor(p, n) == (match path::parent_of(p) {
            None => None,
            Some(q) => ancestor(q, (n - 1) as nat),
        }),
    decreases n,
{
    if n > 1 {
        lemma_ancestor_of_parent(p, (n - 1) as nat);
    } else {
        assert(ancestor(p, 0) == Some(p));
    }
}

} // verus!
