//! Extensions that are a single file each: subagents and commands.

use vstd::prelude::*;

use crate::files::{FileTree, FileTreeView};
use crate::frontmatter;
use crate::ids;
use crate::models;
use crate::models::{
    ConfigScope, ConfigScopeView, Extension, ExtensionKind, ExtensionView, Permission,
    PermissionView, SourceOrigin, Timestamp,
};
use crate::path;
use crate::skills;
use crate::sources;
use crate::split;
use crate::text;

verus! {

// ---------------------------------------------------------------------------
// Patterns
// ---------------------------------------------------------------------------

/// The paths that a pattern below a directory stands for: those that match it if
/// it holds a `*`, else the path itself if something is there.
pub open spec fn paths_of_pattern(fs: FileTreeView, root: Seq<char>, pattern: Seq<char>) -> Seq<
    Seq<char>,
> {
    let full = path::extended(root, pattern);
    if pattern.contains('*') {
        fs.matching(full)
    } else if fs.at(full).exists {
        seq![full]
    } else {
        Seq::<Seq<char>>::empty()
    }
}

/// The paths that a pattern below a directory stands for.
pub fn resolve_pattern(fs: &FileTree, root: &str, pattern: &str) -> (r: Vec<String>)
    ensures
        text::strs(r@) == paths_of_pattern(fs@, root@, pattern@),
{
    let full = path::join(root, pattern);
    if split::contains_char(pattern, '*') {
        fs.glob(&full)
    } else if fs.has(&full) {
        text::one(full)
    } else {
        text::no_strings()
    }
}

// ---------------------------------------------------------------------------
// Files
// ---------------------------------------------------------------------------

/// Whether the name of a file marks it as disabled.
pub open spec fn is_disabled(p: Seq<char>) -> bool {
    match path::file_name_of(p) {
        Some(f) => text::has_suffix(f, ".disabled"@),
        None => false,
    }
}

/// The path that a file has when it is enabled.
pub open spec fn logical_path(p: Seq<char>) -> Seq<char> {
    if is_disabled(p) {
        text::without_suffixes(p, ".disabled"@)
    } else {
        p
    }
}

/// Where a path really lies: with its links resolved, or where nothing is there,
/// with those of its directory resolved.
pub open spec fn native_path(fs: FileTreeView, p: Seq<char>) -> Seq<char> {
    match fs.at(p).canonical {
        Some(q) => q,
        None => match path::parent_of(p) {
            None => p,
            Some(dir) => match fs.at(dir).canonical {
                None => p,
                Some(d) => match path::file_name_of(p) {
                    None => p,
                    Some(f) => path::extended(d, f),
                },
            },
        },
    }
}

/// The file at `p` as an extension, if it is a regular file with a name. Its
/// identifier goes by where it really lies, whatever its text says.
pub open spec fn managed_at(
    fs: FileTreeView,
    p: Seq<char>,
    agent: Seq<char>,
    kind: ExtensionKind,
    scope: ConfigScopeView,
    now: Timestamp,
) -> Option<ExtensionView> {
    let f = fs.at(p);
    let logical = logical_path(p);
    let installed = match f.created {
        Some(t) => t,
        None => now,
    };
    if !f.exists || !f.is_file || path::stem_of(logical) is None {
        None
    } else {
        Some(
            ExtensionView {
                id: ids::scoped_id(native_path(fs, logical), kind.text(), agent, scope),
                kind,
                name: path::stem_of(logical)->0,
                description: match f.content {
                    Some(c) => match frontmatter::yaml_description(c) {
                        Some(d) => d,
                        None => Seq::<char>::empty(),
                    },
                    None => Seq::<char>::empty(),
                },
                source: sources::plain_source(SourceOrigin::Agent),
                agents: seq![agent],
                tags: Seq::<Seq<char>>::empty(),
                pack: None,
                permissions: Seq::<PermissionView>::empty(),
                enabled: !is_disabled(p),
                trust_score: None,
                installed_at: installed,
                updated_at: match f.modified {
                    Some(t) => t,
                    None => installed,
                },
                source_path: Some(logical),
                cli_parent_id: None,
                cli_meta: None,
                install_meta: None,
                scope,
            },
        )
    }
}

/// The files at some paths as extensions.
pub open spec fn managed_all(
    fs: FileTreeView,
    paths: Seq<Seq<char>>,
    agent: Seq<char>,
    kind: ExtensionKind,
    scope: ConfigScopeView,
    now: Timestamp,
) -> Seq<ExtensionView>
    decreases paths.len(),
{
    if paths.len() == 0 {
        Seq::<ExtensionView>::empty()
    } else {
        let before = managed_all(fs, paths.drop_last(), agent, kind, scope, now);
        match managed_at(fs, paths.last(), agent, kind, scope, now) {
            Some(e) => before.push(e),
            None => before,
        }
    }
}

/// Where a path really lies.
pub fn canonical_native_path(fs: &FileTree, p: &str) -> (r: String)
    ensures
        r@ == native_path(fs@, p@),
{
    match fs.canonicalize(p) {
        Some(q) => q,
        None => match path::parent(p) {
            None => p.to_owned(),
            Some(dir) => match fs.canonicalize(&dir) {
                None => p.to_owned(),
                Some(d) => match path::file_name(p) {
                    None => p.to_owned(),
                    Some(f) => path::join(&d, &f),
                },
            },
        },
    }
}

fn scan_managed_file(
    fs: &FileTree,
    p: &str,
    agent: &str,
    kind: ExtensionKind,
    scope: &ConfigScope,
    now: Timestamp,
) -> (r: Option<Extension>)
    ensures
        models::opt_view(r) == managed_at(fs@, p@, agent@, kind, scope@, now),
{
    let facts = match fs.get(p) {
        None => {
            return None;
        },
        Some(f) => f,
    };
    if !facts.exists || !facts.is_file {
        return None;
    }
    let disabled = match path::file_name(p) {
        Some(f) => text::ends_with(&f, ".disabled"),
        None => false,
    };
    let logical = if disabled {
        text::trim_end_matches(p, ".disabled").to_owned()
    } else {
        p.to_owned()
    };
    let name = match path::file_stem(&logical) {
        None => {
            return None;
        },
        Some(n) => n,
    };
    let description = match &facts.content {
        Some(c) => match frontmatter::frontmatter_description(c) {
            Some(d) => d,
            None => String::new(),
        },
        None => String::new(),
    };
    let native = canonical_native_path(fs, &logical);
    let installed_at = match facts.created {
        Some(t) => t,
        None => now,
    };
    let updated_at = match facts.modified {
        Some(t) => t,
        None => installed_at,
    };
    let permissions: Vec<Permission> = Vec::new();
    assert(models::list_view(permissions@) =~= Seq::<PermissionView>::empty());
    Some(
        Extension {
            id: ids::stable_id_with_scope_for(&native, kind.as_str(), agent, scope),
            kind,
            name,
            description,
            source: sources::bare_source(SourceOrigin::Agent),
            agents: text::one(agent.to_owned()),
            tags: text::no_strings(),
            pack: None,
            permissions,
            enabled: !disabled,
            trust_score: None,
            installed_at,
            updated_at,
            source_path: Some(logical),
            cli_parent_id: None,
            cli_meta: None,
            install_meta: None,
            scope: scope.clone(),
        },
    )
}

/// The files at some paths as extensions.
pub fn scan_managed_files(
    fs: &FileTree,
    paths: &Vec<String>,
    agent: &str,
    kind: ExtensionKind,
    scope: &ConfigScope,
    now: Timestamp,
) -> (r: Vec<Extension>)
    ensures
        models::list_view(r@) == managed_all(
            fs@,
            text::strs(paths@),
            agent@,
            kind,
            scope@,
            now,
        ),
{
    let mut out = skills::no_exts();
    let ghost all = text::strs(paths@);
    let mut i: usize = 0;
    assert(all.take(0) =~= Seq::<Seq<char>>::empty());
    while i < paths.len()
        invariant
            all == text::strs(paths@),
            i <= paths.len(),
            models::list_view(out@) == managed_all(
                fs@,
                all.take(i as int),
                agent@,
                kind,
                scope@,
                now,
            ),
        decreases paths.len() - i,
    {
        assert(all.take(i + 1).drop_last() =~= all.take(i as int));
        assert(all[i as int] == paths@[i as int]@);
        if let Some(e) = scan_managed_file(fs, &paths[i], agent, kind, scope, now) {
            skills::push_ext(&mut out, e);
        }
        i += 1;
    }
    assert(all.take(i as int) =~= all);
    out
}

/// The files that patterns of a project stand for, each with and without
/// `.disabled` behind it.
pub open spec fn managed_in_project(
    fs: FileTreeView,
    patterns: Seq<Seq<char>>,
    root: Seq<char>,
    agent: Seq<char>,
    kind: ExtensionKind,
    scope: ConfigScopeView,
    now: Timestamp,
) -> Seq<ExtensionView>
    decreases patterns.len(),
{
    if patterns.len() == 0 {
        Seq::<ExtensionView>::empty()
    } else {
        managed_in_project(fs, patterns.drop_last(), root, agent, kind, scope, now)
            + managed_all(
            fs,
            paths_of_pattern(fs, root, patterns.last()),
            agent,
            kind,
            scope,
            now,
        ) + managed_all(
            fs,
            paths_of_pattern(fs, root, patterns.last() + ".disabled"@),
            agent,
            kind,
            scope,
            now,
        )
    }
}

/// The files that patterns of a project stand for, each with and without
/// `.disabled` behind it.
pub fn scan_managed_patterns(
    fs: &FileTree,
    patterns: &Vec<String>,
    root: &str,
    agent: &str,
    kind: ExtensionKind,
    scope: &ConfigScope,
    now: Timestamp,
) -> (r: Vec<Extension>)
    ensures
        models::list_view(r@) == managed_in_project(
            fs@,
            text::strs(patterns@),
            root@,
            agent@,
            kind,
            scope@,
            now,
        ),
{
    let mut out = skills::no_exts();
    let ghost all = text::strs(patterns@);
    let mut i: usize = 0;
    assert(all.take(0) =~= Seq::<Seq<char>>::empty());
    while i < patterns.len()
        invariant
            all == text::strs(patterns@),
            i <= patterns.len(),
            models::list_view(out@) == managed_in_project(
                fs@,
                all.take(i as int),
                root@,
                agent@,
                kind,
                scope@,
                now,
            ),
        decreases patterns.len() - i,
    {
        assert(all.take(i + 1).drop_last() =~= all.take(i as int));
        assert(all[i as int] == patterns@[i as int]@);
        let on = resolve_pattern(fs, root, &patterns[i]);
        let off = resolve_pattern(fs, root, &text::cat2(&patterns[i], ".disabled"));
        let more = scan_managed_files(fs, &on, agent, kind, scope, now);
        skills::append_exts(&mut out, more);
        let more = scan_managed_files(fs, &off, agent, kind, scope, now);
        skills::append_exts(&mut out, more);
        i += 1;
    }
    assert(all.take(i as int) =~= all);
    out
}

// ---------------------------------------------------------------------------
// Laws
// ---------------------------------------------------------------------------

/// Editing a file keeps its identifier: each scan finds it once, and what it finds
/// depends in its identifier, its name, its path and whether it is enabled on the
/// path, on where the path really lies, on the agent, the kind and the scope, and
/// not on what the file holds.
pub proof fn editing_keeps_managed_id(
    before: FileTreeView,
    after: FileTreeView,
    p: Seq<char>,
    agent: Seq<char>,
    kind: ExtensionKind,
    scope: ConfigScopeView,
    then: Timestamp,
    now: Timestamp,
)
    requires
        before.at(p).exists && before.at(p).is_file,
        after.at(p).exists && after.at(p).is_file,
        path::file_name_of(logical_path(p)) is Some,
        native_path(before, logical_path(p)) == native_path(after, logical_path(p)),
    ensures
        ({
            let a = managed_all(before, seq![p], agent, kind, scope, then);
            let b = managed_all(after, seq![p], agent, kind, scope, now);
            &&& a.len() == 1 && b.len() == 1
            &&& a[0].id == b[0].id && a[0].name == b[0].name
            &&& a[0].source_path == Some(logical_path(p)) && b[0].source_path == Some(
                logical_path(p),
            )
            &&& a[0].enabled == !is_disabled(p) && b[0].enabled == !is_disabled(p)
        }),
{
    lemma_one_managed(before, p, agent, kind, scope, then);
    lemma_one_managed(after, p, agent, kind, scope, now);
}

/// Disabling a file, by adding `.disabled` to its name, keeps its identifier, its
/// name and the path that it is recorded under, if the file is no link itself: then
/// it lies in the directory of its path, under its own name. Each scan finds the
/// file once, and it counts as enabled exactly where it bears its own name.
pub proof fn disabling_keeps_managed_id(
    before: FileTreeView,
    after: FileTreeView,
    p: Seq<char>,
    agent: Seq<char>,
    kind: ExtensionKind,
    scope: ConfigScopeView,
    then: Timestamp,
    now: Timestamp,
)
    requires
        before.at(p).exists && before.at(p).is_file,
        after.at(p + ".disabled"@).exists && after.at(p + ".disabled"@).is_file,
        !is_disabled(p),
        path::parent_of(p) is Some,
        path::file_name_of(p) is Some,
        before.at(path::parent_of(p)->0).canonical is Some,
        after.at(path::parent_of(p)->0).canonical == before.at(path::parent_of(p)->0).canonical,
        before.at(p).canonical == Some(
            path::extended(
                before.at(path::parent_of(p)->0).canonical->0,
                path::file_name_of(p)->0,
            ),
        ),
        after.at(p).canonical is None,
    ensures
        ({
            let a = managed_all(before, seq![p], agent, kind, scope, then);
            let b = managed_all(after, seq![p + ".disabled"@], agent, kind, scope, now);
            &&& a.len() == 1 && b.len() == 1
            &&& a[0].id == b[0].id && a[0].name == b[0].name
            &&& a[0].source_path == Some(p) && b[0].source_path == Some(p)
            &&& a[0].enabled && !b[0].enabled
        }),
{
    let off = p + ".disabled"@;
    lemma_suffix_disables(off);
    lemma_suffix_disables(p);
    reveal_strlit(".disabled");
    assert(off.skip(off.len() - 9) =~= ".disabled"@);
    assert(off.take(off.len() - 9) =~= p);
    assert(text::has_suffix(off, ".disabled"@));
    assert(text::without_suffixes(p, ".disabled"@) == p);
    assert(text::without_suffixes(off, ".disabled"@) == p);
    assert(logical_path(off) == p);
    assert(native_path(before, p) == native_path(after, p));
    lemma_one_managed(before, p, agent, kind, scope, then);
    lemma_one_managed(after, off, agent, kind, scope, now);
}

proof fn lemma_one_managed(
    fs: FileTreeView,
    p: Seq<char>,
    agent: Seq<char>,
    kind: ExtensionKind,
    scope: ConfigScopeView,
    now: Timestamp,
)
    requires
        fs.at(p).exists && fs.at(p).is_file,
        path::file_name_of(logical_path(p)) is Some,
    ensures
        managed_at(fs, p, agent, kind, scope, now) is Some,
        managed_all(fs, seq![p], agent, kind, scope, now) == seq![
            managed_at(fs, p, agent, kind, scope, now)->0,
        ],
{
    assert(seq![p].drop_last() =~= Seq::<Seq<char>>::empty());
    assert(managed_all(fs, seq![p].drop_last(), agent, kind, scope, now) =~= Seq::<
        ExtensionView,
    >::empty());
    assert(managed_all(fs, seq![p], agent, kind, scope, now) =~= seq![
        managed_at(fs, p, agent, kind, scope, now)->0,
    ]);
}

/// A path that ends in `.disabled` has a file name that ends so.
proof fn lemma_suffix_disables(p: Seq<char>)
    ensures
        text::has_suffix(p, ".disabled"@) ==> is_disabled(p),
{
    reveal_strlit(".disabled");
    if text::has_suffix(p, ".disabled"@) {
        let n = p.len() - 9;
        assert(p.skip(n) == ".disabled"@);
        assert forall|i: int| n <= i < p.len() implies p[i] == ".disabled"@[i - n] by {
            assert(p.skip(n)[i - n] == p[i]);
        }
        assert(p.last() == 'd');
        assert(path::tail_trimmed(p) == p);
        let k = path::last_start(p);
        path::lemma_last_start(p);
        if k > n {
            assert(p[k - 1] == ".disabled"@[k - 1 - n]);
        }
        let last = p.skip(k);
        assert(last.skip(last.len() - 9) =~= p.skip(n));
    }
}

/// The key text that the identifier of the file at `p` is made of.
pub open spec fn managed_key(
    fs: FileTreeView,
    p: Seq<char>,
    agent: Seq<char>,
    kind: ExtensionKind,
    scope: ConfigScopeView,
) -> Seq<char> {
    ids::scoped_key(native_path(fs, logical_path(p)), kind.text(), agent, scope)
}

/// Moving a file makes it another extension: the identifier goes by a key, and
/// the keys of two files of one agent, kind and scope agree exactly where the
/// files really lie at the same place.
pub proof fn moving_changes_managed_key(
    before: FileTreeView,
    after: FileTreeView,
    p: Seq<char>,
    q: Seq<char>,
    agent: Seq<char>,
    kind: ExtensionKind,
    scope: ConfigScopeView,
    now: Timestamp,
)
    ensures
        managed_at(before, p, agent, kind, scope, now) matches Some(e) ==> e.id == ids::id_of_key(
            managed_key(before, p, agent, kind, scope),
        ),
        managed_key(before, p, agent, kind, scope) == managed_key(after, q, agent, kind, scope)
            <==> native_path(before, logical_path(p)) == native_path(after, logical_path(q)),
{
    ids::names_have_distinct_keys(
        native_path(before, logical_path(p)),
        native_path(after, logical_path(q)),
        kind.text(),
        agent,
        scope,
    );
}

} // verus!
