//! Which command line tools are found, what is said of them, and what belongs to them.

use vstd::prelude::*;

use crate::agents;
use crate::agents::AgentView;
use crate::binaries;
use crate::binaries::{KnownCliView, MachineView, VersionAnswerView};
use crate::cli;
use crate::cli::{CliLinkView, CliScanView};
use crate::files::FileTreeView;
use crate::frontmatter;
use crate::ids;
use crate::inventory;
use crate::lists;
use crate::models::{
    CliMetaView, ExtensionKind, ExtensionView, PermissionView, Platform, SourceOrigin, Timestamp,
};
use crate::outside;
use crate::path;
use crate::permissions;
use crate::scan_entries;
use crate::scanner;
use crate::skills;
use crate::split;
use crate::text;

verus! {

// ---------------------------------------------------------------------------
// Merging permissions
// ---------------------------------------------------------------------------

/// The dimensions of permissions.
#[derive(Clone, Copy, PartialEq, Eq, Structural)]
pub enum Dimension {
    /// Access to files.
    Files,
    /// Access to the network.
    Network,
    /// The running of commands.
    Shell,
    /// Access to databases.
    Databases,
    /// The reading of variables.
    Variables,
}

/// The items that a permission lists in a dimension.
pub open spec fn items_in(p: PermissionView, d: Dimension) -> Option<Seq<Seq<char>>> {
    match (p, d) {
        (PermissionView::FileSystem { paths }, Dimension::Files) => Some(paths),
        (PermissionView::Network { domains }, Dimension::Network) => Some(domains),
        (PermissionView::Shell { commands }, Dimension::Shell) => Some(commands),
        (PermissionView::Database { engines }, Dimension::Databases) => Some(engines),
        (PermissionView::Env { keys }, Dimension::Variables) => Some(keys),
        _ => None,
    }
}

/// Whether a permission lists an item in a dimension.
pub open spec fn lists_item(p: PermissionView, d: Dimension, x: Seq<char>) -> bool {
    items_in(p, d) matches Some(items) && items.contains(x)
}

/// Whether a list of permissions lists an item in a dimension.
pub open spec fn grants(perms: Seq<PermissionView>, d: Dimension, x: Seq<char>) -> bool {
    exists|i: int| 0 <= i < perms.len() && lists_item(#[trigger] perms[i], d, x)
}

proof fn lemma_with_all_new(s: Seq<Seq<char>>, more: Seq<Seq<char>>, x: Seq<char>)
    ensures
        lists::with_all_new(s, more).contains(x) <==> s.contains(x) || more.contains(x),
    decreases more.len(),
{
    if more.len() > 0 {
        let before = lists::with_all_new(s, more.drop_last());
        lemma_with_all_new(s, more.drop_last(), x);
        lists::lemma_last_contains(more, x);
        lists::lemma_push_contains(before, more.last(), x);
    }
}

proof fn lemma_merged_with(a: PermissionView, b: PermissionView, d: Dimension, x: Seq<char>)
    requires
        permissions::same_dimension(a, b),
    ensures
        lists_item(permissions::merged_with(a, b), d, x) <==> lists_item(a, d, x) || lists_item(
            b,
            d,
            x,
        ),
{
    match (a, b) {
        (PermissionView::FileSystem { paths: s }, PermissionView::FileSystem { paths: t }) => {
            lemma_with_all_new(s, t, x);
        },
        (PermissionView::Network { domains: s }, PermissionView::Network { domains: t }) => {
            lemma_with_all_new(s, t, x);
        },
        (PermissionView::Shell { commands: s }, PermissionView::Shell { commands: t }) => {
            lemma_with_all_new(s, t, x);
        },
        (PermissionView::Database { engines: s }, PermissionView::Database { engines: t }) => {
            lemma_with_all_new(s, t, x);
        },
        (PermissionView::Env { keys: s }, PermissionView::Env { keys: t }) => {
            lemma_with_all_new(s, t, x);
        },
        _ => {},
    }
}

proof fn lemma_grants_sum(
    a: Seq<PermissionView>,
    b: Seq<PermissionView>,
    d: Dimension,
    x: Seq<char>,
)
    ensures
        grants(a + b, d, x) <==> grants(a, d, x) || grants(b, d, x),
{
    let r = a + b;
    if grants(a, d, x) {
        let i = choose|i: int| 0 <= i < a.len() && lists_item(#[trigger] a[i], d, x);
        assert(r[i] == a[i]);
    }
    if grants(b, d, x) {
        let i = choose|i: int| 0 <= i < b.len() && lists_item(#[trigger] b[i], d, x);
        assert(r[a.len() + i] == b[i]);
    }
    if grants(r, d, x) {
        let i = choose|i: int| 0 <= i < r.len() && lists_item(#[trigger] r[i], d, x);
        if i < a.len() {
            assert(a[i] == r[i]);
        } else {
            assert(b[i - a.len()] == r[i]);
        }
    }
}

proof fn lemma_grants_one(p: PermissionView, d: Dimension, x: Seq<char>)
    ensures
        grants(seq![p], d, x) <==> lists_item(p, d, x),
{
    if lists_item(p, d, x) {
        assert(seq![p][0] == p);
    }
}

proof fn lemma_with_permission(
    perms: Seq<PermissionView>,
    p: PermissionView,
    d: Dimension,
    x: Seq<char>,
)
    ensures
        grants(permissions::with_permission(perms, p), d, x) <==> grants(perms, d, x) || lists_item(
            p,
            d,
            x,
        ),
    decreases perms.len(),
{
    let r = permissions::with_permission(perms, p);
    if perms.len() == 0 {
        lemma_grants_one(p, d, x);
    } else {
        let t = perms.drop_first();
        assert(perms =~= seq![perms[0]] + t);
        lemma_grants_sum(seq![perms[0]], t, d, x);
        lemma_grants_one(perms[0], d, x);
        if permissions::same_dimension(perms[0], p) {
            let m = permissions::merged_with(perms[0], p);
            lemma_merged_with(perms[0], p, d, x);
            lemma_grants_sum(seq![m], t, d, x);
            lemma_grants_one(m, d, x);
        } else {
            lemma_with_permission(t, p, d, x);
            lemma_grants_sum(seq![perms[0]], permissions::with_permission(t, p), d, x);
        }
    }
}

/// Merging permissions into others grants exactly what either granted, dimension by
/// dimension.
pub proof fn merging_grants_what_either_granted(
    perms: Seq<PermissionView>,
    more: Seq<PermissionView>,
    d: Dimension,
    x: Seq<char>,
)
    ensures
        grants(permissions::with_permissions(perms, more), d, x) <==> grants(perms, d, x) || grants(
            more,
            d,
            x,
        ),
    decreases more.len(),
{
    if more.len() > 0 {
        let t = more.drop_last();
        merging_grants_what_either_granted(perms, t, d, x);
        lemma_with_permission(permissions::with_permissions(perms, t), more.last(), d, x);
        assert(more =~= t + seq![more.last()]);
        lemma_grants_sum(t, seq![more.last()], d, x);
        lemma_grants_one(more.last(), d, x);
    }
}

// ---------------------------------------------------------------------------
// What a tool may do
// ---------------------------------------------------------------------------

/// Whether a skill of a tool, by the identifiers of those, grants an item.
pub open spec fn child_grants(
    exts: Seq<ExtensionView>,
    ids: Seq<Seq<char>>,
    d: Dimension,
    x: Seq<char>,
) -> bool {
    exists|i: int|
        0 <= i < exts.len() && ids.contains((#[trigger] exts[i]).id) && grants(
            exts[i].permissions,
            d,
            x,
        )
}

/// Whether a server of a tool grants an item: one that bears the name of the binary, or
/// that runs it.
pub open spec fn server_grants(
    exts: Seq<ExtensionView>,
    bin: Seq<char>,
    d: Dimension,
    x: Seq<char>,
) -> bool {
    exists|i: int|
        0 <= i < exts.len() && (#[trigger] exts[i]).kind == ExtensionKind::Mcp && (exts[i].name
            == bin || grants(exts[i].permissions, Dimension::Shell, bin)) && grants(
            exts[i].permissions,
            d,
            x,
        )
}

pub proof fn lemma_runs(perms: Seq<PermissionView>, command: Seq<char>)
    ensures
        cli::runs(perms, command) <==> grants(perms, Dimension::Shell, command),
{
    if cli::runs(perms, command) {
        let i = choose|i: int|
            0 <= i < perms.len() && match #[trigger] perms[i] {
                PermissionView::Shell { commands } => commands.contains(command),
                _ => false,
            };
        assert(lists_item(perms[i], Dimension::Shell, command));
    }
    if grants(perms, Dimension::Shell, command) {
        let i = choose|i: int|
            0 <= i < perms.len() && lists_item(#[trigger] perms[i], Dimension::Shell, command);
        assert(perms[i] is Shell);
    }
}

proof fn lemma_with_children(
    perms: Seq<PermissionView>,
    exts: Seq<ExtensionView>,
    ids: Seq<Seq<char>>,
    d: Dimension,
    x: Seq<char>,
)
    ensures
        grants(cli::with_children(perms, exts, ids), d, x) <==> grants(perms, d, x) || child_grants(
            exts,
            ids,
            d,
            x,
        ),
    decreases exts.len(),
{
    if exts.len() > 0 {
        let t = exts.drop_last();
        let last = exts.last();
        lemma_with_children(perms, t, ids, d, x);
        merging_grants_what_either_granted(
            cli::with_children(perms, t, ids),
            last.permissions,
            d,
            x,
        );
        if child_grants(t, ids, d, x) {
            let i = choose|i: int|
                0 <= i < t.len() && ids.contains((#[trigger] t[i]).id) && grants(
                    t[i].permissions,
                    d,
                    x,
                );
            assert(exts[i] == t[i]);
        }
        if ids.contains(last.id) && grants(last.permissions, d, x) {
            assert(exts[exts.len() - 1] == last);
        }
        if child_grants(exts, ids, d, x) {
            let i = choose|i: int|
                0 <= i < exts.len() && ids.contains((#[trigger] exts[i]).id) && grants(
                    exts[i].permissions,
                    d,
                    x,
                );
            if i < t.len() {
                assert(t[i] == exts[i]);
            }
        }
    }
}

proof fn lemma_with_servers(
    perms: Seq<PermissionView>,
    exts: Seq<ExtensionView>,
    bin: Seq<char>,
    d: Dimension,
    x: Seq<char>,
)
    ensures
        grants(cli::with_servers(perms, exts, bin), d, x) <==> grants(perms, d, x) || server_grants(
            exts,
            bin,
            d,
            x,
        ),
    decreases exts.len(),
{
    if exts.len() > 0 {
        let t = exts.drop_last();
        let last = exts.last();
        lemma_with_servers(perms, t, bin, d, x);
        lemma_runs(last.permissions, bin);
        merging_grants_what_either_granted(
            cli::with_servers(perms, t, bin),
            last.permissions,
            d,
            x,
        );
        if server_grants(t, bin, d, x) {
            let i = choose|i: int|
                0 <= i < t.len() && (#[trigger] t[i]).kind == ExtensionKind::Mcp && (t[i].name
                    == bin || grants(t[i].permissions, Dimension::Shell, bin)) && grants(
                    t[i].permissions,
                    d,
                    x,
                );
            assert(exts[i] == t[i]);
        }
        if cli::is_server_of(last, bin) && grants(last.permissions, d, x) {
            assert(exts[exts.len() - 1] == last);
        }
        if server_grants(exts, bin, d, x) {
            let i = choose|i: int|
                0 <= i < exts.len() && (#[trigger] exts[i]).kind == ExtensionKind::Mcp && (
                exts[i].name == bin || grants(exts[i].permissions, Dimension::Shell, bin))
                    && grants(exts[i].permissions, d, x);
            if i < t.len() {
                assert(t[i] == exts[i]);
            }
        }
    }
}

/// A tool may do by itself: talk to its domains, read its credentials, and run; and all
/// that its skills and its servers may do. It may do nothing else.
pub proof fn tool_may_do_what_belongs_to_it(
    meta: CliMetaView,
    exts: Seq<ExtensionView>,
    ids: Seq<Seq<char>>,
    d: Dimension,
    x: Seq<char>,
)
    ensures
        grants(cli::cli_perms(meta, exts, ids), d, x) <==> {
            ||| d == Dimension::Network && meta.api_domains.contains(x)
            ||| d == Dimension::Files && meta.credentials_path == Some(x)
            ||| d == Dimension::Shell && x == meta.binary_name
            ||| child_grants(exts, ids, d, x)
            ||| server_grants(exts, meta.binary_name, d, x)
        },
{
    let own = cli::own_perms(meta);
    let a = cli::with_children(own, exts, ids);
    let b = cli::with_servers(a, exts, meta.binary_name);
    lemma_with_children(own, exts, ids, d, x);
    lemma_with_servers(a, exts, meta.binary_name, d, x);
    let none = PermissionView::FileSystem { paths: Seq::<Seq<char>>::empty() };
    assert(!lists_item(none, d, x));
    assert(b.push(none) =~= b + seq![none]);
    lemma_grants_sum(b, seq![none], d, x);
    lemma_grants_one(none, d, x);
    let net = if meta.api_domains.len() == 0 {
        Seq::<PermissionView>::empty()
    } else {
        seq![PermissionView::Network { domains: meta.api_domains }]
    };
    let files = match meta.credentials_path {
        None => Seq::<PermissionView>::empty(),
        Some(p) => seq![PermissionView::FileSystem { paths: seq![p] }],
    };
    let run = PermissionView::Shell { commands: seq![meta.binary_name] };
    assert(own == net + files + seq![run]);
    lemma_grants_sum(net + files, seq![run], d, x);
    lemma_grants_sum(net, files, d, x);
    lemma_grants_one(run, d, x);
    assert(seq![meta.binary_name].contains(x) <==> x == meta.binary_name) by {
        assert(seq![meta.binary_name][0] == meta.binary_name);
    }
    if meta.api_domains.len() > 0 {
        lemma_grants_one(PermissionView::Network { domains: meta.api_domains }, d, x);
    } else {
        assert(!meta.api_domains.contains(x));
        assert(!grants(net, d, x));
    }
    match meta.credentials_path {
        None => {
            assert(!grants(files, d, x));
        },
        Some(p) => {
            lemma_grants_one(PermissionView::FileSystem { paths: seq![p] }, d, x);
            assert(seq![p].contains(x) <==> x == p) by {
                assert(seq![p][0] == p);
            }
        },
    }
}

// ---------------------------------------------------------------------------
// Which tools are looked for
// ---------------------------------------------------------------------------

/// Whether a skill requires a binary, by the head of its text.
pub open spec fn requires_bin(fs: FileTreeView, e: ExtensionView, b: Seq<char>) -> bool {
    e.kind == ExtensionKind::Skill && (e.source_path matches Some(p) && (fs.at(p).content matches Some(
        c,
    ) && (frontmatter::frontmatter_of(c) matches Some(f) && f.2.contains(b))))
}

/// Whether a skill belongs to a binary: it requires it, or bears its name, if that is
/// the name of a well-known tool.
pub open spec fn belongs_to_bin(fs: FileTreeView, e: ExtensionView, b: Seq<char>) -> bool {
    ||| requires_bin(fs, e, b)
    ||| e.kind == ExtensionKind::Skill && e.name == b && is_known(b)
}

/// Whether a binary is that of a well-known tool.
pub open spec fn is_known(b: Seq<char>) -> bool {
    exists|k: int|
        0 <= k < binaries::known_clis_view().len() && (
        #[trigger] binaries::known_clis_view()[k]).binary_name == b
}

pub proof fn lemma_known_in(list: Seq<KnownCliView>, b: Seq<char>)
    ensures
        binaries::known_in(list, b) matches Some(k) ==> list.contains(k) && k.binary_name == b,
        binaries::known_in(list, b) is None ==> forall|i: int|
            0 <= i < list.len() ==> (#[trigger] list[i]).binary_name != b,
    decreases list.len(),
{
    if list.len() > 0 {
        let t = list.drop_first();
        lemma_known_in(t, b);
        assert(list.contains(list[0]));
        if list[0].binary_name != b {
            match binaries::known_in(t, b) {
                Some(k) => {
                    let i = choose|i: int| 0 <= i < t.len() && t[i] == k;
                    assert(list[i + 1] == k);
                },
                None => {
                    assert forall|i: int| 0 <= i < list.len() implies (
                    #[trigger] list[i]).binary_name != b by {
                        if i > 0 {
                            assert(t[i - 1] == list[i]);
                        }
                    }
                },
            }
        }
    }
}

proof fn lemma_is_known(b: Seq<char>)
    ensures
        is_known(b) <==> binaries::known_in(binaries::known_clis_view(), b) is Some,
{
    let list = binaries::known_clis_view();
    lemma_known_in(list, b);
    if let Some(k) = binaries::known_in(list, b) {
        let i = choose|i: int| 0 <= i < list.len() && list[i] == k;
        assert(list[i].binary_name == b);
    }
}

proof fn lemma_required_pairs(
    fs: FileTreeView,
    exts: Seq<ExtensionView>,
    x: (Seq<char>, Seq<char>),
)
    ensures
        cli::required_pairs(fs, exts).contains(x) <==> exists|i: int|
            0 <= i < exts.len() && (#[trigger] exts[i]).id == x.1 && requires_bin(
                fs,
                exts[i],
                x.0,
            ),
    decreases exts.len(),
{
    let all = cli::required_pairs(fs, exts);
    if exts.len() > 0 {
        let t = exts.drop_last();
        let last = exts.last();
        let before = cli::required_pairs(fs, t);
        let bins = cli::bins_of(fs, last);
        let here = bins.map_values(|b: Seq<char>| (b, last.id));
        lemma_required_pairs(fs, t, x);
        lists::lemma_sum_contains(before, here, x);
        assert(forall|b: Seq<char>| #[trigger] bins.contains(b) <==> requires_bin(fs, last, b));
        if before.contains(x) {
            let i = choose|i: int|
                0 <= i < t.len() && (#[trigger] t[i]).id == x.1 && requires_bin(fs, t[i], x.0);
            assert(exts[i] == t[i]);
        }
        if here.contains(x) {
            let i = choose|i: int| 0 <= i < here.len() && here[i] == x;
            assert(bins[i] == x.0);
            assert(bins.contains(x.0));
            assert(exts[exts.len() - 1] == last);
        }
        if exists|i: int|
            0 <= i < exts.len() && (#[trigger] exts[i]).id == x.1 && requires_bin(
                fs,
                exts[i],
                x.0,
            ) {
            let i = choose|i: int|
                0 <= i < exts.len() && (#[trigger] exts[i]).id == x.1 && requires_bin(
                    fs,
                    exts[i],
                    x.0,
                );
            if i < t.len() {
                assert(t[i] == exts[i]);
            } else {
                assert(bins.contains(x.0));
                let k = choose|k: int| 0 <= k < bins.len() && bins[k] == x.0;
                assert(here[k] == x);
            }
        }
    } else {
        assert(!all.contains(x));
    }
}

proof fn lemma_named_pairs(exts: Seq<ExtensionView>, x: (Seq<char>, Seq<char>))
    ensures
        cli::named_pairs(exts).contains(x) <==> exists|i: int|
            0 <= i < exts.len() && (#[trigger] exts[i]).id == x.1 && exts[i].kind
                == ExtensionKind::Skill && exts[i].name == x.0 && is_known(x.0),
    decreases exts.len(),
{
    let all = cli::named_pairs(exts);
    if exts.len() > 0 {
        let t = exts.drop_last();
        let last = exts.last();
        let before = cli::named_pairs(t);
        lemma_named_pairs(t, x);
        lemma_is_known(last.name);
        lists::lemma_push_contains(before, (last.name, last.id), x);
        if before.contains(x) {
            let i = choose|i: int|
                0 <= i < t.len() && (#[trigger] t[i]).id == x.1 && t[i].kind == ExtensionKind::Skill
                    && t[i].name == x.0 && is_known(x.0);
            assert(exts[i] == t[i]);
        }
        if all.contains(x) && !before.contains(x) {
            assert(exts[exts.len() - 1] == last);
        }
        if exists|i: int|
            0 <= i < exts.len() && (#[trigger] exts[i]).id == x.1 && exts[i].kind
                == ExtensionKind::Skill && exts[i].name == x.0 && is_known(x.0) {
            let i = choose|i: int|
                0 <= i < exts.len() && (#[trigger] exts[i]).id == x.1 && exts[i].kind
                    == ExtensionKind::Skill && exts[i].name == x.0 && is_known(x.0);
            if i < t.len() {
                assert(t[i] == exts[i]);
            }
        }
    } else {
        assert(!all.contains(x));
    }
}

proof fn lemma_ids_for(pairs: Seq<(Seq<char>, Seq<char>)>, b: Seq<char>, id: Seq<char>)
    ensures
        cli::ids_for(pairs, b).contains(id) <==> pairs.contains((b, id)),
    decreases pairs.len(),
{
    if pairs.len() > 0 {
        lemma_ids_for(pairs.drop_last(), b, id);
        lists::lemma_last_contains(pairs, (b, id));
        lists::lemma_push_contains(cli::ids_for(pairs.drop_last(), b), pairs.last().1, id);
        assert(pairs.last() == (pairs.last().0, pairs.last().1));
    } else {
        assert(!cli::ids_for(pairs, b).contains(id));
    }
}

/// The skills of a binary are exactly those that belong to it.
pub proof fn skills_of_a_binary_belong_to_it(
    fs: FileTreeView,
    exts: Seq<ExtensionView>,
    b: Seq<char>,
    id: Seq<char>,
)
    ensures
        cli::ids_for(cli::bin_pairs(fs, exts), b).contains(id) <==> exists|i: int|
            0 <= i < exts.len() && (#[trigger] exts[i]).id == id && belongs_to_bin(fs, exts[i], b),
{
    let a = cli::required_pairs(fs, exts);
    let c = cli::named_pairs(exts);
    lemma_ids_for(cli::bin_pairs(fs, exts), b, id);
    lists::lemma_sum_contains(a, c, (b, id));
    lemma_required_pairs(fs, exts, (b, id));
    lemma_named_pairs(exts, (b, id));
    if a.contains((b, id)) {
        let i = choose|i: int|
            0 <= i < exts.len() && (#[trigger] exts[i]).id == id && requires_bin(fs, exts[i], b);
        assert(belongs_to_bin(fs, exts[i], b));
    }
    if c.contains((b, id)) {
        let i = choose|i: int|
            0 <= i < exts.len() && (#[trigger] exts[i]).id == id && exts[i].kind
                == ExtensionKind::Skill && exts[i].name == b && is_known(b);
        assert(belongs_to_bin(fs, exts[i], b));
    }
}

/// Tools are looked for by the binaries that skills require and by those of the
/// well-known tools, and by no others, each once.
pub proof fn tools_are_looked_for_by_requirement_and_by_name(
    fs: FileTreeView,
    exts: Seq<ExtensionView>,
    b: Seq<char>,
)
    ensures
        cli::candidate_bins(fs, exts).no_duplicates(),
        cli::candidate_bins(fs, exts).contains(b) <==> is_known(b) || exists|i: int|
            0 <= i < exts.len() && requires_bin(fs, #[trigger] exts[i], b),
{
    let pairs = cli::required_pairs(fs, exts);
    let firsts = pairs.map_values(|p: (Seq<char>, Seq<char>)| p.0);
    let list = binaries::known_clis_view();
    let names = list.map_values(|k: KnownCliView| k.binary_name);
    let all = firsts + names;
    lists::distinct_keeps_each_item_once(all);
    assert(lists::distinct(all).contains(b) <==> all.contains(b));
    lists::lemma_sum_contains(firsts, names, b);
    if firsts.contains(b) {
        let i = choose|i: int| 0 <= i < firsts.len() && firsts[i] == b;
        assert(pairs.contains(pairs[i]));
        lemma_required_pairs(fs, exts, pairs[i]);
        let k = choose|k: int|
            0 <= k < exts.len() && (#[trigger] exts[k]).id == pairs[i].1 && requires_bin(
                fs,
                exts[k],
                pairs[i].0,
            );
        assert(requires_bin(fs, exts[k], b));
    }
    if exists|i: int| 0 <= i < exts.len() && requires_bin(fs, #[trigger] exts[i], b) {
        let i = choose|i: int| 0 <= i < exts.len() && requires_bin(fs, #[trigger] exts[i], b);
        lemma_required_pairs(fs, exts, (b, exts[i].id));
        let k = choose|k: int| 0 <= k < pairs.len() && pairs[k] == (b, exts[i].id);
        assert(firsts[k] == b);
    }
    if names.contains(b) {
        let k = choose|k: int| 0 <= k < names.len() && names[k] == b;
        assert(list[k].binary_name == b);
    }
    if is_known(b) {
        let k = choose|k: int|
            0 <= k < binaries::known_clis_view().len() && (
            #[trigger] binaries::known_clis_view()[k]).binary_name == b;
        assert(names[k] == b);
    }
}

// ---------------------------------------------------------------------------
// What is said of a tool
// ---------------------------------------------------------------------------

/// Whether an entry is that of the tool with a binary that lies at `at`.
pub open spec fn is_entry_of_tool(
    fs: FileTreeView,
    m: MachineView,
    b: Seq<char>,
    at: Seq<char>,
    now: Timestamp,
    e: ExtensionView,
) -> bool {
    let known = binaries::known_in(binaries::known_clis_view(), b);
    &&& e.kind == ExtensionKind::Cli && e.id == ids::cli_id(b) && e.enabled
    &&& e.name == (match known {
        Some(k) => k.display_name,
        None => b,
    })
    &&& e.scope is Global && e.source_path == Some(at) && e.cli_parent_id is None
    &&& e.tags.len() == 0 && e.trust_score is None && e.install_meta is None
    &&& e.source.origin == SourceOrigin::Local && e.source.commit_hash is None
        && !e.source.from_manifest
    &&& e.source.url == (match known {
        Some(k) => k.repo_url,
        None => None,
    })
    &&& e.pack == skills::pack_of_url(e.source.url)
    &&& e.cli_meta matches Some(c) && {
        &&& c.binary_name == b && c.binary_path == Some(at)
        &&& c.install_method == binaries::method_of(binaries::normalized(at))
        &&& c.version == binaries::version_in(m.versions, at) && e.source.version == c.version
        &&& c.api_domains == (match known {
            Some(k) => k.api_domains,
            None => Seq::<Seq<char>>::empty(),
        })
        &&& c.credentials_path == (match known {
            Some(k) => match k.credentials_path {
                Some(t) => Some(binaries::credential_path(t, m)),
                None => None,
            },
            None => None,
        })
        &&& scan_entries::is_changed_at(fs.at(at), now, e.updated_at)
        &&& if c.install_method == Some("brew"@) && binaries::brew_time(fs, at) is Some {
            Some(e.installed_at) == binaries::brew_time(fs, at)
        } else {
            scan_entries::is_made_at(fs.at(at), now, e.installed_at)
        }
    }
}

/// What a scan says of a tool is what its binary, its entry among the well-known tools
/// and the machine say: who it is, where it lies, how it was installed, which version it
/// has and where its credentials lie.
pub proof fn tool_is_found_as_installed(
    fs: FileTreeView,
    m: MachineView,
    b: Seq<char>,
    at: Seq<char>,
    exts: Seq<ExtensionView>,
    ids: Seq<Seq<char>>,
    children: Seq<Seq<char>>,
    now: Timestamp,
)
    ensures
        is_entry_of_tool(
            fs,
            m,
            b,
            at,
            now,
            cli::cli_ext(fs, m, b, at, exts, ids, children, now),
        ),
        ({
            let e = cli::cli_ext(fs, m, b, at, exts, ids, children, now);
            e.permissions == cli::cli_perms(e.cli_meta->0, exts, ids)
        }),
{
}

proof fn lemma_agents_of(exts: Seq<ExtensionView>, ids: Seq<Seq<char>>, a: Seq<char>)
    ensures
        cli::agents_of(exts, ids).contains(a) <==> exists|i: int|
            0 <= i < exts.len() && ids.contains((#[trigger] exts[i]).id) && exts[i].agents.contains(
                a,
            ),
    decreases exts.len(),
{
    if exts.len() > 0 {
        let t = exts.drop_last();
        let last = exts.last();
        lemma_agents_of(t, ids, a);
        lemma_with_all_new(cli::agents_of(t, ids), last.agents, a);
        if cli::agents_of(t, ids).contains(a) {
            let i = choose|i: int|
                0 <= i < t.len() && ids.contains((#[trigger] t[i]).id) && t[i].agents.contains(a);
            assert(exts[i] == t[i]);
        }
        if ids.contains(last.id) && last.agents.contains(a) {
            assert(exts[exts.len() - 1] == last);
        }
        if exists|i: int|
            0 <= i < exts.len() && ids.contains((#[trigger] exts[i]).id) && exts[i].agents.contains(
                a,
            ) {
            let i = choose|i: int|
                0 <= i < exts.len() && ids.contains((#[trigger] exts[i]).id)
                    && exts[i].agents.contains(a);
            if i < t.len() {
                assert(t[i] == exts[i]);
            }
        }
    } else {
        assert(!cli::agents_of(exts, ids).contains(a));
    }
}

proof fn lemma_description_of(exts: Seq<ExtensionView>, ids: Seq<Seq<char>>)
    ensures
        match cli::description_of(exts, ids) {
            None => forall|i: int|
                0 <= i < exts.len() && ids.contains((#[trigger] exts[i]).id)
                    ==> exts[i].description.len() == 0,
            Some(d) => exists|i: int|
                0 <= i < exts.len() && ids.contains((#[trigger] exts[i]).id) && d
                    == exts[i].description && d.len() > 0 && forall|j: int|
                    0 <= j < i && ids.contains((#[trigger] exts[j]).id)
                        ==> exts[j].description.len() == 0,
        },
    decreases exts.len(),
{
    if exts.len() > 0 {
        let t = exts.drop_first();
        lemma_description_of(t, ids);
        assert forall|j: int| 0 <= j < t.len() implies #[trigger] t[j] == exts[j + 1] by {}
        if ids.contains(exts[0].id) && exts[0].description.len() > 0 {
            assert(exts[0].description == cli::description_of(exts, ids)->0);
        } else {
            match cli::description_of(t, ids) {
                None => {
                    assert forall|i: int|
                        0 <= i < exts.len() && ids.contains(
                            (#[trigger] exts[i]).id,
                        ) implies exts[i].description.len() == 0 by {
                        if i > 0 {
                            assert(ids.contains(t[i - 1].id));
                        }
                    }
                },
                Some(d) => {
                    let i = choose|i: int|
                        0 <= i < t.len() && ids.contains((#[trigger] t[i]).id) && d
                            == t[i].description && d.len() > 0 && forall|j: int|
                            0 <= j < i && ids.contains((#[trigger] t[j]).id)
                                ==> t[j].description.len() == 0;
                    assert(exts[i + 1] == t[i]);
                    assert forall|j: int|
                        0 <= j < i + 1 && ids.contains(
                            (#[trigger] exts[j]).id,
                        ) implies exts[j].description.len() == 0 by {
                        if j > 0 {
                            assert(ids.contains(t[j - 1].id));
                        }
                    }
                },
            }
        }
    }
}

/// A tool belongs to the agents of its skills, and is described by the first of them
/// that has a description; without one, by its name and its version, if that is known.
pub proof fn tool_is_described_by_its_skills(
    fs: FileTreeView,
    m: MachineView,
    b: Seq<char>,
    at: Seq<char>,
    exts: Seq<ExtensionView>,
    ids: Seq<Seq<char>>,
    children: Seq<Seq<char>>,
    now: Timestamp,
    a: Seq<char>,
)
    ensures
        ({
            let e = cli::cli_ext(fs, m, b, at, exts, ids, children, now);
            let version = binaries::version_in(m.versions, at);
            &&& e.agents.contains(a) <==> exists|i: int|
                0 <= i < exts.len() && children.contains((#[trigger] exts[i]).id)
                    && exts[i].agents.contains(a)
            &&& {
                ||| exists|i: int|
                    0 <= i < exts.len() && children.contains((#[trigger] exts[i]).id)
                        && e.description == exts[i].description && e.description.len() > 0
                        && forall|j: int|
                        0 <= j < i && children.contains((#[trigger] exts[j]).id)
                            ==> exts[j].description.len() == 0
                ||| (forall|i: int|
                    0 <= i < exts.len() && children.contains((#[trigger] exts[i]).id)
                        ==> exts[i].description.len() == 0) && (match version {
                    Some(v) => e.description == e.name + " v"@ + v,
                    None => e.description == e.name + " (installed)"@,
                })
            }
        }),
{
    lemma_agents_of(exts, children, a);
    lemma_description_of(exts, children);
}

/// A scan finds a tool for each binary that is looked for and installed, and for no
/// other.
pub proof fn installed_tools_are_found(
    fs: FileTreeView,
    m: MachineView,
    bins: Seq<Seq<char>>,
    exts: Seq<ExtensionView>,
    now: Timestamp,
    b: Seq<char>,
)
    ensures
        (exists|i: int|
            0 <= i < cli::with_bins(fs, m, bins, exts, now).exts.len() && is_tool_for(
                #[trigger] cli::with_bins(fs, m, bins, exts, now).exts[i],
                b,
            )) <==> bins.contains(b) && binaries::binary_path(fs, m, b) is Some,
    decreases bins.len(),
{
    let all = cli::with_bins(fs, m, bins, exts, now).exts;
    if bins.len() > 0 {
        let t = bins.drop_last();
        let last = bins.last();
        let before = cli::with_bins(fs, m, t, exts, now).exts;
        installed_tools_are_found(fs, m, t, exts, now, b);
        lists::lemma_last_contains(bins, b);
        if exists|i: int| 0 <= i < before.len() && is_tool_for(#[trigger] before[i], b) {
            let i = choose|i: int| 0 <= i < before.len() && is_tool_for(#[trigger] before[i], b);
            assert(all[i] == before[i]);
        }
        if let Some(at) = binaries::binary_path(fs, m, last) {
            let n = before.len() as int;
            assert(all.len() == n + 1);
            assert(all[n].cli_meta is Some && all[n].cli_meta->0.binary_name == last);
            if last == b {
                assert(is_tool_for(all[n], b));
            }
        }
        if exists|i: int| 0 <= i < all.len() && is_tool_for(#[trigger] all[i], b) {
            let i = choose|i: int| 0 <= i < all.len() && is_tool_for(#[trigger] all[i], b);
            if i < before.len() {
                assert(before[i] == all[i]);
            }
        }
    }
}

/// Whether an entry is that of a tool with a binary.
pub open spec fn is_tool_for(e: ExtensionView, b: Seq<char>) -> bool {
    e.cli_meta matches Some(c) && c.binary_name == b
}

// ---------------------------------------------------------------------------
// What belongs to a tool
// ---------------------------------------------------------------------------

/// Putting on record which tool an extension belongs to changes nothing else. A skill
/// belongs to the first tool whose links hold it; a server to the first tool of which it
/// bears the binary's name, or that it runs by name or by path; nothing else belongs to
/// a tool.
pub proof fn extensions_belong_to_tools(scan: CliScanView, e: ExtensionView, k: int)
    ensures
        ({
            let t = inventory::with_parent(scan, e);
            let links = scan.links;
            let tools = scan.exts;
            &&& t == (ExtensionView { cli_parent_id: t.cli_parent_id, ..e })
            &&& e.kind != ExtensionKind::Skill && e.kind != ExtensionKind::Mcp ==> t == e
            &&& e.kind == ExtensionKind::Skill && 0 <= k < links.len()
                && links[k].skill_ids.contains(e.id) && (forall|j: int|
                0 <= j < k ==> !(#[trigger] links[j]).skill_ids.contains(e.id)) ==> t.cli_parent_id
                == Some(links[k].cli_id)
            &&& e.kind == ExtensionKind::Skill && (forall|j: int|
                0 <= j < links.len() ==> !(#[trigger] links[j]).skill_ids.contains(e.id)) ==> t == e
            &&& e.kind == ExtensionKind::Mcp && 0 <= k < tools.len() && is_served_by(tools[k], e)
                && (forall|j: int| 0 <= j < k ==> !is_served_by(#[trigger] tools[j], e))
                ==> t.cli_parent_id == Some(tools[k].id)
            &&& e.kind == ExtensionKind::Mcp && (forall|j: int|
                0 <= j < tools.len() ==> !is_served_by(#[trigger] tools[j], e)) ==> t == e
        }),
{
    lemma_skill_parent(scan.links, e.id, k);
    lemma_server_parent(scan.exts, e, k);
}

/// Whether a server belongs to a tool.
pub open spec fn is_served_by(tool: ExtensionView, e: ExtensionView) -> bool {
    tool.cli_meta matches Some(c) && (e.name == c.binary_name || (c.binary_path matches Some(p) && (
    grants(e.permissions, Dimension::Shell, c.binary_name) || grants(
        e.permissions,
        Dimension::Shell,
        p,
    ))))
}

proof fn lemma_skill_parent(links: Seq<CliLinkView>, id: Seq<char>, k: int)
    ensures
        0 <= k < links.len() && links[k].skill_ids.contains(id) && (forall|j: int|
            0 <= j < k ==> !(#[trigger] links[j]).skill_ids.contains(id))
            ==> inventory::skill_parent(links, id) == Some(links[k].cli_id),
        (forall|j: int|
            0 <= j < links.len() ==> !(#[trigger] links[j]).skill_ids.contains(id))
            ==> inventory::skill_parent(links, id) is None,
    decreases links.len(),
{
    if links.len() > 0 {
        let t = links.drop_first();
        lemma_skill_parent(t, id, k - 1);
        assert forall|j: int| 0 <= j < t.len() implies #[trigger] t[j] == links[j + 1] by {}
        if 0 < k < links.len() && links[k].skill_ids.contains(id) && (forall|j: int|
            0 <= j < k ==> !(#[trigger] links[j]).skill_ids.contains(id)) {
            assert(!links[0].skill_ids.contains(id));
            assert(t[k - 1] == links[k]);
        }
        if forall|j: int| 0 <= j < links.len() ==> !(#[trigger] links[j]).skill_ids.contains(id) {
            assert(!links[0].skill_ids.contains(id));
        }
    }
}

proof fn lemma_server_parent(tools: Seq<ExtensionView>, e: ExtensionView, k: int)
    ensures
        0 <= k < tools.len() && is_served_by(tools[k], e) && (forall|j: int|
            0 <= j < k ==> !is_served_by(#[trigger] tools[j], e)) ==> inventory::server_parent(
            tools,
            e,
        ) == Some(tools[k].id),
        (forall|j: int| 0 <= j < tools.len() ==> !is_served_by(#[trigger] tools[j], e))
            ==> inventory::server_parent(tools, e) is None,
    decreases tools.len(),
{
    if tools.len() > 0 {
        let t = tools.drop_first();
        lemma_server_parent(t, e, k - 1);
        assert forall|j: int| 0 <= j < t.len() implies #[trigger] t[j] == tools[j + 1] by {}
        if let Some(c) = tools[0].cli_meta {
            lemma_runs(e.permissions, c.binary_name);
            if let Some(p) = c.binary_path {
                lemma_runs(e.permissions, p);
            }
        }
        assert(is_served_by(tools[0], e) <==> tools[0].cli_meta is Some && inventory::serves(
            e,
            tools[0].cli_meta->0,
        ));
        if 0 < k < tools.len() && is_served_by(tools[k], e) && (forall|j: int|
            0 <= j < k ==> !is_served_by(#[trigger] tools[j], e)) {
            assert(!is_served_by(tools[0], e));
            assert(t[k - 1] == tools[k]);
        }
        if forall|j: int| 0 <= j < tools.len() ==> !is_served_by(#[trigger] tools[j], e) {
            assert(!is_served_by(tools[0], e));
        }
    }
}

/// Everything that a machine has is what its agents have, each with the tool that it
/// belongs to, and then the tools.
pub proof fn everything_is_agents_and_tools(
    fs: FileTreeView,
    m: MachineView,
    agents: Seq<AgentView>,
    projects: Seq<(Seq<char>, Seq<char>)>,
    now: Timestamp,
    i: int,
)
    ensures
        ({
            let found = inventory::of_agents(fs, agents, projects, now);
            let scan = cli::cli_scan(fs, m, found, now);
            let all = inventory::everything(fs, m, agents, projects, now);
            &&& all.len() == found.len() + scan.exts.len()
            &&& 0 <= i < found.len() ==> all[i] == inventory::with_parent(scan, found[i])
            &&& 0 <= i < scan.exts.len() ==> all[found.len() + i] == scan.exts[i]
        }),
{
}

/// What the agents have is what the agents have that are installed, globally and in
/// each known project.
pub proof fn installed_agents_are_scanned(
    fs: FileTreeView,
    agents: Seq<AgentView>,
    projects: Seq<(Seq<char>, Seq<char>)>,
    now: Timestamp,
    e: ExtensionView,
)
    ensures
        inventory::of_agents(fs, agents, projects, now).contains(e) <==> exists|k: int|
            0 <= k < agents.len() && (#[trigger] agents[k]).detected && has_extension(
                fs,
                agents[k],
                projects,
                now,
                e,
            ),
    decreases agents.len(),
{
    let all = inventory::of_agents(fs, agents, projects, now);
    if agents.len() > 0 {
        let t = agents.drop_last();
        let a = agents.last();
        let before = inventory::of_agents(fs, t, projects, now);
        let here = scanner::agent_exts(fs, a, now);
        let there = inventory::in_projects(fs, a, projects, now);
        installed_agents_are_scanned(fs, t, projects, now, e);
        lists::lemma_sum_contains(before + here, there, e);
        lists::lemma_sum_contains(before, here, e);
        lemma_in_projects(fs, a, projects, now, e);
        if before.contains(e) {
            let k = choose|k: int|
                0 <= k < t.len() && (#[trigger] t[k]).detected && has_extension(
                    fs,
                    t[k],
                    projects,
                    now,
                    e,
                );
            assert(agents[k] == t[k]);
        }
        if a.detected && (here.contains(e) || there.contains(e)) {
            assert(has_extension(fs, agents[agents.len() - 1], projects, now, e));
        }
        if exists|k: int|
            0 <= k < agents.len() && (#[trigger] agents[k]).detected && has_extension(
                fs,
                agents[k],
                projects,
                now,
                e,
            ) {
            let k = choose|k: int|
                0 <= k < agents.len() && (#[trigger] agents[k]).detected && has_extension(
                    fs,
                    agents[k],
                    projects,
                    now,
                    e,
                );
            if k < t.len() {
                assert(t[k] == agents[k]);
            }
        }
    } else {
        assert(!all.contains(e));
    }
}

/// Whether a scan of an agent finds an extension, globally or in a project.
pub open spec fn has_extension(
    fs: FileTreeView,
    a: AgentView,
    projects: Seq<(Seq<char>, Seq<char>)>,
    now: Timestamp,
    e: ExtensionView,
) -> bool {
    scanner::agent_exts(fs, a, now).contains(e) || exists|p: int|
        0 <= p < projects.len() && scanner::project_exts(
            fs,
            a,
            (#[trigger] projects[p]).0,
            projects[p].1,
            now,
        ).contains(e)
}

proof fn lemma_in_projects(
    fs: FileTreeView,
    a: AgentView,
    projects: Seq<(Seq<char>, Seq<char>)>,
    now: Timestamp,
    e: ExtensionView,
)
    ensures
        inventory::in_projects(fs, a, projects, now).contains(e) <==> exists|p: int|
            0 <= p < projects.len() && scanner::project_exts(
                fs,
                a,
                (#[trigger] projects[p]).0,
                projects[p].1,
                now,
            ).contains(e),
    decreases projects.len(),
{
    let all = inventory::in_projects(fs, a, projects, now);
    if projects.len() > 0 {
        let t = projects.drop_last();
        let last = projects.last();
        let before = inventory::in_projects(fs, a, t, now);
        let here = scanner::project_exts(fs, a, last.0, last.1, now);
        lemma_in_projects(fs, a, t, now, e);
        lists::lemma_sum_contains(before, here, e);
        if before.contains(e) {
            let p = choose|p: int|
                0 <= p < t.len() && scanner::project_exts(
                    fs,
                    a,
                    (#[trigger] t[p]).0,
                    t[p].1,
                    now,
                ).contains(e);
            assert(projects[p] == t[p]);
        }
        if here.contains(e) {
            assert(projects[projects.len() - 1] == last);
        }
        if exists|p: int|
            0 <= p < projects.len() && scanner::project_exts(
                fs,
                a,
                (#[trigger] projects[p]).0,
                projects[p].1,
                now,
            ).contains(e) {
            let p = choose|p: int|
                0 <= p < projects.len() && scanner::project_exts(
                    fs,
                    a,
                    (#[trigger] projects[p]).0,
                    projects[p].1,
                    now,
                ).contains(e);
            if p < t.len() {
                assert(t[p] == projects[p]);
            }
        }
    } else {
        assert(!all.contains(e));
    }
}

// ---------------------------------------------------------------------------
// Binaries
// ---------------------------------------------------------------------------

/// Where a binary lies is told by the first line that `which` wrote for it, unless that
/// is blank; else it is a file in one of the directories that may be missing from the
/// search path, if the home directory is known.
pub proof fn binaries_lie_where_which_finds_them(fs: FileTreeView, m: MachineView, name: Seq<char>)
    ensures
        ({
            let r = binaries::binary_path(fs, m, name);
            let lines = match agents::value_of(m.which, name) {
                Some(output) => split::lines_of(output),
                None => Seq::<Seq<char>>::empty(),
            };
            let told = lines.len() > 0 && text::trimmed(lines[0]).len() > 0;
            &&& told ==> r == Some(text::trimmed(lines[0]))
            &&& !told && m.home is None ==> r is None
            &&& !told && m.home is Some ==> r == binaries::file_in_dirs(
                fs,
                m.platform,
                binaries::extra_dirs(m.platform, m.home->0),
                name,
            )
        }),
{
}

/// A file in some directories is the first one with the name; on Windows one that ends
/// in `.exe` counts too, after one that does not.
pub proof fn files_are_found_directory_by_directory(
    fs: FileTreeView,
    platform: Platform,
    dirs: Seq<Seq<char>>,
    name: Seq<char>,
)
    ensures
        ({
            let r = binaries::file_in_dirs(fs, platform, dirs, name);
            if dirs.len() == 0 {
                r is None
            } else {
                let plain = path::extended(dirs[0], name);
                let exe = path::extended(dirs[0], name + ".exe"@);
                let windows = platform == Platform::Windows;
                &&& fs.at(plain).is_file ==> r == Some(plain)
                &&& !fs.at(plain).is_file && windows && fs.at(exe).is_file ==> r == Some(exe)
                &&& !fs.at(plain).is_file && !(windows && fs.at(exe).is_file) ==> r
                    == binaries::file_in_dirs(fs, platform, dirs.drop_first(), name)
            }
        }),
{
}

/// The version of a binary is the first version number in what it wrote: to its
/// standard output, or to its standard error where that is blank.
pub proof fn version_is_the_first_number(
    answers: Seq<VersionAnswerView>,
    p: Seq<char>,
    i: int,
)
    ensures
        0 <= i < answers.len() && answers[i].binary == p && (forall|j: int|
            0 <= j < i ==> (#[trigger] answers[j]).binary != p) ==> {
            let said = if text::trimmed(answers[i].stdout).len() > 0 {
                answers[i].stdout
            } else {
                answers[i].stderr
            };
            let found = permissions::all_groups(r"(\d+\.\d+(?:\.\d+)?)"@, said);
            binaries::version_in(answers, p) == (if found.len() > 0 {
                Some(found[0])
            } else {
                None
            })
        },
        (forall|j: int| 0 <= j < answers.len() ==> (#[trigger] answers[j]).binary != p)
            ==> binaries::version_in(answers, p) is None,
    decreases answers.len(),
{
    if answers.len() > 0 {
        let t = answers.drop_first();
        version_is_the_first_number(t, p, i - 1);
        assert forall|j: int| 0 <= j < t.len() implies #[trigger] t[j] == answers[j + 1] by {}
        if 0 < i < answers.len() && answers[i].binary == p && (forall|j: int|
            0 <= j < i ==> (#[trigger] answers[j]).binary != p) {
            assert(answers[0].binary != p);
            assert(t[i - 1] == answers[i]);
        }
        if forall|j: int| 0 <= j < answers.len() ==> (#[trigger] answers[j]).binary != p {
            assert(answers[0].binary != p);
        }
    }
}

/// Which package manager a binary belongs to shows in its path, whatever its case and
/// its separators: `npm`, else `cargo`, else `pip`, else `brew`.
pub proof fn paths_show_package_managers(p: Seq<char>)
    ensures
        ({
            let r = binaries::method_of(p);
            let npm = split::has_text(p, "/node_modules/"@) || split::has_text(p, "/.npm/"@)
                || split::has_text(p, "/npx/"@);
            let cargo = split::has_text(p, "/.cargo/"@);
            let pip = split::has_text(p, "/pip"@) || split::has_text(p, "/python"@)
                || split::has_text(p, "/site-packages/"@);
            let brew = split::has_text(p, "/homebrew/"@) || split::has_text(p, "/cellar/"@)
                || split::has_text(p, "/linuxbrew/"@);
            &&& r == Some("npm"@) <==> npm
            &&& r == Some("cargo"@) <==> !npm && cargo
            &&& r == Some("pip"@) <==> !npm && !cargo && pip
            &&& r == Some("brew"@) <==> !npm && !cargo && !pip && brew
            &&& r is None <==> !npm && !cargo && !pip && !brew
        }),
{
    reveal_strlit("npm");
    reveal_strlit("cargo");
    reveal_strlit("pip");
    reveal_strlit("brew");
    assert("npm"@[0] == 'n' && "pip"@[0] == 'p');
    assert("npm"@.len() == 3 && "cargo"@.len() == 5 && "pip"@.len() == 3 && "brew"@.len() == 4);
}

/// Credentials lie where their template says: `~` stands for the home directory; on
/// Windows `~/.config` for the directory for configuration files, if there is one; and a
/// template without `~/` stands for itself.
pub proof fn templates_stand_for_paths(rest: Seq<char>, plain: Seq<char>, m: MachineView)
    requires
        !text::has_prefix(plain, "~/"@),
    ensures
        ({
            let home = match m.home {
                Some(h) => h,
                None => Seq::<char>::empty(),
            };
            let in_config = "~/.config/"@ + rest;
            &&& binaries::credential_path(plain, m) == plain
            &&& m.platform != Platform::Windows || m.config_dir is None
                ==> binaries::credential_path("~/"@ + rest, m) == path::extended(home, rest)
            &&& m.platform == Platform::Windows && m.config_dir is Some ==> binaries::credential_path(
                in_config,
                m,
            ) == path::extended(m.config_dir->0, rest)
        }),
{
    reveal_strlit("~/");
    reveal_strlit("~/.config/");
    let a = "~/"@ + rest;
    assert(a.take(2) =~= "~/"@);
    assert(a.skip(2) =~= rest);
    let b = "~/.config/"@ + rest;
    assert(b.take(10) =~= "~/.config/"@);
    assert(b.skip(10) =~= rest);
    if text::has_prefix(plain, "~/.config/"@) {
        assert(plain.take(2) =~= "~/"@) by {
            assert(plain.take(10)[0] == plain[0] && plain.take(10)[1] == plain[1]);
        }
    }
}

/// When Homebrew installed something is what the first receipt says from the directory
/// of the file upwards, over five directories at most.
pub proof fn receipts_tell_when_brew_installed(fs: FileTreeView, dir: Seq<char>, levels: nat)
    ensures
        ({
            let r = binaries::receipt_above(fs, dir, levels);
            let f = fs.at(path::extended(dir, "INSTALL_RECEIPT.json"@));
            let said = match f.content {
                Some(json) => outside::json_int_at(json, "/time"@),
                None => None,
            };
            &&& levels == 0 ==> r is None
            &&& levels > 0 && f.exists ==> (match said {
                Some(t) => if outside::FIRST_SECOND <= t <= outside::LAST_SECOND {
                    r == Some(Timestamp { secs: t, nanos: 0 })
                } else {
                    r is None
                },
                None => r is None,
            })
            &&& levels > 0 && !f.exists ==> (match path::parent_of(dir) {
                Some(up) => r == binaries::receipt_above(fs, up, (levels - 1) as nat),
                None => r is None,
            })
        }),
        ({
            let r = binaries::brew_time(fs, dir);
            match fs.at(dir).canonical {
                None => r is None,
                Some(q) => match path::parent_of(q) {
                    None => r is None,
                    Some(up) => r == binaries::receipt_above(fs, up, 5),
                },
            }
        }),
{
}

// ---------------------------------------------------------------------------
// Links
// ---------------------------------------------------------------------------

proof fn lemma_with_link(
    links: Seq<CliLinkView>,
    tool: Seq<char>,
    ids: Seq<Seq<char>>,
    c: Seq<char>,
    x: Seq<char>,
)
    ensures
        cli::linked(cli::with_link(links, tool, ids), c).contains(x) <==> cli::linked(
            links,
            c,
        ).contains(x) || (c == tool && ids.contains(x)),
    decreases links.len(),
{
    let all = cli::with_link(links, tool, ids);
    assert(all.len() > 0);
    lists::distinct_keeps_each_item_once(ids);
    if links.len() > 0 {
        let rest = links.drop_first();
        if links[0].cli_id == tool {
            assert(all.drop_first() =~= rest);
            assert(all[0].cli_id == tool);
            lemma_with_all_new(links[0].skill_ids, ids, x);
        } else {
            lemma_with_link(rest, tool, ids, c, x);
            assert(all.drop_first() =~= cli::with_link(rest, tool, ids));
            assert(all[0] == links[0]);
        }
    } else {
        assert(all.drop_first() =~= Seq::<CliLinkView>::empty());
        assert(cli::linked(all.drop_first(), c).len() == 0);
        assert(all[0].cli_id == tool);
        assert(!cli::linked(links, c).contains(x));
    }
}

/// Whether a binary is installed, makes up the identifier of a tool, and has a skill.
pub open spec fn brings_skill(
    fs: FileTreeView,
    m: MachineView,
    b: Seq<char>,
    exts: Seq<ExtensionView>,
    tool: Seq<char>,
    x: Seq<char>,
) -> bool {
    &&& binaries::binary_path(fs, m, b) is Some
    &&& ids::cli_id(b) == tool
    &&& exists|j: int|
        0 <= j < exts.len() && (#[trigger] exts[j]).id == x && belongs_to_bin(fs, exts[j], b)
}

/// A tool that is found is linked to exactly the skills that belong to its binary.
pub proof fn skills_are_linked_to_their_tools(
    fs: FileTreeView,
    m: MachineView,
    bins: Seq<Seq<char>>,
    exts: Seq<ExtensionView>,
    now: Timestamp,
    tool: Seq<char>,
    x: Seq<char>,
)
    ensures
        cli::linked(cli::with_bins(fs, m, bins, exts, now).links, tool).contains(x) <==> exists|
            i: int,
        |
            0 <= i < bins.len() && brings_skill(fs, m, #[trigger] bins[i], exts, tool, x),
    decreases bins.len(),
{
    if bins.len() > 0 {
        let t = bins.drop_last();
        let last = bins.last();
        let before = cli::with_bins(fs, m, t, exts, now).links;
        let after = cli::with_bins(fs, m, bins, exts, now).links;
        let ids = cli::ids_for(cli::bin_pairs(fs, exts), last);
        skills_are_linked_to_their_tools(fs, m, t, exts, now, tool, x);
        skills_of_a_binary_belong_to_it(fs, exts, last, x);
        lemma_with_link(before, ids::cli_id(last), ids, tool, x);
        assert(cli::linked(after, tool).contains(x) <==> cli::linked(before, tool).contains(x)
            || brings_skill(fs, m, last, exts, tool, x)) by {
            if ids.len() == 0 {
                assert(!ids.contains(x));
            }
        }
        if cli::linked(before, tool).contains(x) {
            let i = choose|i: int|
                0 <= i < t.len() && brings_skill(fs, m, #[trigger] t[i], exts, tool, x);
            assert(bins[i] == t[i]);
        }
        if brings_skill(fs, m, last, exts, tool, x) {
            assert(bins[bins.len() - 1] == last);
        }
        if exists|i: int| 0 <= i < bins.len() && brings_skill(fs, m, #[trigger] bins[i], exts, tool, x) {
            let i = choose|i: int|
                0 <= i < bins.len() && brings_skill(fs, m, #[trigger] bins[i], exts, tool, x);
            if i < t.len() {
                assert(t[i] == bins[i]);
            }
        }
    } else {
        assert(cli::with_bins(fs, m, bins, exts, now).links.len() == 0);
    }
}

/// A scan says of the tool of each further binary what its own skills say, if it is
/// installed: it may do what the skills of the binary may do, and is described by those
/// that are linked to it. What was found before stays.
pub proof fn each_tool_has_its_skills(
    fs: FileTreeView,
    m: MachineView,
    bins: Seq<Seq<char>>,
    exts: Seq<ExtensionView>,
    now: Timestamp,
)
    requires
        bins.len() > 0,
    ensures
        ({
            let b = bins.last();
            let before = cli::with_bins(fs, m, bins.drop_last(), exts, now);
            let after = cli::with_bins(fs, m, bins, exts, now);
            match binaries::binary_path(fs, m, b) {
                None => after == before,
                Some(at) => exists|ids: Seq<Seq<char>>, children: Seq<Seq<char>>|
                    after.exts == before.exts.push(
                        #[trigger] cli::cli_ext(fs, m, b, at, exts, ids, children, now),
                    ) && (forall|x: Seq<char>| #[trigger]
                        ids.contains(x) <==> exists|j: int|
                            0 <= j < exts.len() && (#[trigger] exts[j]).id == x && belongs_to_bin(
                                fs,
                                exts[j],
                                b,
                            )) && children == cli::linked(after.links, ids::cli_id(b)),
            }
        }),
{
    let b = bins.last();
    if let Some(at) = binaries::binary_path(fs, m, b) {
        let after = cli::with_bins(fs, m, bins, exts, now);
        let ids = cli::ids_for(cli::bin_pairs(fs, exts), b);
        let children = cli::linked(after.links, ids::cli_id(b));
        assert forall|x: Seq<char>| #[trigger] ids.contains(x) <==> exists|j: int|
            0 <= j < exts.len() && (#[trigger] exts[j]).id == x && belongs_to_bin(
                fs,
                exts[j],
                b,
            ) by {
            skills_of_a_binary_belong_to_it(fs, exts, b, x);
        }
        let e = cli::cli_ext(fs, m, b, at, exts, ids, children, now);
    }
}

// ---------------------------------------------------------------------------
// Well-known tools
// ---------------------------------------------------------------------------

/// Whether an entry says of a tool how it is called, which domains it talks to and where
/// its credentials lie.
pub open spec fn says_of_tool(
    k: KnownCliView,
    name: Seq<char>,
    domains: Seq<Seq<char>>,
    credentials: Option<Seq<char>>,
) -> bool {
    k.display_name == name && k.api_domains == domains && k.credentials_path == credentials
        && k.repo_url is None
}

/// Which tools are well known, by their binaries, and what is known of each.
pub proof fn well_known_tools_are_eight(b: Seq<char>)
    ensures
        ({
            let found = binaries::known_in(binaries::known_clis_view(), b);
            let none = Seq::<Seq<char>>::empty();
            &&& found is Some <==> is_known(b)
            &&& is_known(b) <==> b == "wecom-cli"@ || b == "lark-cli"@ || b == "dws"@ || b
                == "meitu"@ || b == "officecli"@ || b == "notion-cli"@ || b == "opencli"@ || b
                == "cli-anything"@
            &&& b == "wecom-cli"@ ==> says_of_tool(
                found->0,
                "WeChat Work CLI"@,
                seq!["qyapi.weixin.qq.com"@],
                Some("~/.config/wecom/bot.enc"@),
            )
            &&& b == "lark-cli"@ ==> says_of_tool(
                found->0,
                "Lark / Feishu CLI"@,
                seq!["open.feishu.cn"@, "open.larksuite.com"@],
                Some("~/.config/lark/credentials"@),
            )
            &&& b == "dws"@ ==> says_of_tool(
                found->0,
                "DingTalk Workspace CLI"@,
                seq!["api.dingtalk.com"@],
                Some("~/.config/dws/auth.json"@),
            )
            &&& b == "meitu"@ ==> says_of_tool(
                found->0,
                "Meitu CLI"@,
                seq!["openapi.mtlab.meitu.com"@],
                Some("~/.meitu/credentials.json"@),
            )
            &&& b == "officecli"@ ==> says_of_tool(found->0, "OfficeCLI"@, none, None)
            &&& b == "notion-cli"@ ==> says_of_tool(
                found->0,
                "Notion CLI"@,
                seq!["mcp.notion.com"@],
                Some("~/.config/notion-cli/token.json"@),
            )
            &&& b == "opencli"@ ==> says_of_tool(found->0, "OpenCLI"@, none, None)
            &&& b == "cli-anything"@ ==> says_of_tool(found->0, "CLI-Anything"@, none, None)
        }),
{
    let list = binaries::known_clis_view();
    reveal_strlit("wecom-cli");
    reveal_strlit("lark-cli");
    reveal_strlit("dws");
    reveal_strlit("meitu");
    reveal_strlit("officecli");
    reveal_strlit("notion-cli");
    reveal_strlit("opencli");
    reveal_strlit("cli-anything");
    assert("wecom-cli"@[0] == 'w' && "officecli"@[0] == 'o');
    assert(list[0].binary_name == "wecom-cli"@);
    assert(list[1].binary_name == "lark-cli"@);
    assert(list[2].binary_name == "dws"@);
    assert(list[3].binary_name == "meitu"@);
    assert(list[4].binary_name == "officecli"@);
    assert(list[5].binary_name == "notion-cli"@);
    assert(list[6].binary_name == "opencli"@);
    assert(list[7].binary_name == "cli-anything"@);
    lemma_known_in(list, b);
    if let Some(k) = binaries::known_in(list, b) {
        let i = choose|i: int| 0 <= i < list.len() && list[i] == k;
        assert(list[i].binary_name == b);
    }
}

} // verus!
