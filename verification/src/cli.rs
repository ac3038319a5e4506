//! Command line tools as extensions, with the skills and servers that belong to
//! them.

use vstd::prelude::*;

use crate::binaries;
use crate::binaries::{KnownCli, KnownCliView, Machine, MachineView};
use crate::files::{FileTree, FileTreeView};
use crate::frontmatter;
use crate::ids;
use crate::lists;
use crate::models;
use crate::models::{
    CliMeta, CliMetaView, ConfigScope, ConfigScopeView, Extension, ExtensionKind, ExtensionView,
    Permission, PermissionView, Source, SourceOrigin, SourceView, Timestamp,
};
use crate::pack;
use crate::permissions;
use crate::plugins;
use crate::skills;
use crate::text;

verus! {

// ---------------------------------------------------------------------------
// Which skills need which binaries
// ---------------------------------------------------------------------------

/// The binaries that a skill requires, by its text.
pub open spec fn bins_of(fs: FileTreeView, e: ExtensionView) -> Seq<Seq<char>> {
    let none = Seq::<Seq<char>>::empty();
    if e.kind != ExtensionKind::Skill {
        none
    } else {
        match e.source_path {
            None => none,
            Some(p) => match fs.at(p).content {
                None => none,
                Some(c) => match frontmatter::frontmatter_of(c) {
                    None => none,
                    Some(f) => f.2,
                },
            },
        }
    }
}

/// Binaries, each with the identifier of the skill that requires it.
pub open spec fn required_pairs(fs: FileTreeView, exts: Seq<ExtensionView>) -> Seq<
    (Seq<char>, Seq<char>),
>
    decreases exts.len(),
{
    if exts.len() == 0 {
        Seq::<(Seq<char>, Seq<char>)>::empty()
    } else {
        required_pairs(fs, exts.drop_last()) + bins_of(fs, exts.last()).map_values(
            |b: Seq<char>| (b, exts.last().id),
        )
    }
}

/// Well-known binaries, each with the identifier of a skill that bears its name.
pub open spec fn named_pairs(exts: Seq<ExtensionView>) -> Seq<(Seq<char>, Seq<char>)>
    decreases exts.len(),
{
    if exts.len() == 0 {
        Seq::<(Seq<char>, Seq<char>)>::empty()
    } else {
        let before = named_pairs(exts.drop_last());
        let e = exts.last();
        if e.kind == ExtensionKind::Skill && binaries::known_in(
            binaries::known_clis_view(),
            e.name,
        ) is Some {
            before.push((e.name, e.id))
        } else {
            before
        }
    }
}

/// The binaries with the skills that belong to them.
pub open spec fn bin_pairs(fs: FileTreeView, exts: Seq<ExtensionView>) -> Seq<
    (Seq<char>, Seq<char>),
> {
    required_pairs(fs, exts) + named_pairs(exts)
}

/// The skills that belong to a binary.
pub open spec fn ids_for(pairs: Seq<(Seq<char>, Seq<char>)>, bin: Seq<char>) -> Seq<Seq<char>>
    decreases pairs.len(),
{
    if pairs.len() == 0 {
        Seq::<Seq<char>>::empty()
    } else if pairs.last().0 == bin {
        ids_for(pairs.drop_last(), bin).push(pairs.last().1)
    } else {
        ids_for(pairs.drop_last(), bin)
    }
}

/// The binaries that may be installed: those that skills require, and the
/// well-known ones.
pub open spec fn candidate_bins(fs: FileTreeView, exts: Seq<ExtensionView>) -> Seq<Seq<char>> {
    lists::distinct(
        required_pairs(fs, exts).map_values(|p: (Seq<char>, Seq<char>)| p.0)
            + binaries::known_clis_view().map_values(|k: KnownCliView| k.binary_name),
    )
}

fn push_pair(v: &mut Vec<(String, String)>, a: &str, b: &str)
    ensures
        models::pairs_view(final(v)@) == models::pairs_view(old(v)@).push((a@, b@)),
{
    v.push((a.to_owned(), b.to_owned()));
    assert(models::pairs_view(v@) =~= models::pairs_view(old(v)@).push((a@, b@)));
}

fn required_bins(fs: &FileTree, e: &Extension) -> (r: Vec<String>)
    ensures
        text::strs(r@) == bins_of(fs@, e@),
{
    if e.kind != ExtensionKind::Skill {
        return text::no_strings();
    }
    match &e.source_path {
        None => text::no_strings(),
        Some(p) => match fs.read(p) {
            None => text::no_strings(),
            Some(c) => match frontmatter::parse_skill_frontmatter(&c) {
                None => text::no_strings(),
                Some((_, _, bins)) => bins,
            },
        },
    }
}

fn find_required_pairs(fs: &FileTree, exts: &Vec<Extension>) -> (r: Vec<(String, String)>)
    ensures
        models::pairs_view(r@) == required_pairs(fs@, models::list_view(exts@)),
{
    let mut out: Vec<(String, String)> = Vec::new();
    let ghost all = models::list_view(exts@);
    let mut i: usize = 0;
    assert(all.take(0) =~= Seq::<ExtensionView>::empty());
    assert(models::pairs_view(out@) =~= required_pairs(fs@, all.take(0)));
    while i < exts.len()
        invariant
            all == models::list_view(exts@),
            i <= exts.len(),
            models::pairs_view(out@) == required_pairs(fs@, all.take(i as int)),
        decreases exts.len() - i,
    {
        assert(all.take(i + 1).drop_last() =~= all.take(i as int));
        assert(all.take(i + 1).last() == exts@[i as int]@);
        let bins = required_bins(fs, &exts[i]);
        let ghost before = models::pairs_view(out@);
        let ghost id = exts@[i as int]@.id;
        let ghost here = text::strs(bins@).map_values(|b: Seq<char>| (b, id));
        let mut j: usize = 0;
        assert(models::pairs_view(out@) =~= before + here.take(0));
        while j < bins.len()
            invariant
                i < exts.len(),
                id == exts@[i as int]@.id,
                here == text::strs(bins@).map_values(|b: Seq<char>| (b, id)),
                j <= bins.len(),
                models::pairs_view(out@) == before + here.take(j as int),
            decreases bins.len() - j,
        {
            push_pair(&mut out, &bins[j], &exts[i].id);
            assert(here[j as int] == (bins@[j as int]@, id));
            assert(before + here.take(j + 1) =~= (before + here.take(j as int)).push(
                here[j as int],
            ));
            j += 1;
        }
        assert(here.take(j as int) =~= here);
        assert(here =~= bins_of(fs@, all.take(i + 1).last()).map_values(
            |b: Seq<char>| (b, all.take(i + 1).last().id),
        ));
        i += 1;
    }
    assert(all.take(i as int) =~= all);
    out
}

fn add_named_pairs(out: &mut Vec<(String, String)>, exts: &Vec<Extension>, known: &Vec<KnownCli>)
    requires
        models::list_view(known@) == binaries::known_clis_view(),
    ensures
        models::pairs_view(final(out)@) == models::pairs_view(old(out)@) + named_pairs(
            models::list_view(exts@),
        ),
{
    let ghost all = models::list_view(exts@);
    let mut i: usize = 0;
    assert(all.take(0) =~= Seq::<ExtensionView>::empty());
    assert(models::pairs_view(out@) =~= models::pairs_view(old(out)@) + named_pairs(all.take(0)));
    while i < exts.len()
        invariant
            models::list_view(known@) == binaries::known_clis_view(),
            all == models::list_view(exts@),
            i <= exts.len(),
            models::pairs_view(out@) == models::pairs_view(old(out)@) + named_pairs(
                all.take(i as int),
            ),
        decreases exts.len() - i,
    {
        assert(all.take(i + 1).drop_last() =~= all.take(i as int));
        assert(all.take(i + 1).last() == exts@[i as int]@);
        if exts[i].kind == ExtensionKind::Skill && binaries::find_known(
            known,
            &exts[i].name,
        ).is_some() {
            push_pair(out, &exts[i].name, &exts[i].id);
        }
        assert(models::pairs_view(out@) =~= models::pairs_view(old(out)@) + named_pairs(
            all.take(i + 1),
        ));
        i += 1;
    }
    assert(all.take(i as int) =~= all);
}

fn find_ids_for(pairs: &Vec<(String, String)>, bin: &str) -> (r: Vec<String>)
    ensures
        text::strs(r@) == ids_for(models::pairs_view(pairs@), bin@),
{
    let mut out = text::no_strings();
    let ghost all = models::pairs_view(pairs@);
    let mut i: usize = 0;
    assert(all.take(0) =~= Seq::<(Seq<char>, Seq<char>)>::empty());
    while i < pairs.len()
        invariant
            all == models::pairs_view(pairs@),
            i <= pairs.len(),
            text::strs(out@) == ids_for(all.take(i as int), bin@),
        decreases pairs.len() - i,
    {
        assert(all.take(i + 1).drop_last() =~= all.take(i as int));
        assert(all.take(i + 1).last() == (pairs@[i as int].0@, pairs@[i as int].1@));
        let ghost before = text::strs(out@);
        if text::str_eq(&pairs[i].0, bin) {
            out.push(pairs[i].1.clone());
            assert(text::strs(out@) =~= before.push(pairs@[i as int].1@));
        }
        i += 1;
    }
    assert(all.take(i as int) =~= all);
    out
}

/// The binaries that may be installed: those that skills require, and the
/// well-known ones.
pub fn cli_candidates(fs: &FileTree, exts: &Vec<Extension>) -> (r: Vec<String>)
    ensures
        text::strs(r@) == candidate_bins(fs@, models::list_view(exts@)),
{
    let pairs = find_required_pairs(fs, exts);
    let known = binaries::known_clis();
    let ghost firsts = models::pairs_view(pairs@).map_values(|p: (Seq<char>, Seq<char>)| p.0);
    let ghost names = binaries::known_clis_view().map_values(|k: KnownCliView| k.binary_name);
    let mut all: Vec<String> = Vec::new();
    let mut i: usize = 0;
    while i < pairs.len()
        invariant
            i <= pairs.len(),
            all.len() == i,
            forall|j: int| 0 <= j < i ==> (#[trigger] all@[j])@ == pairs@[j].0@,
        decreases pairs.len() - i,
    {
        all.push(pairs[i].0.clone());
        i += 1;
    }
    assert(text::strs(all@) =~= firsts);
    let mut k: usize = 0;
    assert(text::strs(all@) =~= firsts + names.take(0));
    while k < known.len()
        invariant
            models::list_view(known@) == binaries::known_clis_view(),
            names == binaries::known_clis_view().map_values(|k: KnownCliView| k.binary_name),
            k <= known.len(),
            text::strs(all@) == firsts + names.take(k as int),
        decreases known.len() - k,
    {
        assert(binaries::known_clis_view()[k as int] == known@[k as int]@);
        let ghost before = text::strs(all@);
        all.push(known[k].binary_name.clone());
        assert(text::strs(all@) =~= before.push(names[k as int]));
        assert(text::strs(all@) =~= firsts + names.take(k + 1));
        k += 1;
    }
    assert(models::list_view(known@).len() == known@.len());
    assert(names.take(k as int) =~= names);
    lists::dedup(&all)
}

// ---------------------------------------------------------------------------
// What belongs to a tool
// ---------------------------------------------------------------------------

/// Permissions with those of the extensions merged in whose identifiers are
/// given.
pub open spec fn with_children(
    perms: Seq<PermissionView>,
    exts: Seq<ExtensionView>,
    ids: Seq<Seq<char>>,
) -> Seq<PermissionView>
    decreases exts.len(),
{
    if exts.len() == 0 {
        perms
    } else {
        let before = with_children(perms, exts.drop_last(), ids);
        if ids.contains(exts.last().id) {
            permissions::with_permissions(before, exts.last().permissions)
        } else {
            before
        }
    }
}

/// Whether a list of permissions names a command.
pub open spec fn runs(perms: Seq<PermissionView>, command: Seq<char>) -> bool {
    exists|i: int|
        0 <= i < perms.len() && match #[trigger] perms[i] {
            PermissionView::Shell { commands } => commands.contains(command),
            _ => false,
        }
}

/// Whether a server belongs to a tool: it bears the name of the binary, or runs
/// it.
pub open spec fn is_server_of(e: ExtensionView, bin: Seq<char>) -> bool {
    e.kind == ExtensionKind::Mcp && (e.name == bin || runs(e.permissions, bin))
}

/// Permissions with those of the servers of a tool merged in.
pub open spec fn with_servers(
    perms: Seq<PermissionView>,
    exts: Seq<ExtensionView>,
    bin: Seq<char>,
) -> Seq<PermissionView>
    decreases exts.len(),
{
    if exts.len() == 0 {
        perms
    } else {
        let before = with_servers(perms, exts.drop_last(), bin);
        if is_server_of(exts.last(), bin) {
            permissions::with_permissions(before, exts.last().permissions)
        } else {
            before
        }
    }
}

/// The agents of the extensions whose identifiers are given.
pub open spec fn agents_of(exts: Seq<ExtensionView>, ids: Seq<Seq<char>>) -> Seq<Seq<char>>
    decreases exts.len(),
{
    if exts.len() == 0 {
        Seq::<Seq<char>>::empty()
    } else {
        let before = agents_of(exts.drop_last(), ids);
        if ids.contains(exts.last().id) {
            lists::with_all_new(before, exts.last().agents)
        } else {
            before
        }
    }
}

/// The first description among the extensions whose identifiers are given.
pub open spec fn description_of(exts: Seq<ExtensionView>, ids: Seq<Seq<char>>) -> Option<Seq<char>>
    decreases exts.len(),
{
    if exts.len() == 0 {
        None
    } else if ids.contains(exts[0].id) && exts[0].description.len() > 0 {
        Some(exts[0].description)
    } else {
        description_of(exts.drop_first(), ids)
    }
}

fn merge_children(perms: &mut Vec<Permission>, exts: &Vec<Extension>, ids: &Vec<String>)
    ensures
        models::list_view(final(perms)@) == with_children(
            models::list_view(old(perms)@),
            models::list_view(exts@),
            text::strs(ids@),
        ),
{
    let ghost all = models::list_view(exts@);
    let mut i: usize = 0;
    assert(all.take(0) =~= Seq::<ExtensionView>::empty());
    while i < exts.len()
        invariant
            all == models::list_view(exts@),
            i <= exts.len(),
            models::list_view(perms@) == with_children(
                models::list_view(old(perms)@),
                all.take(i as int),
                text::strs(ids@),
            ),
        decreases exts.len() - i,
    {
        assert(all.take(i + 1).drop_last() =~= all.take(i as int));
        assert(all.take(i + 1).last() == exts@[i as int]@);
        if text::list_has(ids, &exts[i].id) {
            permissions::merge_permissions(perms, &exts[i].permissions);
        }
        i += 1;
    }
    assert(all.take(i as int) =~= all);
}

/// Whether a list of permissions names a command.
pub fn names_command(perms: &Vec<Permission>, command: &str) -> (r: bool)
    ensures
        r == runs(models::list_view(perms@), command@),
{
    let ghost v = models::list_view(perms@);
    let mut i: usize = 0;
    while i < perms.len()
        invariant
            v == models::list_view(perms@),
            i <= perms.len(),
            forall|j: int|
                0 <= j < i ==> !(match #[trigger] v[j] {
                    PermissionView::Shell { commands } => commands.contains(command@),
                    _ => false,
                }),
        decreases perms.len() - i,
    {
        assert(v[i as int] == perms@[i as int]@);
        if let Permission::Shell { commands } = &perms[i] {
            if text::list_has(commands, command) {
                assert(v[i as int] is Shell);
                return true;
            }
        }
        i += 1;
    }
    false
}

fn merge_servers(perms: &mut Vec<Permission>, exts: &Vec<Extension>, bin: &str)
    ensures
        models::list_view(final(perms)@) == with_servers(
            models::list_view(old(perms)@),
            models::list_view(exts@),
            bin@,
        ),
{
    let ghost all = models::list_view(exts@);
    let mut i: usize = 0;
    assert(all.take(0) =~= Seq::<ExtensionView>::empty());
    while i < exts.len()
        invariant
            all == models::list_view(exts@),
            i <= exts.len(),
            models::list_view(perms@) == with_servers(
                models::list_view(old(perms)@),
                all.take(i as int),
                bin@,
            ),
        decreases exts.len() - i,
    {
        assert(all.take(i + 1).drop_last() =~= all.take(i as int));
        assert(all.take(i + 1).last() == exts@[i as int]@);
        if exts[i].kind == ExtensionKind::Mcp && (text::str_eq(&exts[i].name, bin)
            || names_command(&exts[i].permissions, bin)) {
            permissions::merge_permissions(perms, &exts[i].permissions);
        }
        i += 1;
    }
    assert(all.take(i as int) =~= all);
}

fn find_agents(exts: &Vec<Extension>, ids: &Vec<String>) -> (r: Vec<String>)
    ensures
        text::strs(r@) == agents_of(models::list_view(exts@), text::strs(ids@)),
{
    let mut out = text::no_strings();
    let ghost all = models::list_view(exts@);
    let mut i: usize = 0;
    assert(all.take(0) =~= Seq::<ExtensionView>::empty());
    while i < exts.len()
        invariant
            all == models::list_view(exts@),
            i <= exts.len(),
            text::strs(out@) == agents_of(all.take(i as int), text::strs(ids@)),
        decreases exts.len() - i,
    {
        assert(all.take(i + 1).drop_last() =~= all.take(i as int));
        assert(all.take(i + 1).last() == exts@[i as int]@);
        if text::list_has(ids, &exts[i].id) {
            lists::push_all_new(&mut out, &exts[i].agents);
        }
        i += 1;
    }
    assert(all.take(i as int) =~= all);
    out
}

fn find_description(exts: &Vec<Extension>, ids: &Vec<String>) -> (r: Option<String>)
    ensures
        text::ostr(r) == description_of(models::list_view(exts@), text::strs(ids@)),
{
    let ghost all = models::list_view(exts@);
    let mut i: usize = 0;
    assert(all.skip(0) =~= all);
    while i < exts.len()
        invariant
            all == models::list_view(exts@),
            i <= exts.len(),
            description_of(all.skip(i as int), text::strs(ids@)) == description_of(
                all,
                text::strs(ids@),
            ),
        decreases exts.len() - i,
    {
        assert(all.skip(i as int)[0] == exts@[i as int]@);
        assert(all.skip(i as int).drop_first() =~= all.skip(i + 1));
        if text::list_has(ids, &exts[i].id) && !exts[i].description.as_str().is_empty() {
            return Some(exts[i].description.clone());
        }
        i += 1;
    }
    None
}

// ---------------------------------------------------------------------------
// Links from tools to skills
// ---------------------------------------------------------------------------

/// The skills that belong to a tool.
pub struct CliLink {
    /// The identifier of the tool.
    pub cli_id: String,
    /// The identifiers of its skills, none twice.
    pub skill_ids: Vec<String>,
}

/// The mathematical value of a [`CliLink`].
#[verifier::ext_equal]
pub struct CliLinkView {
    pub cli_id: Seq<char>,
    pub skill_ids: Seq<Seq<char>>,
}

impl View for CliLink {
    type V = CliLinkView;

    open spec fn view(&self) -> CliLinkView {
        CliLinkView { cli_id: self.cli_id@, skill_ids: text::strs(self.skill_ids@) }
    }
}

/// The skills that are linked to a tool.
pub open spec fn linked(links: Seq<CliLinkView>, cli_id: Seq<char>) -> Seq<Seq<char>>
    decreases links.len(),
{
    if links.len() == 0 {
        Seq::<Seq<char>>::empty()
    } else if links[0].cli_id == cli_id {
        links[0].skill_ids
    } else {
        linked(links.drop_first(), cli_id)
    }
}

/// Links with further skills of a tool, none twice.
pub open spec fn with_link(
    links: Seq<CliLinkView>,
    cli_id: Seq<char>,
    ids: Seq<Seq<char>>,
) -> Seq<CliLinkView>
    decreases links.len(),
{
    if links.len() == 0 {
        seq![CliLinkView { cli_id, skill_ids: lists::distinct(ids) }]
    } else if links[0].cli_id == cli_id {
        seq![
            CliLinkView { cli_id, skill_ids: lists::with_all_new(links[0].skill_ids, ids) },
        ] + links.drop_first()
    } else {
        seq![links[0]] + with_link(links.drop_first(), cli_id, ids)
    }
}

fn find_linked(links: &Vec<CliLink>, cli_id: &str) -> (r: Vec<String>)
    ensures
        text::strs(r@) == linked(models::list_view(links@), cli_id@),
{
    let ghost v = models::list_view(links@);
    let mut i: usize = 0;
    assert(v.skip(0) =~= v);
    while i < links.len()
        invariant
            v == models::list_view(links@),
            i <= links.len(),
            linked(v.skip(i as int), cli_id@) == linked(v, cli_id@),
        decreases links.len() - i,
    {
        assert(v.skip(i as int)[0] == links@[i as int]@);
        assert(v.skip(i as int).drop_first() =~= v.skip(i + 1));
        if text::str_eq(&links[i].cli_id, cli_id) {
            return text::clone_strings(&links[i].skill_ids);
        }
        i += 1;
    }
    text::no_strings()
}

fn add_link(links: &mut Vec<CliLink>, cli_id: &str, ids: &Vec<String>)
    ensures
        models::list_view(final(links)@) == with_link(
            models::list_view(old(links)@),
            cli_id@,
            text::strs(ids@),
        ),
{
    let ghost v = models::list_view(links@);
    let ghost idv = text::strs(ids@);
    let mut i: usize = 0;
    assert(v.skip(0) =~= v);
    assert(v.take(0) + with_link(v.skip(0), cli_id@, idv) =~= with_link(v, cli_id@, idv));
    while i < links.len()
        invariant
            links@ == old(links)@,
            v == models::list_view(links@),
            idv == text::strs(ids@),
            i <= links.len(),
            v.take(i as int) + with_link(v.skip(i as int), cli_id@, idv) == with_link(
                v,
                cli_id@,
                idv,
            ),
        decreases links.len() - i,
    {
        assert(v[i as int] == links@[i as int]@);
        assert(v.skip(i as int).drop_first() =~= v.skip(i + 1));
        if text::str_eq(&links[i].cli_id, cli_id) {
            let mut all = text::clone_strings(&links[i].skill_ids);
            lists::push_all_new(&mut all, ids);
            let m = CliLink { cli_id: cli_id.to_owned(), skill_ids: all };
            let ghost mv = m@;
            links.set(i, m);
            assert(models::list_view(links@) =~= v.take(i as int) + (seq![mv] + v.skip(i + 1)));
            return;
        }
        assert(v.take(i + 1) + with_link(v.skip(i + 1), cli_id@, idv) =~= v.take(i as int) + (
        seq![v[i as int]] + with_link(v.skip(i + 1), cli_id@, idv)));
        i += 1;
    }
    let m = CliLink { cli_id: cli_id.to_owned(), skill_ids: lists::dedup(ids) };
    let ghost mv = m@;
    links.push(m);
    assert(models::list_view(links@) =~= v.take(i as int) + seq![mv]);
}

// ---------------------------------------------------------------------------
// One tool
// ---------------------------------------------------------------------------

/// What is known of the binary of a tool.
pub open spec fn cli_meta(m: MachineView, bin: Seq<char>, at: Seq<char>) -> CliMetaView {
    let known = binaries::known_in(binaries::known_clis_view(), bin);
    CliMetaView {
        binary_name: bin,
        binary_path: Some(at),
        install_method: binaries::method_of(binaries::normalized(at)),
        credentials_path: match known {
            Some(k) => match k.credentials_path {
                Some(t) => Some(binaries::credential_path(t, m)),
                None => None,
            },
            None => None,
        },
        version: binaries::version_in(m.versions, at),
        api_domains: match known {
            Some(k) => k.api_domains,
            None => Seq::<Seq<char>>::empty(),
        },
    }
}

/// What a tool may do by itself: talk to its domains, read its credentials, run.
pub open spec fn own_perms(meta: CliMetaView) -> Seq<PermissionView> {
    (if meta.api_domains.len() == 0 {
        Seq::<PermissionView>::empty()
    } else {
        seq![PermissionView::Network { domains: meta.api_domains }]
    }) + (match meta.credentials_path {
        None => Seq::<PermissionView>::empty(),
        Some(p) => seq![PermissionView::FileSystem { paths: seq![p] }],
    }) + seq![PermissionView::Shell { commands: seq![meta.binary_name] }]
}

/// What a tool may do, with its skills and servers. Access to files is always
/// listed.
pub open spec fn cli_perms(
    meta: CliMetaView,
    exts: Seq<ExtensionView>,
    ids: Seq<Seq<char>>,
) -> Seq<PermissionView> {
    plugins::with_files(
        with_servers(with_children(own_perms(meta), exts, ids), exts, meta.binary_name),
    )
}

/// The name of a tool for display.
pub open spec fn display_name(bin: Seq<char>) -> Seq<char> {
    match binaries::known_in(binaries::known_clis_view(), bin) {
        Some(k) => k.display_name,
        None => bin,
    }
}

/// What a tool does, in words: what the first of its skills with a description
/// says, else its name and version.
pub open spec fn cli_description(
    display: Seq<char>,
    from_skill: Option<Seq<char>>,
    version: Option<Seq<char>>,
) -> Seq<char> {
    match from_skill {
        Some(d) => d,
        None => match version {
            Some(v) => display + " v"@ + v,
            None => display + " (installed)"@,
        },
    }
}

/// The tool with the binary `bin` that lies at `at`: given the identifiers of
/// the skills that belong to the binary, and of those linked to the tool.
pub open spec fn cli_ext(
    fs: FileTreeView,
    m: MachineView,
    bin: Seq<char>,
    at: Seq<char>,
    exts: Seq<ExtensionView>,
    ids: Seq<Seq<char>>,
    children: Seq<Seq<char>>,
    now: Timestamp,
) -> ExtensionView {
    let meta = cli_meta(m, bin, at);
    let repo = match binaries::known_in(binaries::known_clis_view(), bin) {
        Some(k) => k.repo_url,
        None => None,
    };
    let times = binaries::cli_times(fs, Some(at), meta.install_method, now);
    ExtensionView {
        id: ids::cli_id(bin),
        kind: ExtensionKind::Cli,
        name: display_name(bin),
        description: cli_description(
            display_name(bin),
            description_of(exts, children),
            meta.version,
        ),
        source: SourceView {
            origin: SourceOrigin::Local,
            url: repo,
            version: meta.version,
            commit_hash: None,
            from_manifest: false,
        },
        agents: agents_of(exts, children),
        tags: Seq::<Seq<char>>::empty(),
        pack: skills::pack_of_url(repo),
        permissions: cli_perms(meta, exts, ids),
        enabled: true,
        trust_score: None,
        installed_at: times.0,
        updated_at: times.1,
        source_path: Some(at),
        cli_parent_id: None,
        cli_meta: Some(meta),
        install_meta: None,
        scope: ConfigScopeView::Global,
    }
}

fn make_cli_meta(m: &Machine, known: &Vec<KnownCli>, bin: &str, at: &str) -> (r: CliMeta)
    requires
        models::list_view(known@) == binaries::known_clis_view(),
    ensures
        r@ == cli_meta(m@, bin@, at@),
{
    let (credentials_path, api_domains) = match binaries::find_known(known, bin) {
        Some(k) => {
            let c = match &known[k].credentials_path {
                Some(t) => Some(binaries::resolve_credential_path(t, m)),
                None => None,
            };
            (c, text::clone_strings(&known[k].api_domains))
        },
        None => (None, text::no_strings()),
    };
    CliMeta {
        binary_name: bin.to_owned(),
        binary_path: Some(at.to_owned()),
        install_method: binaries::detect_install_method(at),
        credentials_path,
        version: binaries::get_binary_version(m, at),
        api_domains,
    }
}

fn own_permissions(meta: &CliMeta) -> (r: Vec<Permission>)
    ensures
        models::list_view(r@) == own_perms(meta@),
{
    let mut perms: Vec<Permission> = Vec::new();
    assert(models::list_view(perms@) =~= Seq::<PermissionView>::empty());
    if meta.api_domains.len() > 0 {
        plugins::push_permission(
            &mut perms,
            Permission::Network { domains: text::clone_strings(&meta.api_domains) },
        );
    }
    if let Some(p) = &meta.credentials_path {
        plugins::push_permission(
            &mut perms,
            Permission::FileSystem { paths: text::one(p.clone()) },
        );
    }
    plugins::push_permission(
        &mut perms,
        Permission::Shell { commands: text::one(meta.binary_name.clone()) },
    );
    assert(models::list_view(perms@) =~= own_perms(meta@));
    perms
}

fn make_cli(
    fs: &FileTree,
    m: &Machine,
    known: &Vec<KnownCli>,
    bin: &str,
    at: &str,
    exts: &Vec<Extension>,
    skill_ids: &Vec<String>,
    children: &Vec<String>,
    now: Timestamp,
) -> (r: Extension)
    requires
        models::list_view(known@) == binaries::known_clis_view(),
    ensures
        r@ == cli_ext(
            fs@,
            m@,
            bin@,
            at@,
            models::list_view(exts@),
            text::strs(skill_ids@),
            text::strs(children@),
            now,
        ),
{
    let meta = make_cli_meta(m, known, bin, at);
    let (display, repo) = match binaries::find_known(known, bin) {
        Some(k) => (known[k].display_name.clone(), text::clone_opt(&known[k].repo_url)),
        None => (bin.to_owned(), None),
    };
    let mut perms = own_permissions(&meta);
    merge_children(&mut perms, exts, skill_ids);
    merge_servers(&mut perms, exts, bin);
    if !plugins::lists_files(&perms) {
        plugins::push_permission(
            &mut perms,
            Permission::FileSystem { paths: text::no_strings() },
        );
    }
    let description = match find_description(exts, children) {
        Some(d) => d,
        None => match &meta.version {
            Some(v) => text::cat3(&display, " v", v),
            None => text::cat2(&display, " (installed)"),
        },
    };
    let found_pack = match &repo {
        Some(u) => pack::extract_pack_from_url(u),
        None => None,
    };
    let place = Some(at.to_owned());
    let (installed_at, updated_at) = binaries::cli_timestamps(
        fs,
        &place,
        &meta.install_method,
        now,
    );
    Extension {
        id: ids::cli_stable_id_for(bin),
        kind: ExtensionKind::Cli,
        name: display,
        description,
        source: Source {
            origin: SourceOrigin::Local,
            url: repo,
            version: text::clone_opt(&meta.version),
            commit_hash: None,
            from_manifest: false,
        },
        agents: find_agents(exts, children),
        tags: text::no_strings(),
        pack: found_pack,
        permissions: perms,
        enabled: true,
        trust_score: None,
        installed_at,
        updated_at,
        source_path: place,
        cli_parent_id: None,
        cli_meta: Some(meta),
        install_meta: None,
        scope: ConfigScope::Global,
    }
}

// ---------------------------------------------------------------------------
// All tools
// ---------------------------------------------------------------------------

/// The tools that were found so far, and the links to their skills.
pub struct CliScan {
    /// The tools.
    pub exts: Vec<Extension>,
    /// The skills of each tool that has any.
    pub links: Vec<CliLink>,
}

/// The mathematical value of a [`CliScan`].
#[verifier::ext_equal]
pub struct CliScanView {
    pub exts: Seq<ExtensionView>,
    pub links: Seq<CliLinkView>,
}

impl View for CliScan {
    type V = CliScanView;

    open spec fn view(&self) -> CliScanView {
        CliScanView {
            exts: models::list_view(self.exts@),
            links: models::list_view(self.links@),
        }
    }
}

/// What is found after one more binary was looked for: nothing new where it is
/// not installed.
pub open spec fn with_bin(
    fs: FileTreeView,
    m: MachineView,
    scan: CliScanView,
    bin: Seq<char>,
    exts: Seq<ExtensionView>,
    now: Timestamp,
) -> CliScanView {
    match binaries::binary_path(fs, m, bin) {
        None => scan,
        Some(at) => {
            let ids = ids_for(bin_pairs(fs, exts), bin);
            let links = if ids.len() == 0 {
                scan.links
            } else {
                with_link(scan.links, ids::cli_id(bin), ids)
            };
            CliScanView {
                exts: scan.exts.push(
                    cli_ext(fs, m, bin, at, exts, ids, linked(links, ids::cli_id(bin)), now),
                ),
                links,
            }
        },
    }
}

/// What is found for some binaries.
pub open spec fn with_bins(
    fs: FileTreeView,
    m: MachineView,
    bins: Seq<Seq<char>>,
    exts: Seq<ExtensionView>,
    now: Timestamp,
) -> CliScanView
    decreases bins.len(),
{
    if bins.len() == 0 {
        CliScanView {
            exts: Seq::<ExtensionView>::empty(),
            links: Seq::<CliLinkView>::empty(),
        }
    } else {
        with_bin(fs, m, with_bins(fs, m, bins.drop_last(), exts, now), bins.last(), exts, now)
    }
}

/// The tools that are installed, of those that skills require and of the
/// well-known ones, and the links to their skills.
pub open spec fn cli_scan(
    fs: FileTreeView,
    m: MachineView,
    exts: Seq<ExtensionView>,
    now: Timestamp,
) -> CliScanView {
    with_bins(fs, m, candidate_bins(fs, exts), exts, now)
}

/// The tools that are installed, of those that skills require and of the
/// well-known ones, and the links to their skills.
pub fn scan_cli_binaries(
    fs: &FileTree,
    m: &Machine,
    existing: &Vec<Extension>,
    now: Timestamp,
) -> (r: CliScan)
    ensures
        r@ == cli_scan(fs@, m@, models::list_view(existing@), now),
{
    let known = binaries::known_clis();
    let mut pairs = find_required_pairs(fs, existing);
    add_named_pairs(&mut pairs, existing, &known);
    let bins = cli_candidates(fs, existing);
    let ghost all = text::strs(bins@);
    let ghost exts = models::list_view(existing@);
    let mut scan = CliScan { exts: Vec::new(), links: Vec::new() };
    let mut i: usize = 0;
    assert(all.take(0) =~= Seq::<Seq<char>>::empty());
    assert(scan@ =~= with_bins(fs@, m@, all.take(0), exts, now));
    while i < bins.len()
        invariant
            models::list_view(known@) == binaries::known_clis_view(),
            all == text::strs(bins@),
            exts == models::list_view(existing@),
            models::pairs_view(pairs@) == bin_pairs(fs@, exts),
            i <= bins.len(),
            scan@ == with_bins(fs@, m@, all.take(i as int), exts, now),
        decreases bins.len() - i,
    {
        assert(all.take(i + 1).drop_last() =~= all.take(i as int));
        assert(all.take(i + 1).last() == bins@[i as int]@);
        if let Some(at) = binaries::which_binary(fs, m, &bins[i]) {
            let skill_ids = find_ids_for(&pairs, &bins[i]);
            assert(text::strs(skill_ids@).len() == skill_ids@.len());
            let cli_id = ids::cli_stable_id_for(&bins[i]);
            if skill_ids.len() > 0 {
                add_link(&mut scan.links, &cli_id, &skill_ids);
            }
            let children = find_linked(&scan.links, &cli_id);
            let e = make_cli(
                fs,
                m,
                &known,
                &bins[i],
                &at,
                existing,
                &skill_ids,
                &children,
                now,
            );
            skills::push_ext(&mut scan.exts, e);
        }
        assert(scan@ =~= with_bins(fs@, m@, all.take(i + 1), exts, now));
        i += 1;
    }
    assert(all.take(i as int) =~= all);
    scan
}

} // verus!
