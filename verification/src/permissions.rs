//! What an extension may do, read off its text.

use vstd::prelude::*;

use crate::lists;
use crate::models;
use crate::models::{Permission, PermissionView, Platform};
use crate::outside;
use crate::path;
use crate::split;
use crate::text;

verus! {

/// Paths worth reporting: below the home directory or a system directory, on a
/// Windows drive, or below a Windows variable.
pub const SENSITIVE_PATHS: &'static str =
    r"(?:(?:~|/(?:etc|home/\w+|tmp|var|opt|usr/local|Library|Applications))/[\w.\-/]+|[A-Za-z]:\\[\w.\-\\]+|%[A-Za-z_]+%[\\/][\w.\-\\/]+)";

/// Addresses of the web, with the domain as group.
pub const URL_DOMAINS: &'static str = r"https?://([\w.\-]+)";

/// Blocks of shell code, with their body as group.
pub const SHELL_BLOCK: &'static str = r"(?s)```(?:bash|shell|sh|zsh)\s*\n(.*?)```";

/// Names of database engines, as group.
pub const DB_ENGINES: &'static str =
    r"(?i)\b(postgres(?:ql)?|mysql|mariadb|sqlite|mongodb|redis)\b";

// ---------------------------------------------------------------------------
// Searching by regular expression
// ---------------------------------------------------------------------------

/// The texts of the matches of a pattern.
pub open spec fn all_matches(pattern: Seq<char>, s: Seq<char>) -> Seq<Seq<char>> {
    match outside::regex_matches(pattern, s) {
        Some(v) => v,
        None => Seq::<Seq<char>>::empty(),
    }
}

/// The texts of the first group of the matches of a pattern.
pub open spec fn all_groups(pattern: Seq<char>, s: Seq<char>) -> Seq<Seq<char>> {
    match outside::regex_groups(pattern, s) {
        Some(v) => v,
        None => Seq::<Seq<char>>::empty(),
    }
}

/// Whether each of the texts stands in `s`.
pub open spec fn all_stand_in(v: Seq<Seq<char>>, s: Seq<char>) -> bool {
    forall|i: int| 0 <= i < v.len() ==> split::has_text(s, #[trigger] v[i])
}

pub(crate) fn find_matches(pattern: &str, s: &str) -> (r: Vec<String>)
    ensures
        text::strs(r@) == all_matches(pattern@, s@),
        all_stand_in(text::strs(r@), s@),
{
    match outside::find_all(pattern, s) {
        Some(v) => {
            assert forall|i: int| 0 <= i < text::strs(v@).len() implies split::has_text(
                s@,
                #[trigger] text::strs(v@)[i],
            ) by {
                assert(split::has_text(s@, v@[i]@));
            }
            v
        },
        None => text::no_strings(),
    }
}

pub(crate) fn find_groups(pattern: &str, s: &str) -> (r: Vec<String>)
    ensures
        text::strs(r@) == all_groups(pattern@, s@),
        all_stand_in(text::strs(r@), s@),
{
    match outside::first_groups(pattern, s) {
        Some(v) => {
            assert forall|i: int| 0 <= i < text::strs(v@).len() implies split::has_text(
                s@,
                #[trigger] text::strs(v@)[i],
            ) by {
                assert(split::has_text(s@, v@[i]@));
            }
            v
        },
        None => text::no_strings(),
    }
}

proof fn lemma_distinct_stands_in(v: Seq<Seq<char>>, s: Seq<char>)
    requires
        all_stand_in(v, s),
    ensures
        all_stand_in(lists::distinct(v), s),
{
    lists::distinct_keeps_each_item_once(v);
    let d = lists::distinct(v);
    assert forall|i: int| 0 <= i < d.len() implies split::has_text(s, #[trigger] d[i]) by {
        assert(d.contains(d[i]));
        assert(v.contains(d[i]));
    }
}

// ---------------------------------------------------------------------------
// Skills
// ---------------------------------------------------------------------------

/// The name of the program that the first word of a command names.
pub open spec fn command_base(command: Seq<char>, platform: Platform) -> Seq<char> {
    match split::first_word(command) {
        Some(w) => path::program_name_of(w, platform),
        None => Seq::<char>::empty(),
    }
}

/// The name of the program that the first word of a command names.
pub fn base_of_command(command: &str, platform: Platform) -> (r: String)
    ensures
        r@ == command_base(command@, platform),
{
    match split::first_token(command) {
        Some(w) => path::program_name(&w, platform),
        None => String::new(),
    }
}

/// The program that a line of shell code runs; empty for blank lines and
/// comments.
pub open spec fn line_program(line: Seq<char>, platform: Platform) -> Seq<char> {
    let t = text::trimmed(line);
    if t.len() == 0 || t[0] == '#' {
        Seq::<char>::empty()
    } else {
        command_base(t, platform)
    }
}

/// The programs that lines of shell code run.
pub open spec fn programs_in(lines: Seq<Seq<char>>, platform: Platform) -> Seq<Seq<char>>
    decreases lines.len(),
{
    if lines.len() == 0 {
        Seq::<Seq<char>>::empty()
    } else {
        let before = programs_in(lines.drop_last(), platform);
        if line_program(lines.last(), platform).len() == 0 {
            before
        } else {
            before.push(line_program(lines.last(), platform))
        }
    }
}

/// The programs that blocks of shell code run.
pub open spec fn programs_in_blocks(blocks: Seq<Seq<char>>, platform: Platform) -> Seq<Seq<char>>
    decreases blocks.len(),
{
    if blocks.len() == 0 {
        Seq::<Seq<char>>::empty()
    } else {
        programs_in_blocks(blocks.drop_last(), platform) + programs_in(
            split::lines_of(blocks.last()),
            platform,
        )
    }
}

fn push_programs(out: &mut Vec<String>, block: &str, platform: Platform)
    ensures
        text::strs(final(out)@) == text::strs(old(out)@) + programs_in(
            split::lines_of(block@),
            platform,
        ),
{
    let lines = split::lines(block);
    let ghost all = split::lines_of(block@);
    let mut i: usize = 0;
    assert(all.take(0) =~= Seq::<Seq<char>>::empty());
    assert(text::strs(out@) =~= text::strs(old(out)@) + programs_in(all.take(0), platform));
    while i < lines.len()
        invariant
            all == text::strs(lines@),
            i <= lines.len(),
            text::strs(out@) == text::strs(old(out)@) + programs_in(all.take(i as int), platform),
        decreases lines.len() - i,
    {
        assert(all.take(i + 1).drop_last() =~= all.take(i as int));
        assert(all[i as int] == lines@[i as int]@);
        let ghost before = text::strs(out@);
        let t = text::trim(&lines[i]);
        if !t.is_empty() && !text::starts_with_char(t, '#') {
            let base = base_of_command(t, platform);
            if !base.as_str().is_empty() {
                let ghost b = base@;
                out.push(base);
                assert(text::strs(out@) =~= before.push(b));
            }
        }
        assert(text::strs(out@) =~= text::strs(old(out)@) + programs_in(all.take(i + 1), platform));
        i += 1;
    }
    assert(all.take(i as int) =~= all);
}

/// What a skill may do, from what was found in its text: the paths, the domains,
/// the blocks of shell code and the database engines. Access to files is always
/// listed; the rest only where something was found.
pub open spec fn skill_perms(
    paths: Seq<Seq<char>>,
    domains: Seq<Seq<char>>,
    blocks: Seq<Seq<char>>,
    engines: Seq<Seq<char>>,
    platform: Platform,
) -> Seq<PermissionView> {
    let commands = lists::distinct(programs_in_blocks(blocks, platform));
    seq![PermissionView::FileSystem { paths: lists::distinct(paths) }] + (if domains.len() == 0 {
        Seq::<PermissionView>::empty()
    } else {
        seq![PermissionView::Network { domains: lists::distinct(domains) }]
    }) + (if commands.len() == 0 {
        Seq::<PermissionView>::empty()
    } else {
        seq![PermissionView::Shell { commands }]
    }) + (if engines.len() == 0 {
        Seq::<PermissionView>::empty()
    } else {
        seq![PermissionView::Database { engines: lists::distinct(engines) }]
    })
}

/// What is listed for a skill under each heading is what was found for it.
pub proof fn skill_lists_what_was_found(
    paths: Seq<Seq<char>>,
    domains: Seq<Seq<char>>,
    blocks: Seq<Seq<char>>,
    engines: Seq<Seq<char>>,
    platform: Platform,
)
    ensures
        forall|i: int|
            0 <= i < skill_perms(paths, domains, blocks, engines, platform).len() ==> match #[trigger]
            skill_perms(paths, domains, blocks, engines, platform)[i] {
                PermissionView::FileSystem { paths: p } => p == lists::distinct(paths),
                PermissionView::Network { domains: d } => d == lists::distinct(domains),
                PermissionView::Shell { commands: c } => c == lists::distinct(
                    programs_in_blocks(blocks, platform),
                ),
                PermissionView::Database { engines: e } => e == lists::distinct(engines),
                PermissionView::Env { .. } => false,
            },
{
}

proof fn lemma_push_view(v: Seq<Permission>, p: Permission)
    ensures
        models::list_view(v.push(p)) == models::list_view(v).push(p@),
{
    assert(models::list_view(v.push(p)) =~= models::list_view(v).push(p@));
}

/// What a skill may do, from what was found in its text.
pub fn skill_permissions(
    paths: &Vec<String>,
    domains: &Vec<String>,
    blocks: &Vec<String>,
    engines: &Vec<String>,
    platform: Platform,
) -> (r: Vec<Permission>)
    ensures
        models::list_view(r@) == skill_perms(
            text::strs(paths@),
            text::strs(domains@),
            text::strs(blocks@),
            text::strs(engines@),
            platform,
        ),
{
    let mut perms: Vec<Permission> = Vec::new();
    let p0 = Permission::FileSystem { paths: lists::dedup(paths) };
    proof {
        lemma_push_view(perms@, p0);
    }
    perms.push(p0);
    if domains.len() > 0 {
        let p1 = Permission::Network { domains: lists::dedup(domains) };
        proof {
            lemma_push_view(perms@, p1);
        }
        perms.push(p1);
    }
    let mut found = text::no_strings();
    let ghost all = text::strs(blocks@);
    let mut i: usize = 0;
    assert(all.take(0) =~= Seq::<Seq<char>>::empty());
    assert(text::strs(found@) =~= programs_in_blocks(all.take(0), platform));
    while i < blocks.len()
        invariant
            all == text::strs(blocks@),
            i <= blocks.len(),
            text::strs(found@) == programs_in_blocks(all.take(i as int), platform),
        decreases blocks.len() - i,
    {
        assert(all.take(i + 1).drop_last() =~= all.take(i as int));
        assert(all[i as int] == blocks@[i as int]@);
        push_programs(&mut found, &blocks[i], platform);
        i += 1;
    }
    assert(all.take(i as int) =~= all);
    let commands = lists::dedup(&found);
    assert(text::strs(commands@).len() == commands@.len());
    if commands.len() > 0 {
        let p2 = Permission::Shell { commands };
        proof {
            lemma_push_view(perms@, p2);
        }
        perms.push(p2);
    }
    if engines.len() > 0 {
        let p3 = Permission::Database { engines: lists::dedup(engines) };
        proof {
            lemma_push_view(perms@, p3);
        }
        perms.push(p3);
    }
    assert(models::list_view(perms@) =~= skill_perms(
        text::strs(paths@),
        text::strs(domains@),
        text::strs(blocks@),
        text::strs(engines@),
        platform,
    ));
    perms
}

/// What a skill may do, read off its text.
pub open spec fn skill_text_perms(content: Seq<char>, platform: Platform) -> Seq<PermissionView> {
    skill_perms(
        all_matches(SENSITIVE_PATHS@, content),
        all_groups(URL_DOMAINS@, content),
        all_groups(SHELL_BLOCK@, content),
        all_groups(DB_ENGINES@, outside::lowercase(content)),
        platform,
    )
}

/// What a skill may do, read off its text. The paths and domains that are listed
/// stand in the text.
pub fn infer_skill_permissions(content: &str, platform: Platform) -> (r: Vec<Permission>)
    ensures
        models::list_view(r@) == skill_text_perms(content@, platform),
        forall|i: int|
            0 <= i < r@.len() ==> match (#[trigger] r@[i])@ {
                PermissionView::FileSystem { paths } => all_stand_in(paths, content@),
                PermissionView::Network { domains } => all_stand_in(domains, content@),
                _ => true,
            },
{
    let paths = find_matches(SENSITIVE_PATHS, content);
    let domains = find_groups(URL_DOMAINS, content);
    let blocks = find_groups(SHELL_BLOCK, content);
    let lower = outside::to_lowercase(content);
    let engines = find_groups(DB_ENGINES, &lower);
    let r = skill_permissions(&paths, &domains, &blocks, &engines, platform);
    proof {
        lemma_distinct_stands_in(text::strs(paths@), content@);
        lemma_distinct_stands_in(text::strs(domains@), content@);
        let v = skill_text_perms(content@, platform);
        skill_lists_what_was_found(
            text::strs(paths@),
            text::strs(domains@),
            text::strs(blocks@),
            text::strs(engines@),
            platform,
        );
        assert forall|i: int| 0 <= i < r@.len() implies match (#[trigger] r@[i])@ {
            PermissionView::FileSystem { paths } => all_stand_in(paths, content@),
            PermissionView::Network { domains } => all_stand_in(domains, content@),
            _ => true,
        } by {
            assert(models::list_view(r@)[i] == v[i]);
        }
    }
    r
}

// ---------------------------------------------------------------------------
// Hooks
// ---------------------------------------------------------------------------

/// What a hook may do, from its command and what was found in it: it always runs
/// the command; domains and paths are listed where some were found.
pub open spec fn hook_perms(
    command: Seq<char>,
    domains: Seq<Seq<char>>,
    paths: Seq<Seq<char>>,
    platform: Platform,
) -> Seq<PermissionView> {
    let base = command_base(command, platform);
    seq![
        PermissionView::Shell {
            commands: if command == base {
                seq![base]
            } else {
                seq![command, base]
            },
        },
    ] + (if domains.len() == 0 {
        Seq::<PermissionView>::empty()
    } else {
        seq![PermissionView::Network { domains: lists::distinct(domains) }]
    }) + (if paths.len() == 0 {
        Seq::<PermissionView>::empty()
    } else {
        seq![PermissionView::FileSystem { paths: lists::distinct(paths) }]
    })
}

/// What a hook may do, from its command and what was found in it.
pub fn hook_permissions(
    command: &str,
    domains: &Vec<String>,
    paths: &Vec<String>,
    platform: Platform,
) -> (r: Vec<Permission>)
    ensures
        models::list_view(r@) == hook_perms(
            command@,
            text::strs(domains@),
            text::strs(paths@),
            platform,
        ),
{
    let base = base_of_command(command, platform);
    let ghost b = base@;
    let mut commands: Vec<String> = Vec::new();
    if !text::str_eq(command, &base) {
        commands.push(command.to_owned());
    }
    commands.push(base);
    assert(text::strs(commands@) =~= if command@ == b {
        seq![b]
    } else {
        seq![command@, b]
    });
    let mut perms: Vec<Permission> = Vec::new();
    let p0 = Permission::Shell { commands };
    proof {
        lemma_push_view(perms@, p0);
    }
    perms.push(p0);
    if domains.len() > 0 {
        let p1 = Permission::Network { domains: lists::dedup(domains) };
        proof {
            lemma_push_view(perms@, p1);
        }
        perms.push(p1);
    }
    if paths.len() > 0 {
        let p2 = Permission::FileSystem { paths: lists::dedup(paths) };
        proof {
            lemma_push_view(perms@, p2);
        }
        perms.push(p2);
    }
    assert(models::list_view(perms@) =~= hook_perms(
        command@,
        text::strs(domains@),
        text::strs(paths@),
        platform,
    ));
    perms
}

/// What a hook may do, read off its command.
pub open spec fn hook_text_perms(command: Seq<char>, platform: Platform) -> Seq<PermissionView> {
    hook_perms(
        command,
        all_groups(URL_DOMAINS@, command),
        all_matches(SENSITIVE_PATHS@, command),
        platform,
    )
}

/// What a hook may do, read off its command.
pub fn infer_hook_permissions(command: &str, platform: Platform) -> (r: Vec<Permission>)
    ensures
        models::list_view(r@) == hook_text_perms(command@, platform),
{
    let domains = find_groups(URL_DOMAINS, command);
    let paths = find_matches(SENSITIVE_PATHS, command);
    hook_permissions(command, &domains, &paths, platform)
}

// ---------------------------------------------------------------------------
// Merging
// ---------------------------------------------------------------------------

/// Whether two permissions are of the same dimension.
pub open spec fn same_dimension(a: PermissionView, b: PermissionView) -> bool {
    match (a, b) {
        (PermissionView::FileSystem { .. }, PermissionView::FileSystem { .. }) => true,
        (PermissionView::Network { .. }, PermissionView::Network { .. }) => true,
        (PermissionView::Shell { .. }, PermissionView::Shell { .. }) => true,
        (PermissionView::Database { .. }, PermissionView::Database { .. }) => true,
        (PermissionView::Env { .. }, PermissionView::Env { .. }) => true,
        _ => false,
    }
}

/// A permission with the items of another one of its dimension that it does not
/// list yet.
pub open spec fn merged_with(a: PermissionView, b: PermissionView) -> PermissionView {
    match (a, b) {
        (
            PermissionView::FileSystem { paths: x },
            PermissionView::FileSystem { paths: y },
        ) => PermissionView::FileSystem { paths: lists::with_all_new(x, y) },
        (
            PermissionView::Network { domains: x },
            PermissionView::Network { domains: y },
        ) => PermissionView::Network { domains: lists::with_all_new(x, y) },
        (
            PermissionView::Shell { commands: x },
            PermissionView::Shell { commands: y },
        ) => PermissionView::Shell { commands: lists::with_all_new(x, y) },
        (
            PermissionView::Database { engines: x },
            PermissionView::Database { engines: y },
        ) => PermissionView::Database { engines: lists::with_all_new(x, y) },
        (
            PermissionView::Env { keys: x },
            PermissionView::Env { keys: y },
        ) => PermissionView::Env { keys: lists::with_all_new(x, y) },
        _ => a,
    }
}

/// A list with one more permission: merged into the first one of its dimension,
/// or at the end where there is none.
pub open spec fn with_permission(perms: Seq<PermissionView>, p: PermissionView) -> Seq<
    PermissionView,
>
    decreases perms.len(),
{
    if perms.len() == 0 {
        seq![p]
    } else if same_dimension(perms[0], p) {
        seq![merged_with(perms[0], p)] + perms.drop_first()
    } else {
        seq![perms[0]] + with_permission(perms.drop_first(), p)
    }
}

/// A list with the permissions of another one merged in.
pub open spec fn with_permissions(perms: Seq<PermissionView>, more: Seq<PermissionView>) -> Seq<
    PermissionView,
>
    decreases more.len(),
{
    if more.len() == 0 {
        perms
    } else {
        with_permission(with_permissions(perms, more.drop_last()), more.last())
    }
}

fn is_same_dimension(a: &Permission, b: &Permission) -> (r: bool)
    ensures
        r == same_dimension(a@, b@),
{
    match (a, b) {
        (Permission::FileSystem { .. }, Permission::FileSystem { .. }) => true,
        (Permission::Network { .. }, Permission::Network { .. }) => true,
        (Permission::Shell { .. }, Permission::Shell { .. }) => true,
        (Permission::Database { .. }, Permission::Database { .. }) => true,
        (Permission::Env { .. }, Permission::Env { .. }) => true,
        _ => false,
    }
}

fn merge_items(a: &Vec<String>, b: &Vec<String>) -> (r: Vec<String>)
    ensures
        text::strs(r@) == lists::with_all_new(text::strs(a@), text::strs(b@)),
{
    let mut out = text::clone_strings(a);
    lists::push_all_new(&mut out, b);
    out
}

fn merge_two(a: &Permission, b: &Permission) -> (r: Permission)
    ensures
        r@ == merged_with(a@, b@),
{
    match (a, b) {
        (
            Permission::FileSystem { paths: x },
            Permission::FileSystem { paths: y },
        ) => Permission::FileSystem { paths: merge_items(x, y) },
        (
            Permission::Network { domains: x },
            Permission::Network { domains: y },
        ) => Permission::Network { domains: merge_items(x, y) },
        (
            Permission::Shell { commands: x },
            Permission::Shell { commands: y },
        ) => Permission::Shell { commands: merge_items(x, y) },
        (
            Permission::Database { engines: x },
            Permission::Database { engines: y },
        ) => Permission::Database { engines: merge_items(x, y) },
        (Permission::Env { keys: x }, Permission::Env { keys: y }) => Permission::Env {
            keys: merge_items(x, y),
        },
        _ => a.clone(),
    }
}

fn merge_one(perms: &mut Vec<Permission>, p: &Permission)
    ensures
        models::list_view(final(perms)@) == with_permission(models::list_view(old(perms)@), p@),
{
    let ghost v = models::list_view(perms@);
    let mut i: usize = 0;
    assert(v.skip(0) =~= v);
    assert(v.take(0) + with_permission(v.skip(0), p@) =~= with_permission(v, p@));
    while i < perms.len()
        invariant
            perms@ == old(perms)@,
            v == models::list_view(perms@),
            i <= perms.len(),
            v.take(i as int) + with_permission(v.skip(i as int), p@) == with_permission(v, p@),
        decreases perms.len() - i,
    {
        assert(v[i as int] == perms@[i as int]@);
        assert(v.skip(i as int).drop_first() =~= v.skip(i + 1));
        if is_same_dimension(&perms[i], p) {
            let m = merge_two(&perms[i], p);
            let ghost mv = m@;
            perms.set(i, m);
            assert(models::list_view(perms@) =~= v.take(i as int) + (seq![mv] + v.skip(i + 1)));
            return;
        }
        assert(v.take(i + 1) + with_permission(v.skip(i + 1), p@) =~= v.take(i as int) + (
        seq![v[i as int]] + with_permission(v.skip(i + 1), p@)));
        i += 1;
    }
    let q = p.clone();
    let ghost qv = q@;
    perms.push(q);
    assert(models::list_view(perms@) =~= v.take(i as int) + seq![qv]);
}

/// Merges permissions into a list, dimension by dimension and without listing an
/// item twice.
pub fn merge_permissions(perms: &mut Vec<Permission>, more: &Vec<Permission>)
    ensures
        models::list_view(final(perms)@) == with_permissions(
            models::list_view(old(perms)@),
            models::list_view(more@),
        ),
{
    let ghost m = models::list_view(more@);
    let mut i: usize = 0;
    assert(m.take(0) =~= Seq::<PermissionView>::empty());
    while i < more.len()
        invariant
            m == models::list_view(more@),
            i <= more.len(),
            models::list_view(perms@) == with_permissions(
                models::list_view(old(perms)@),
                m.take(i as int),
            ),
        decreases more.len() - i,
    {
        assert(m.take(i + 1).drop_last() =~= m.take(i as int));
        assert(m[i as int] == more@[i as int]@);
        merge_one(perms, &more[i]);
        i += 1;
    }
    assert(m.take(i as int) =~= m);
}

// ---------------------------------------------------------------------------
// Laws
// ---------------------------------------------------------------------------

/// A skill always lists access to files, first, and never the reading of
/// variables.
pub proof fn skill_lists_files_and_no_variables(content: Seq<char>, platform: Platform)
    ensures
        skill_text_perms(content, platform).len() > 0,
        skill_text_perms(content, platform)[0] is FileSystem,
        forall|i: int|
            0 <= i < skill_text_perms(content, platform).len() ==> !((#[trigger] skill_text_perms(
                content,
                platform,
            )[i]) is Env),
{
}

/// A hook always lists the running of its command, first, and never the reading
/// of variables.
pub proof fn hook_lists_shell_and_no_variables(command: Seq<char>, platform: Platform)
    ensures
        hook_text_perms(command, platform).len() > 0,
        hook_text_perms(command, platform)[0] is Shell,
        forall|i: int|
            0 <= i < hook_text_perms(command, platform).len() ==> !((#[trigger] hook_text_perms(
                command,
                platform,
            )[i]) is Env),
{
}

/// Merging a permission keeps each dimension that a list has, and adds at most
/// the one that is merged.
pub proof fn merging_keeps_dimensions(perms: Seq<PermissionView>, p: PermissionView)
    ensures
        with_permission(perms, p).len() >= perms.len(),
        forall|i: int|
            0 <= i < perms.len() ==> same_dimension(#[trigger] perms[i], with_permission(
                perms,
                p,
            )[i]),
        exists|i: int|
            0 <= i < with_permission(perms, p).len() && same_dimension(
                #[trigger] with_permission(perms, p)[i],
                p,
            ),
    decreases perms.len(),
{
    let r = with_permission(perms, p);
    if perms.len() == 0 {
        assert(same_dimension(r[0], p));
    } else if same_dimension(perms[0], p) {
        assert(same_dimension(r[0], p));
        assert forall|i: int| 0 <= i < perms.len() implies same_dimension(
            #[trigger] perms[i],
            r[i],
        ) by {
            if i > 0 {
                assert(r[i] == perms.drop_first()[i - 1]);
            }
        }
    } else {
        let rest = with_permission(perms.drop_first(), p);
        merging_keeps_dimensions(perms.drop_first(), p);
        assert forall|i: int| 0 <= i < perms.len() implies same_dimension(
            #[trigger] perms[i],
            r[i],
        ) by {
            if i > 0 {
                assert(r[i] == rest[i - 1]);
                assert(perms.drop_first()[i - 1] == perms[i]);
            }
        }
        let k = choose|k: int|
            0 <= k < rest.len() && same_dimension(#[trigger] rest[k], p);
        assert(r[k + 1] == rest[k]);
        assert(same_dimension(r[k + 1], p));
    }
}

/// Whether no two permissions of a list are of the same dimension.
pub open spec fn dimensions_differ(perms: Seq<PermissionView>) -> bool {
    forall|i: int, j: int|
        0 <= i < j < perms.len() ==> !same_dimension(#[trigger] perms[i], #[trigger] perms[j])
}

/// Merging a list of permissions lists no dimension twice where none was listed
/// twice before.
pub proof fn merging_keeps_dimensions_apart(perms: Seq<PermissionView>, more: Seq<PermissionView>)
    requires
        dimensions_differ(perms),
    ensures
        dimensions_differ(with_permissions(perms, more)),
    decreases more.len(),
{
    if more.len() > 0 {
        merging_keeps_dimensions_apart(perms, more.drop_last());
        let before = with_permissions(perms, more.drop_last());
        let p = more.last();
        let r = with_permission(before, p);
        merging_keeps_dimensions(before, p);
        lemma_appended(before, p);
        assert forall|i: int, j: int| 0 <= i < j < r.len() implies !same_dimension(
            #[trigger] r[i],
            #[trigger] r[j],
        ) by {
            assert(same_dimension(before[i], r[i]));
            if j < before.len() {
                assert(same_dimension(before[j], r[j]));
                assert(!same_dimension(before[i], before[j]));
            }
        }
    }
}

proof fn lemma_appended(perms: Seq<PermissionView>, p: PermissionView)
    ensures
        with_permission(perms, p).len() <= perms.len() + 1,
        with_permission(perms, p).len() > perms.len() ==> with_permission(perms, p).last() == p
            && forall|i: int| 0 <= i < perms.len() ==> !same_dimension(#[trigger] perms[i], p),
    decreases perms.len(),
{
    if perms.len() > 0 && !same_dimension(perms[0], p) {
        let rest = perms.drop_first();
        lemma_appended(rest, p);
        if with_permission(rest, p).len() > rest.len() {
            assert forall|i: int| 0 <= i < perms.len() implies !same_dimension(
                #[trigger] perms[i],
                p,
            ) by {
                if i > 0 {
                    assert(perms[i] == rest[i - 1]);
                }
            }
        }
    }
}

} // verus!
