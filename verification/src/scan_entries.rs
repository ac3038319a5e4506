//! What a scan says of each thing that it finds: of servers, hooks, plugins, skills,
//! subagents and commands.

use vstd::prelude::*;

use crate::agents;
use crate::agents::AgentView;
use crate::files::{FileFactsView, FileTreeView};
use crate::frontmatter;
use crate::ids;
use crate::lists;
use crate::managed;
use crate::models::{
    ConfigScopeView, ExtensionKind, ExtensionView, HookEntryView, McpServerEntryView,
    PermissionView, Platform, SourceOrigin, SourceView, Timestamp,
};
use crate::path;
use crate::permissions;
use crate::plugins;
use crate::scanner;
use crate::skills;
use crate::sources;
use crate::split;
use crate::text;

verus! {

// ---------------------------------------------------------------------------
// Permissions
// ---------------------------------------------------------------------------

/// Whether access to files is listed exactly for some paths, if `listed`.
pub open spec fn lists_files(perms: Seq<PermissionView>, listed: bool, items: Set<Seq<char>>) -> bool {
    &&& listed <==> exists|i: int| 0 <= i < perms.len() && (#[trigger] perms[i]) is FileSystem
    &&& forall|i: int|
        0 <= i < perms.len() && (#[trigger] perms[i]) is FileSystem ==> is_list_of(
            perms[i]->paths,
            items,
        )
}

/// Whether access to the network is listed exactly for some domains, if `listed`.
pub open spec fn lists_network(perms: Seq<PermissionView>, listed: bool, items: Set<Seq<char>>) -> bool {
    &&& listed <==> exists|i: int| 0 <= i < perms.len() && (#[trigger] perms[i]) is Network
    &&& forall|i: int|
        0 <= i < perms.len() && (#[trigger] perms[i]) is Network ==> is_list_of(
            perms[i]->domains,
            items,
        )
}

/// Whether the running of commands is listed exactly for some commands, if `listed`.
pub open spec fn lists_shell(perms: Seq<PermissionView>, listed: bool, items: Set<Seq<char>>) -> bool {
    &&& listed <==> exists|i: int| 0 <= i < perms.len() && (#[trigger] perms[i]) is Shell
    &&& forall|i: int|
        0 <= i < perms.len() && (#[trigger] perms[i]) is Shell ==> is_list_of(
            perms[i]->commands,
            items,
        )
}

/// Whether access to databases is listed exactly for some engines, if `listed`.
pub open spec fn lists_databases(
    perms: Seq<PermissionView>,
    listed: bool,
    items: Set<Seq<char>>,
) -> bool {
    &&& listed <==> exists|i: int| 0 <= i < perms.len() && (#[trigger] perms[i]) is Database
    &&& forall|i: int|
        0 <= i < perms.len() && (#[trigger] perms[i]) is Database ==> is_list_of(
            perms[i]->engines,
            items,
        )
}

/// Whether the reading of variables is listed exactly for some names, in their order,
/// if `listed`.
pub open spec fn lists_variables(
    perms: Seq<PermissionView>,
    listed: bool,
    keys: Seq<Seq<char>>,
) -> bool {
    &&& listed <==> exists|i: int| 0 <= i < perms.len() && (#[trigger] perms[i]) is Env
    &&& forall|i: int|
        0 <= i < perms.len() && (#[trigger] perms[i]) is Env ==> perms[i]->keys == keys
}

/// Whether a list holds some items, each once, and nothing else.
pub open spec fn is_list_of(list: Seq<Seq<char>>, items: Set<Seq<char>>) -> bool {
    list.no_duplicates() && forall|x: Seq<char>| #[trigger] list.contains(x) <==> items.contains(x)
}

/// Whether an argument names a place in the file system: it begins at the root, in the
/// home directory or with a drive, and is no address without a scheme.
pub open spec fn names_place(a: Seq<char>) -> bool {
    let rooted = a.len() >= 1 && a[0] == '/' && !(a.len() >= 2 && a[1] == '/');
    let at_home = a.len() >= 2 && a[0] == '~' && a[1] == '/';
    let on_drive = a.len() >= 3 && ('a' <= a[0] <= 'z' || 'A' <= a[0] <= 'Z') && a[1] == ':' && (
    a[2] == '/' || a[2] == '\\');
    rooted || at_home || on_drive
}

/// The places that arguments name.
pub open spec fn places_in(args: Seq<Seq<char>>) -> Set<Seq<char>> {
    Set::new(|a: Seq<char>| args.contains(a) && names_place(a))
}

/// The domains of the addresses in arguments.
pub open spec fn domains_in(args: Seq<Seq<char>>) -> Set<Seq<char>> {
    Set::new(
        |d: Seq<char>|
            exists|j: int|
                0 <= j < args.len() && permissions::all_groups(
                    r"https?://([\w.\-]+)"@,
                    #[trigger] args[j],
                ).contains(d),
    )
}

/// The items of a list.
pub open spec fn items_of(list: Seq<Seq<char>>) -> Set<Seq<char>> {
    Set::new(|x: Seq<char>| list.contains(x))
}

proof fn lemma_names_place(a: Seq<char>)
    ensures
        scanner::is_path_arg(a) <==> names_place(a),
{
    reveal_strlit("~/");
    reveal_strlit("//");
    assert(text::has_prefix(a, "~/"@) <==> a.len() >= 2 && a[0] == '~' && a[1] == '/') by {
        if a.len() >= 2 {
            assert(a.take(2)[0] == a[0] && a.take(2)[1] == a[1]);
            if a[0] == '~' && a[1] == '/' {
                assert(a.take(2) =~= "~/"@);
            }
        }
    }
    assert(text::has_prefix(a, "//"@) <==> a.len() >= 2 && a[0] == '/' && a[1] == '/') by {
        if a.len() >= 2 {
            assert(a.take(2)[0] == a[0] && a.take(2)[1] == a[1]);
            if a[0] == '/' && a[1] == '/' {
                assert(a.take(2) =~= "//"@);
            }
        }
    }
}

proof fn lemma_path_args(args: Seq<Seq<char>>, x: Seq<char>)
    ensures
        scanner::path_args(args).contains(x) <==> args.contains(x) && names_place(x),
    decreases args.len(),
{
    if args.len() > 0 {
        lemma_path_args(args.drop_last(), x);
        lemma_names_place(args.last());
        lists::lemma_last_contains(args, x);
        lists::lemma_push_contains(scanner::path_args(args.drop_last()), args.last(), x);
    } else {
        assert(!scanner::path_args(args).contains(x));
    }
}

proof fn lemma_arg_domains(args: Seq<Seq<char>>, d: Seq<char>)
    ensures
        scanner::arg_domains(args).contains(d) <==> domains_in(args).contains(d),
    decreases args.len(),
{
    if args.len() > 0 {
        let t = args.drop_last();
        let last = args.last();
        let found = permissions::all_groups(permissions::URL_DOMAINS@, last);
        lemma_arg_domains(t, d);
        lists::lemma_sum_contains(scanner::arg_domains(t), found, d);
        if domains_in(t).contains(d) {
            let j = choose|j: int|
                0 <= j < t.len() && permissions::all_groups(
                    permissions::URL_DOMAINS@,
                    #[trigger] t[j],
                ).contains(d);
            assert(args[j] == t[j]);
        }
        if found.contains(d) {
            assert(args[args.len() - 1] == last);
        }
        if domains_in(args).contains(d) {
            let j = choose|j: int|
                0 <= j < args.len() && permissions::all_groups(
                    permissions::URL_DOMAINS@,
                    #[trigger] args[j],
                ).contains(d);
            if j < t.len() {
                assert(t[j] == args[j]);
            }
        }
    } else {
        assert(!scanner::arg_domains(args).contains(d));
    }
}

proof fn lemma_distinct_is_list(s: Seq<Seq<char>>, items: Set<Seq<char>>)
    requires
        forall|x: Seq<char>| #[trigger] s.contains(x) <==> items.contains(x),
    ensures
        is_list_of(lists::distinct(s), items),
        lists::distinct(s).len() == 0 <==> s.len() == 0,
        s.len() == 0 <==> forall|x: Seq<char>| !#[trigger] items.contains(x),
{
    let d = lists::distinct(s);
    lists::distinct_keeps_each_item_once(s);
    assert forall|x: Seq<char>| #[trigger] d.contains(x) <==> items.contains(x) by {
        assert(d.contains(x) <==> s.contains(x));
    }
    if s.len() > 0 {
        assert(s.contains(s[0]));
        assert(items.contains(s[0]));
        assert(d.contains(s[0]));
    } else {
        assert forall|x: Seq<char>| !#[trigger] items.contains(x) by {
            assert(!s.contains(x));
        }
    }
    if d.len() > 0 {
        assert(d.contains(d[0]));
        assert(s.contains(d[0]));
    }
}

/// What a global server may do: read the variables that are set for it, by name; run
/// its program; talk to any domain where a runner fetches it, and else to the domains
/// that stand in its arguments, if there are any; and access the places that its
/// arguments name, if there are any. It lists nothing else, and nothing twice.
pub proof fn server_lists_what_it_may_do(fs: FileTreeView, agent: AgentView, now: Timestamp, i: int)
    requires
        0 <= i < agent.mcp_servers.len(),
    ensures
        ({
            let s = agent.mcp_servers[i];
            let perms = scanner::mcp_exts(fs, agent, now)[i].permissions;
            let program = path::program_name_of(s.command, fs.platform);
            let fetched = program == "npx"@ || program == "uvx"@;
            &&& lists_variables(perms, s.env.len() > 0, Seq::new(s.env.len(), |k: int| s.env[k].0))
            &&& lists_shell(perms, true, set![program])
            &&& fetched ==> lists_network(perms, true, set!["*"@])
            &&& !fetched ==> lists_network(
                perms,
                exists|d: Seq<char>| #[trigger] domains_in(s.args).contains(d),
                domains_in(s.args),
            )
            &&& lists_files(
                perms,
                exists|a: Seq<char>| #[trigger] places_in(s.args).contains(a),
                places_in(s.args),
            )
            &&& lists_databases(perms, false, Set::empty())
            &&& permissions::dimensions_differ(perms)
        }),
{
    let s = agent.mcp_servers[i];
    let e = scanner::mcp_exts(fs, agent, now)[i];
    let perms = e.permissions;
    let program = path::program_name_of(s.command, fs.platform);
    let found = scanner::arg_domains(s.args);
    let places = scanner::path_args(s.args);
    assert(perms == scanner::server_perms(s, found, fs.platform));
    assert forall|x: Seq<char>| #[trigger] found.contains(x) <==> domains_in(s.args).contains(
        x,
    ) by {
        lemma_arg_domains(s.args, x);
    }
    assert forall|x: Seq<char>| #[trigger] places.contains(x) <==> places_in(s.args).contains(
        x,
    ) by {
        lemma_path_args(s.args, x);
    }
    lemma_distinct_is_list(found, domains_in(s.args));
    lemma_distinct_is_list(places, places_in(s.args));
    let base = scanner::server_base_perms(s, fs.platform);
    let fetched = scanner::is_runner(program);
    let net = if fetched {
        seq![PermissionView::Network { domains: seq!["*"@] }]
    } else if found.len() == 0 {
        Seq::<PermissionView>::empty()
    } else {
        seq![PermissionView::Network { domains: lists::distinct(found) }]
    };
    let paths = lists::distinct(places);
    let files = if paths.len() == 0 {
        Seq::<PermissionView>::empty()
    } else {
        seq![PermissionView::FileSystem { paths }]
    };
    assert(perms == base + net + files);
    let n = base.len();
    assert(base[n - 1] == PermissionView::Shell { commands: seq![program] });
    assert(perms[n - 1] == base[n - 1]);
    assert(is_list_of(seq![program], set![program])) by {
        assert(seq![program][0] == program);
    }
    assert(is_list_of(seq!["*"@], set!["*"@])) by {
        assert(seq!["*"@][0] == "*"@);
    }
    assert(scanner::keys_of(s.env) =~= Seq::new(s.env.len(), |k: int| s.env[k].0));
    if s.env.len() > 0 {
        assert(perms[0] == base[0]);
        assert(perms[0] is Env);
    }
    if net.len() > 0 {
        assert(perms[n as int] == net[0]);
    }
    if files.len() > 0 {
        assert(perms[(n + net.len()) as int] == files[0]);
    }
    if exists|d: Seq<char>| #[trigger] domains_in(s.args).contains(d) {
        assert(found.len() > 0);
    }
    if exists|a: Seq<char>| #[trigger] places_in(s.args).contains(a) {
        assert(paths.len() > 0);
    }
    if found.len() > 0 {
        assert(domains_in(s.args).contains(found[0])) by {
            assert(found.contains(found[0]));
        }
    }
    if paths.len() > 0 {
        assert(places_in(s.args).contains(places[0])) by {
            assert(places.contains(places[0]));
        }
    }
}

/// A server of a project lists the variables that are set for it and its program, and
/// nothing else.
pub proof fn project_server_lists_what_it_may_do(s: McpServerEntryView, platform: Platform)
    ensures
        ({
            let perms = scanner::server_base_perms(s, platform);
            &&& lists_variables(perms, s.env.len() > 0, Seq::new(s.env.len(), |k: int| s.env[k].0))
            &&& lists_shell(perms, true, set![path::program_name_of(s.command, platform)])
            &&& lists_network(perms, false, Set::empty())
            &&& lists_files(perms, false, Set::empty())
            &&& lists_databases(perms, false, Set::empty())
        }),
{
    let perms = scanner::server_base_perms(s, platform);
    let program = path::program_name_of(s.command, platform);
    assert(is_list_of(seq![program], set![program])) by {
        assert(seq![program][0] == program);
    }
    assert(scanner::keys_of(s.env) =~= Seq::new(s.env.len(), |k: int| s.env[k].0));
    assert(perms[perms.len() - 1] is Shell);
    if s.env.len() > 0 {
        assert(perms[0] is Env);
    }
}

// ---------------------------------------------------------------------------
// Times and sources
// ---------------------------------------------------------------------------

/// Whether a time is when something was made: by its time of creation, else of its
/// last change, else now, as for what is not there.
pub open spec fn is_made_at(f: FileFactsView, now: Timestamp, t: Timestamp) -> bool {
    if f.exists && f.created is Some {
        t == f.created->0
    } else if f.exists && f.modified is Some {
        t == f.modified->0
    } else {
        t == now
    }
}

/// Whether a time is when something last changed, or now, where that cannot be told.
pub open spec fn is_changed_at(f: FileFactsView, now: Timestamp, t: Timestamp) -> bool {
    if f.exists && f.modified is Some {
        t == f.modified->0
    } else {
        t == now
    }
}

/// Whether a source tells nothing but who put something there.
pub open spec fn is_bare_source(s: SourceView, origin: SourceOrigin) -> bool {
    s.origin == origin && s.url is None && s.version is None && s.commit_hash is None
        && !s.from_manifest
}

/// Whether a fresh entry has nothing yet of what the user or an installation puts
/// there.
pub open spec fn is_untouched(e: ExtensionView) -> bool {
    e.tags.len() == 0 && e.trust_score is None && e.install_meta is None && e.cli_parent_id is None
        && e.cli_meta is None
}

// ---------------------------------------------------------------------------
// Servers
// ---------------------------------------------------------------------------

/// The arguments of a command that are no options.
pub open spec fn operands(args: Seq<Seq<char>>) -> Seq<Seq<char>> {
    args.filter(|a: Seq<char>| !(a.len() > 0 && a[0] == '-'))
}

proof fn lemma_operands(args: Seq<Seq<char>>)
    ensures
        scanner::plain_args(args) == operands(args),
    decreases args.len(),
{
    reveal(Seq::filter);
    if args.len() > 0 {
        lemma_operands(args.drop_last());
    }
}

/// Whether a text says what a server runs: a runner with the package that it fetches,
/// which is its last operand; or a program with its first operands, at most `most`.
pub open spec fn says_what_runs(
    d: Seq<char>,
    program: Seq<char>,
    args: Seq<Seq<char>>,
    most: nat,
) -> bool {
    let given = operands(args);
    if program == "npx"@ || program == "uvx"@ {
        if given.len() == 0 {
            d == "Runs via "@ + program
        } else {
            d == "Runs "@ + given[given.len() - 1] + " via "@ + program
        }
    } else if given.len() == 0 || most == 0 {
        d == "Runs "@ + program
    } else if given.len() == 1 || most == 1 {
        d == "Runs "@ + program + " "@ + given[0]
    } else {
        d == "Runs "@ + program + " "@ + given[0] + " "@ + given[1]
    }
}

/// A scan finds each global server of an agent, in order: under the identifier that
/// belongs to its name, as enabled as it is, with the times of the file that lists it.
/// A name like that of a repository tells where it comes from.
pub proof fn server_is_found_as_listed(fs: FileTreeView, agent: AgentView, now: Timestamp, i: int)
    requires
        0 <= i < agent.mcp_servers.len(),
    ensures
        scanner::mcp_exts(fs, agent, now).len() == agent.mcp_servers.len(),
        ({
            let s = agent.mcp_servers[i];
            let e = scanner::mcp_exts(fs, agent, now)[i];
            let f = fs.at(agent.mcp_config_path);
            let looks_like_repository = s.name.contains('/') && !s.name.contains(' ');
            &&& e.kind == ExtensionKind::Mcp && e.name == s.name && e.enabled == s.enabled
            &&& e.id == ids::global_id(s.name, "mcp"@, agent.name)
            &&& e.agents == seq![agent.name] && e.scope is Global
            &&& e.source_path is None && is_untouched(e)
            &&& is_made_at(f, now, e.installed_at) && is_changed_at(f, now, e.updated_at)
            &&& says_what_runs(
                e.description,
                path::program_name_of(s.command, fs.platform),
                s.args,
                2,
            )
            &&& looks_like_repository ==> e.source.origin == SourceOrigin::Git && e.source.url
                == Some("https://github.com/"@ + s.name) && e.source.version is None
                && e.source.commit_hash is None && !e.source.from_manifest
            &&& !looks_like_repository ==> is_bare_source(e.source, SourceOrigin::Agent)
            &&& e.pack == skills::pack_of_url(e.source.url)
        }),
{
    lemma_operands(agent.mcp_servers[i].args);
}

/// A scan of a project finds each server that the file of the project lists, in order,
/// if that file is there: under the identifier that belongs to its name in that scope.
pub proof fn project_server_is_found_as_listed(
    fs: FileTreeView,
    agent: AgentView,
    scope: ConfigScopeView,
    now: Timestamp,
    i: int,
)
    ensures
        match agent.mcp_config_in(scope) {
            None => scanner::project_mcp_exts(fs, agent, scope, now).len() == 0,
            Some(p) => {
                let listed = agents::servers_at(agent.mcp_files, p);
                let found = scanner::project_mcp_exts(fs, agent, scope, now);
                &&& found.len() == (if fs.at(p).is_file {
                    listed.len()
                } else {
                    0
                })
                &&& fs.at(p).is_file && 0 <= i < listed.len() ==> {
                    let s = listed[i];
                    let e = found[i];
                    &&& e.kind == ExtensionKind::Mcp && e.name == s.name && e.enabled == s.enabled
                    &&& e.id == ids::scoped_id(s.name, "mcp"@, agent.name, scope)
                    &&& e.agents == seq![agent.name] && e.scope == scope
                    &&& e.source_path == Some(p) && is_untouched(e) && e.pack is None
                    &&& is_bare_source(e.source, SourceOrigin::Agent)
                    &&& is_made_at(fs.at(p), now, e.installed_at)
                    &&& is_changed_at(fs.at(p), now, e.updated_at)
                    &&& says_what_runs(
                        e.description,
                        path::program_name_of(s.command, fs.platform),
                        s.args,
                        0,
                    )
                    &&& e.permissions == scanner::server_base_perms(s, fs.platform)
                }
            },
        },
{
    if let Some(p) = agent.mcp_config_in(scope) {
        let listed = agents::servers_at(agent.mcp_files, p);
        if fs.at(p).is_file && 0 <= i < listed.len() {
            lemma_operands(listed[i].args);
        }
    }
}

// ---------------------------------------------------------------------------
// Hooks
// ---------------------------------------------------------------------------

/// Whether an entry is that of a hook that a file lists for an agent in a scope.
pub open spec fn is_entry_of_hook(
    fs: FileTreeView,
    agent: Seq<char>,
    file: Seq<char>,
    scope: ConfigScopeView,
    now: Timestamp,
    h: HookEntryView,
    e: ExtensionView,
) -> bool {
    let matcher = match h.matcher {
        Some(m) => m,
        None => "*"@,
    };
    &&& e.kind == ExtensionKind::Hook && e.enabled == h.enabled
    &&& e.name == h.event + ":"@ + matcher + ":"@ + h.command
    &&& e.id == ids::scoped_id(e.name, "hook"@, agent, scope)
    &&& e.description == "Runs `"@ + h.command + "` on "@ + h.event + " event"@
    &&& e.agents == seq![agent] && e.scope == scope && e.source_path == Some(file)
    &&& is_untouched(e) && e.pack is None && is_bare_source(e.source, SourceOrigin::Agent)
    &&& is_made_at(fs.at(file), now, e.installed_at)
    &&& is_changed_at(fs.at(file), now, e.updated_at)
    &&& e.permissions == permissions::hook_text_perms(h.command, fs.platform)
}

/// Whether two lists go together, item by item, as the hooks of a file and what a scan
/// says of them.
pub open spec fn are_entries_of_hooks(
    fs: FileTreeView,
    agent: Seq<char>,
    file: Seq<char>,
    scope: ConfigScopeView,
    now: Timestamp,
    hooks: Seq<HookEntryView>,
    found: Seq<ExtensionView>,
) -> bool {
    found.len() == hooks.len() && forall|i: int|
        0 <= i < hooks.len() ==> is_entry_of_hook(
            fs,
            agent,
            file,
            scope,
            now,
            #[trigger] hooks[i],
            found[i],
        )
}

/// What a scan finds in several files of hooks: one file after the other, of each
/// exactly the hooks that it lists, in order. In a project only files that are there
/// count.
pub proof fn hooks_are_found_as_listed(
    fs: FileTreeView,
    agent: AgentView,
    files: Seq<Seq<char>>,
    scope: ConfigScopeView,
    need_file: bool,
    now: Timestamp,
)
    ensures
        ({
            let found = scanner::hooks_in_files(fs, agent, files, scope, need_file, now);
            if files.len() == 0 {
                found.len() == 0
            } else {
                let last = files.last();
                let before = scanner::hooks_in_files(
                    fs,
                    agent,
                    files.drop_last(),
                    scope,
                    need_file,
                    now,
                );
                let listed = if need_file && !fs.at(last).is_file {
                    Seq::<HookEntryView>::empty()
                } else {
                    agents::hooks_at(agent.hook_files, last)
                };
                &&& found.len() == before.len() + listed.len()
                &&& found.take(before.len() as int) == before
                &&& are_entries_of_hooks(
                    fs,
                    agent.name,
                    last,
                    scope,
                    now,
                    listed,
                    found.skip(before.len() as int),
                )
            }
        }),
{
    if files.len() > 0 {
        let last = files.last();
        let found = scanner::hooks_in_files(fs, agent, files, scope, need_file, now);
        let before = scanner::hooks_in_files(fs, agent, files.drop_last(), scope, need_file, now);
        assert(found.take(before.len() as int) =~= before);
        if need_file && !fs.at(last).is_file {
            assert(found.skip(before.len() as int) =~= Seq::<ExtensionView>::empty());
        } else {
            let here = scanner::hooks_in_file(fs, agent, last, scope, now);
            assert(found.skip(before.len() as int) =~= here);
        }
    }
}

/// A hook may run its command, which is listed as a whole and by its program; talk to
/// the domains that stand in it, if there are any; and access the paths worth
/// reporting that stand in it, if there are any. It lists nothing else.
pub proof fn hook_lists_what_it_may_do(command: Seq<char>, platform: Platform)
    ensures
        ({
            let perms = permissions::hook_text_perms(command, platform);
            let domains = permissions::all_groups(r"https?://([\w.\-]+)"@, command);
            let paths = permissions::all_matches(r"(?:(?:~|/(?:etc|home/\w+|tmp|var|opt|usr/local|Library|Applications))/[\w.\-/]+|[A-Za-z]:\\[\w.\-\\]+|%[A-Za-z_]+%[\\/][\w.\-\\/]+)"@, command);
            let program = match split::first_word(command) {
                Some(w) => path::program_name_of(w, platform),
                None => Seq::<char>::empty(),
            };
            &&& lists_shell(perms, true, set![command, program])
            &&& lists_network(perms, domains.len() > 0, items_of(domains))
            &&& lists_files(perms, paths.len() > 0, items_of(paths))
            &&& lists_databases(perms, false, Set::empty())
            &&& lists_variables(perms, false, Seq::empty())
            &&& permissions::dimensions_differ(perms)
        }),
{
    let perms = permissions::hook_text_perms(command, platform);
    let domains = permissions::all_groups(permissions::URL_DOMAINS@, command);
    let paths = permissions::all_matches(permissions::SENSITIVE_PATHS@, command);
    let base = permissions::command_base(command, platform);
    let commands = if command == base {
        seq![base]
    } else {
        seq![command, base]
    };
    lemma_distinct_is_list(domains, items_of(domains));
    lemma_distinct_is_list(paths, items_of(paths));
    assert(perms[0] == PermissionView::Shell { commands });
    assert(is_list_of(commands, set![command, base])) by {
        assert(commands[0] == command);
        assert(commands[commands.len() - 1] == base);
    }
    if domains.len() > 0 {
        assert(perms[1] is Network);
    }
    if paths.len() > 0 {
        assert(perms[perms.len() - 1] is FileSystem);
    }
}

// ---------------------------------------------------------------------------
// Skills
// ---------------------------------------------------------------------------

/// The programs that blocks of shell code run: of each line that is neither blank nor
/// a comment, the program that its first word names.
pub open spec fn programs_of(blocks: Seq<Seq<char>>, platform: Platform) -> Set<Seq<char>> {
    Set::new(
        |c: Seq<char>|
            c.len() > 0 && exists|b: int, l: int|
                0 <= b < blocks.len() && 0 <= l < split::lines_of(blocks[b]).len()
                    && is_program_of(#[trigger] split::lines_of(blocks[b])[l], platform, c),
    )
}

/// Whether a line of shell code runs a program.
pub open spec fn is_program_of(line: Seq<char>, platform: Platform, c: Seq<char>) -> bool {
    let t = text::trimmed(line);
    t.len() > 0 && t[0] != '#' && (split::first_word(t) matches Some(w) && c
        == path::program_name_of(w, platform))
}

proof fn lemma_programs_in(lines: Seq<Seq<char>>, platform: Platform, c: Seq<char>)
    ensures
        permissions::programs_in(lines, platform).contains(c) <==> c.len() > 0 && exists|l: int|
            0 <= l < lines.len() && is_program_of(#[trigger] lines[l], platform, c),
    decreases lines.len(),
{
    if lines.len() > 0 {
        let t = lines.drop_last();
        let last = lines.last();
        let before = permissions::programs_in(t, platform);
        lemma_programs_in(t, platform, c);
        lists::lemma_push_contains(before, permissions::line_program(last, platform), c);
        if before.contains(c) {
            let l = choose|l: int|
                0 <= l < t.len() && is_program_of(#[trigger] t[l], platform, c);
            assert(lines[l] == t[l]);
        }
        if permissions::programs_in(lines, platform).contains(c) && !before.contains(c) {
            assert(is_program_of(lines[lines.len() - 1], platform, c));
        }
        if exists|l: int| 0 <= l < lines.len() && is_program_of(#[trigger] lines[l], platform, c) {
            let l = choose|l: int|
                0 <= l < lines.len() && is_program_of(#[trigger] lines[l], platform, c);
            if l < t.len() {
                assert(t[l] == lines[l]);
            }
        }
    } else {
        assert(!permissions::programs_in(lines, platform).contains(c));
    }
}

proof fn lemma_programs_in_blocks(blocks: Seq<Seq<char>>, platform: Platform, c: Seq<char>)
    ensures
        permissions::programs_in_blocks(blocks, platform).contains(c) <==> programs_of(
            blocks,
            platform,
        ).contains(c),
    decreases blocks.len(),
{
    if blocks.len() > 0 {
        let t = blocks.drop_last();
        let lines = split::lines_of(blocks.last());
        let before = permissions::programs_in_blocks(t, platform);
        let here = permissions::programs_in(lines, platform);
        lemma_programs_in_blocks(t, platform, c);
        lemma_programs_in(lines, platform, c);
        lists::lemma_sum_contains(before, here, c);
        if before.contains(c) {
            let (b, l) = choose|b: int, l: int|
                0 <= b < t.len() && 0 <= l < split::lines_of(t[b]).len() && is_program_of(
                    #[trigger] split::lines_of(t[b])[l],
                    platform,
                    c,
                );
            assert(blocks[b] == t[b]);
            assert(is_program_of(split::lines_of(blocks[b])[l], platform, c));
        }
        if here.contains(c) {
            let l = choose|l: int|
                0 <= l < lines.len() && is_program_of(#[trigger] lines[l], platform, c);
            let b = blocks.len() - 1;
            assert(is_program_of(split::lines_of(blocks[b])[l], platform, c));
        }
        if programs_of(blocks, platform).contains(c) {
            let (b, l) = choose|b: int, l: int|
                0 <= b < blocks.len() && 0 <= l < split::lines_of(blocks[b]).len()
                    && is_program_of(#[trigger] split::lines_of(blocks[b])[l], platform, c);
            if b < t.len() {
                assert(t[b] == blocks[b]);
                assert(is_program_of(split::lines_of(t[b])[l], platform, c));
            } else {
                assert(is_program_of(lines[l], platform, c));
            }
        }
    } else {
        assert(!permissions::programs_in_blocks(blocks, platform).contains(c));
    }
}

/// A skill may always access files, and lists the paths worth reporting that stand in
/// its text; it lists the domains of the addresses in its text, the programs that its
/// blocks of shell code run, and the database engines that it names in any case, each
/// if there are any; and nothing else.
pub proof fn skill_lists_what_it_may_do(content: Seq<char>, platform: Platform)
    ensures
        ({
            let perms = permissions::skill_text_perms(content, platform);
            let paths = permissions::all_matches(r"(?:(?:~|/(?:etc|home/\w+|tmp|var|opt|usr/local|Library|Applications))/[\w.\-/]+|[A-Za-z]:\\[\w.\-\\]+|%[A-Za-z_]+%[\\/][\w.\-\\/]+)"@, content);
            let domains = permissions::all_groups(r"https?://([\w.\-]+)"@, content);
            let blocks = permissions::all_groups(r"(?s)```(?:bash|shell|sh|zsh)\s*\n(.*?)```"@, content);
            let engines = permissions::all_groups(
                r"(?i)\b(postgres(?:ql)?|mysql|mariadb|sqlite|mongodb|redis)\b"@,
                crate::outside::lowercase(content),
            );
            &&& lists_files(perms, true, items_of(paths))
            &&& lists_network(perms, domains.len() > 0, items_of(domains))
            &&& lists_shell(
                perms,
                exists|c: Seq<char>| #[trigger] programs_of(blocks, platform).contains(c),
                programs_of(blocks, platform),
            )
            &&& lists_databases(perms, engines.len() > 0, items_of(engines))
            &&& lists_variables(perms, false, Seq::empty())
            &&& permissions::dimensions_differ(perms)
        }),
{
    let perms = permissions::skill_text_perms(content, platform);
    let paths = permissions::all_matches(permissions::SENSITIVE_PATHS@, content);
    let domains = permissions::all_groups(permissions::URL_DOMAINS@, content);
    let blocks = permissions::all_groups(permissions::SHELL_BLOCK@, content);
    let engines = permissions::all_groups(
        permissions::DB_ENGINES@,
        crate::outside::lowercase(content),
    );
    let all = permissions::programs_in_blocks(blocks, platform);
    assert forall|x: Seq<char>| #[trigger] all.contains(x) <==> programs_of(
        blocks,
        platform,
    ).contains(x) by {
        lemma_programs_in_blocks(blocks, platform, x);
    }
    lemma_distinct_is_list(paths, items_of(paths));
    lemma_distinct_is_list(domains, items_of(domains));
    lemma_distinct_is_list(all, programs_of(blocks, platform));
    lemma_distinct_is_list(engines, items_of(engines));
    let commands = lists::distinct(all);
    if commands.len() > 0 {
        assert(programs_of(blocks, platform).contains(all[0])) by {
            assert(all.contains(all[0]));
        }
    }
    let n: int = if domains.len() > 0 {
        1
    } else {
        0
    };
    assert(perms[0] is FileSystem);
    if domains.len() > 0 {
        assert(perms[1] is Network);
    }
    if commands.len() > 0 {
        assert(perms[1 + n] is Shell);
    }
    if engines.len() > 0 {
        assert(perms[perms.len() - 1] is Database);
    }
}

/// Whether the text of a skill at `p` lies in `file`, and the skill is disabled or
/// not: in a directory in `SKILL.md`, or if that is not there in `SKILL.md.disabled`;
/// else in a single file that ends in `.md`.
pub open spec fn holds_text_of_skill(
    fs: FileTreeView,
    p: Seq<char>,
    file: Seq<char>,
    disabled: bool,
) -> bool {
    let on = path::extended(p, "SKILL.md"@);
    let off = path::extended(p, "SKILL.md.disabled"@);
    if fs.at(p).is_dir {
        if fs.at(on).exists {
            file == on && !disabled
        } else {
            fs.at(off).exists && file == off && disabled
        }
    } else {
        path::extension_of(p) == Some("md"@) && file == p && !disabled
    }
}

/// Whether an entry is that of the skill at `p` with its text in `file`.
pub open spec fn is_entry_of_skill(
    fs: FileTreeView,
    p: Seq<char>,
    file: Seq<char>,
    disabled: bool,
    agent: Seq<char>,
    now: Timestamp,
    e: ExtensionView,
) -> bool {
    &&& fs.at(file).content matches Some(c) && {
        let head = frontmatter::frontmatter_of(c);
        &&& head matches Some(f) ==> e.name == f.0 && e.description == f.1
        &&& head is None ==> e.name == path::stem_or_empty(p) && e.description.len() == 0
        &&& e.permissions == permissions::skill_text_perms(c, fs.platform)
    }
    &&& e.kind == ExtensionKind::Skill && e.enabled == !disabled
    &&& e.id == ids::global_id(e.name, "skill"@, agent)
    &&& e.agents == seq![agent] && e.scope is Global && is_untouched(e)
    &&& is_made_at(fs.at(p), now, e.installed_at) && is_changed_at(fs.at(p), now, e.updated_at)
    &&& e.source_path == Some(
        if disabled {
            path::extended(p, "SKILL.md"@)
        } else {
            file
        },
    )
}

/// There is a skill at a path exactly if its text can be read; and a scan says of it
/// what its text and its place say.
pub proof fn skill_is_found_by_its_text(
    fs: FileTreeView,
    p: Seq<char>,
    agent: Seq<char>,
    now: Timestamp,
)
    ensures
        skills::skill_at(fs, p, agent, now) is Some <==> exists|file: Seq<char>, disabled: bool|
            #[trigger] holds_text_of_skill(fs, p, file, disabled) && fs.at(file).content is Some,
        forall|file: Seq<char>, disabled: bool| #[trigger]
            holds_text_of_skill(fs, p, file, disabled) ==> (skills::skill_at(
                fs,
                p,
                agent,
                now,
            ) matches Some(e) ==> is_entry_of_skill(fs, p, file, disabled, agent, now, e)),
{
    if let Some((file, disabled)) = skills::skill_file(fs, p) {
        assert(holds_text_of_skill(fs, p, file, disabled));
    }
    assert forall|file: Seq<char>, disabled: bool| #[trigger]
        holds_text_of_skill(fs, p, file, disabled) implies skills::skill_file(fs, p) == Some(
        (file, disabled),
    ) by {}
}

/// Where a skill comes from: a lock file two levels above the place where it really
/// lies has the say, if it lists the skill; the commit that is checked out stays on
/// record. Else it is the repository around that place, if there is one, and else the
/// agent.
pub proof fn skill_comes_from_its_lock_or_repository(
    fs: FileTreeView,
    p: Seq<char>,
    agent: Seq<char>,
    now: Timestamp,
)
    ensures
        skills::skill_at(fs, p, agent, now) matches Some(e) ==> {
            let place = match fs.at(p).canonical {
                Some(q) => q,
                None => p,
            };
            let listed_as = if fs.at(p).is_dir {
                path::file_name_of(p)
            } else {
                path::stem_of(p)
            };
            let lock = sources::locked_source(
                fs,
                place,
                match listed_as {
                    Some(k) => k,
                    None => e.name,
                },
            );
            let root = sources::repository_of(fs, place);
            let commit = match root {
                Some(dir) => sources::commit_in(fs, dir),
                None => None,
            };
            &&& e.source.version is None && e.source.commit_hash == commit
            &&& lock matches Some(l) ==> e.source.origin == SourceOrigin::Git && e.source.url
                == Some(l.url) && e.source.from_manifest && e.pack == (match skills::pack_of_url(
                Some(l.url),
            ) {
                Some(k) => Some(k),
                None => Some(l.source),
            })
            &&& lock is None && root is Some ==> e.source.origin == SourceOrigin::Git
                && e.source.url == sources::remote_of(fs, root->0) && !e.source.from_manifest
            &&& lock is None && root is None ==> is_bare_source(e.source, SourceOrigin::Agent)
            &&& lock is None ==> e.pack == skills::pack_of_url(e.source.url)
        },
{
}

/// A scan of a directory finds exactly the skills at its entries.
pub proof fn directory_gives_its_skills(
    fs: FileTreeView,
    dir: Seq<char>,
    agent: Seq<char>,
    now: Timestamp,
    e: ExtensionView,
)
    ensures
        skills::skills_in(fs, dir, agent, now).contains(e) <==> (fs.at(dir).children matches Some(
            entries,
        ) && exists|i: int|
            0 <= i < entries.len() && skills::skill_at(fs, #[trigger] entries[i], agent, now)
                == Some(e)),
{
    match fs.at(dir).children {
        Some(entries) => {
            let v = entries.map_values(|p: Seq<char>| skills::skill_at(fs, p, agent, now));
            paths_give_their_skills(fs, entries, agent, now);
            lemma_those_there(v, e);
            if skills::skills_in(fs, dir, agent, now).contains(e) {
                let i = choose|i: int| 0 <= i < v.len() && #[trigger] v[i] == Some(e);
                assert(skills::skill_at(fs, entries[i], agent, now) == Some(e));
            }
            if exists|i: int|
                0 <= i < entries.len() && skills::skill_at(fs, #[trigger] entries[i], agent, now)
                    == Some(e) {
                let i = choose|i: int|
                    0 <= i < entries.len() && skills::skill_at(
                        fs,
                        #[trigger] entries[i],
                        agent,
                        now,
                    ) == Some(e);
                assert(v[i] == Some(e));
            }
        },
        None => {
            assert(!skills::skills_in(fs, dir, agent, now).contains(e));
        },
    }
}

/// What is there of a list of things that may be there, in order.
pub open spec fn those_there(v: Seq<Option<ExtensionView>>) -> Seq<ExtensionView>
    decreases v.len(),
{
    if v.len() == 0 {
        Seq::<ExtensionView>::empty()
    } else {
        match v.last() {
            Some(e) => those_there(v.drop_last()).push(e),
            None => those_there(v.drop_last()),
        }
    }
}

proof fn lemma_those_there(v: Seq<Option<ExtensionView>>, e: ExtensionView)
    ensures
        those_there(v).contains(e) <==> exists|i: int| 0 <= i < v.len() && #[trigger] v[i] == Some(e),
    decreases v.len(),
{
    if v.len() > 0 {
        let t = v.drop_last();
        lemma_those_there(t, e);
        if let Some(x) = v.last() {
            lists::lemma_push_contains(those_there(t), x, e);
        }
        if those_there(t).contains(e) {
            let i = choose|i: int| 0 <= i < t.len() && #[trigger] t[i] == Some(e);
            assert(v[i] == Some(e));
        }
        if those_there(v).contains(e) && !those_there(t).contains(e) {
            assert(v[v.len() - 1] == Some(e));
        }
        if exists|i: int| 0 <= i < v.len() && #[trigger] v[i] == Some(e) {
            let i = choose|i: int| 0 <= i < v.len() && #[trigger] v[i] == Some(e);
            if i < t.len() {
                assert(t[i] == Some(e));
            }
        }
    } else {
        assert(!those_there(v).contains(e));
    }
}

/// What a scan of some paths finds are the skills that are there, in their order.
pub proof fn paths_give_their_skills(
    fs: FileTreeView,
    paths: Seq<Seq<char>>,
    agent: Seq<char>,
    now: Timestamp,
)
    ensures
        skills::skills_at(fs, paths, agent, now) == those_there(
            paths.map_values(|p: Seq<char>| skills::skill_at(fs, p, agent, now)),
        ),
    decreases paths.len(),
{
    let v = paths.map_values(|p: Seq<char>| skills::skill_at(fs, p, agent, now));
    if paths.len() > 0 {
        let t = paths.drop_last();
        paths_give_their_skills(fs, t, agent, now);
        assert(v.drop_last() =~= t.map_values(
            |p: Seq<char>| skills::skill_at(fs, p, agent, now),
        ));
    }
}

/// What a scan of some paths finds are the files that are there, in their order.
pub proof fn paths_give_their_files(
    fs: FileTreeView,
    paths: Seq<Seq<char>>,
    agent: Seq<char>,
    kind: ExtensionKind,
    scope: ConfigScopeView,
    now: Timestamp,
)
    ensures
        managed::managed_all(fs, paths, agent, kind, scope, now) == those_there(
            paths.map_values(|p: Seq<char>| managed::managed_at(fs, p, agent, kind, scope, now)),
        ),
    decreases paths.len(),
{
    let v = paths.map_values(
        |p: Seq<char>| managed::managed_at(fs, p, agent, kind, scope, now),
    );
    if paths.len() > 0 {
        let t = paths.drop_last();
        paths_give_their_files(fs, t, agent, kind, scope, now);
        assert(v.drop_last() =~= t.map_values(
            |p: Seq<char>| managed::managed_at(fs, p, agent, kind, scope, now),
        ));
    }
}

/// A scan of several directories finds exactly the skills of each.
pub proof fn directories_give_their_skills(
    fs: FileTreeView,
    dirs: Seq<Seq<char>>,
    agent: Seq<char>,
    now: Timestamp,
    e: ExtensionView,
)
    ensures
        skills::skills_in_all(fs, dirs, agent, now).contains(e) <==> exists|i: int|
            0 <= i < dirs.len() && skills::skills_in(fs, #[trigger] dirs[i], agent, now).contains(
                e,
            ),
    decreases dirs.len(),
{
    if dirs.len() > 0 {
        let t = dirs.drop_last();
        let before = skills::skills_in_all(fs, t, agent, now);
        let here = skills::skills_in(fs, dirs.last(), agent, now);
        directories_give_their_skills(fs, t, agent, now, e);
        lists::lemma_sum_contains(before, here, e);
        if before.contains(e) {
            let i = choose|i: int|
                0 <= i < t.len() && skills::skills_in(fs, #[trigger] t[i], agent, now).contains(e);
            assert(dirs[i] == t[i]);
        }
        if here.contains(e) {
            assert(skills::skills_in(fs, dirs[dirs.len() - 1], agent, now).contains(e));
        }
        if exists|i: int|
            0 <= i < dirs.len() && skills::skills_in(fs, #[trigger] dirs[i], agent, now).contains(
                e,
            ) {
            let i = choose|i: int|
                0 <= i < dirs.len() && skills::skills_in(
                    fs,
                    #[trigger] dirs[i],
                    agent,
                    now,
                ).contains(e);
            if i < t.len() {
                assert(t[i] == dirs[i]);
            }
        }
    } else {
        assert(!skills::skills_in_all(fs, dirs, agent, now).contains(e));
    }
}

// ---------------------------------------------------------------------------
// Plugins
// ---------------------------------------------------------------------------

/// A scan finds each plugin of an agent, in order, under the identifier that belongs
/// to its name and source; as enabled as it is; with the times that the agent reports,
/// if it reports both, else those of its files; with the source that its manifest
/// names, else the repository around its files, else the agent.
pub proof fn plugin_is_found_as_reported(fs: FileTreeView, agent: AgentView, now: Timestamp, i: int)
    requires
        0 <= i < agent.plugins.len(),
    ensures
        scanner::plugin_exts(fs, agent, now).len() == agent.plugins.len(),
        ({
            let p = agent.plugins[i];
            let e = scanner::plugin_exts(fs, agent, now)[i];
            let both = p.installed_at is Some && p.updated_at is Some;
            &&& e.kind == ExtensionKind::Plugin && e.name == p.name && e.enabled == p.enabled
            &&& e.id == ids::global_id(p.name + ":"@ + p.source, "plugin"@, agent.name)
            &&& e.agents == seq![agent.name] && e.scope is Global && e.source_path == p.path
            &&& is_untouched(e)
            &&& p.source.len() > 0 ==> e.description == "Plugin from "@ + p.source
            &&& p.source.len() == 0 ==> e.description == "Plugin for "@ + agent.name
            &&& both ==> e.installed_at == p.installed_at->0 && e.updated_at == p.updated_at->0
            &&& !both && p.path is None ==> e.installed_at == now && e.updated_at == now
            &&& !both && p.path is Some ==> is_made_at(fs.at(p.path->0), now, e.installed_at)
                && is_changed_at(fs.at(p.path->0), now, e.updated_at)
            &&& e.source.version is None && e.pack == skills::pack_of_url(e.source.url)
            &&& p.source_url is Some ==> e.source.origin == SourceOrigin::Git && e.source.url
                == p.source_url && e.source.from_manifest && e.source.commit_hash is None
            &&& p.source_url is None ==> !e.source.from_manifest && {
                let root = match p.path {
                    Some(dir) => sources::repository_of(fs, dir),
                    None => None,
                };
                match root {
                    Some(r) => e.source.origin == SourceOrigin::Git && e.source.url
                        == sources::remote_of(fs, r) && e.source.commit_hash == sources::commit_in(
                        fs,
                        r,
                    ),
                    None => is_bare_source(e.source, SourceOrigin::Agent),
                }
            }
            &&& p.path matches Some(dir) ==> e.permissions == plugins::plugin_code_perms(fs, dir)
            &&& p.path is None ==> lists_shell(e.permissions, true, Set::empty()) && lists_files(
                e.permissions,
                true,
                Set::empty(),
            ) && e.permissions.len() == 2
        }),
{
    let p = agent.plugins[i];
    let e = scanner::plugin_exts(fs, agent, now)[i];
    if p.path is None {
        assert(e.permissions[0] is Shell);
        assert(e.permissions[1] is FileSystem);
    }
}

// ---------------------------------------------------------------------------
// Subagents and commands
// ---------------------------------------------------------------------------

/// Whether an entry is that of the file at `p`, which is called as it would be if it
/// were not disabled.
pub open spec fn is_entry_of_file(
    fs: FileTreeView,
    p: Seq<char>,
    called: Seq<char>,
    disabled: bool,
    agent: Seq<char>,
    kind: ExtensionKind,
    scope: ConfigScopeView,
    now: Timestamp,
    e: ExtensionView,
) -> bool {
    let f = fs.at(p);
    let text = match f.content {
        Some(c) => frontmatter::yaml_description(c),
        None => None,
    };
    &&& e.kind == kind && e.scope == scope && e.agents == seq![agent]
    &&& Some(e.name) == path::stem_of(called) && e.source_path == Some(called)
    &&& e.enabled == !disabled
    &&& e.id == ids::scoped_id(managed::native_path(fs, called), kind.text(), agent, scope)
    &&& text matches Some(d) ==> e.description == d
    &&& text is None ==> e.description.len() == 0
    &&& is_untouched(e) && e.pack is None && e.permissions.len() == 0
    &&& is_bare_source(e.source, SourceOrigin::Agent)
    &&& e.installed_at == (match f.created {
        Some(t) => t,
        None => now,
    })
    &&& e.updated_at == (match f.modified {
        Some(t) => t,
        None => e.installed_at,
    })
}

/// A regular file with a name is a subagent or a command; nothing else is. A scan says
/// of it what its name, its place and its head say; a name that ends in `.disabled` is
/// that of a file that is disabled, and its own name is what is left.
pub proof fn file_is_found_by_its_name(
    fs: FileTreeView,
    p: Seq<char>,
    agent: Seq<char>,
    kind: ExtensionKind,
    scope: ConfigScopeView,
    now: Timestamp,
)
    ensures
        ({
            let off = path::file_name_of(p) matches Some(n) && text::has_suffix(n, ".disabled"@);
            let called = if off {
                text::without_suffixes(p, ".disabled"@)
            } else {
                p
            };
            let r = managed::managed_at(fs, p, agent, kind, scope, now);
            &&& r is Some <==> fs.at(p).exists && fs.at(p).is_file && path::stem_of(called) is Some
            &&& r matches Some(e) ==> is_entry_of_file(
                fs,
                p,
                called,
                off,
                agent,
                kind,
                scope,
                now,
                e,
            )
        }),
{
}

// ---------------------------------------------------------------------------
// Projects
// ---------------------------------------------------------------------------

/// What a scan of a project finds: nothing if the project is not there; else the
/// skills in the directories of the project, then its servers, its hooks, its
/// subagents and its commands.
pub proof fn project_scan_goes_kind_by_kind(
    fs: FileTreeView,
    agent: AgentView,
    name: Seq<char>,
    root: Seq<char>,
    now: Timestamp,
)
    ensures
        ({
            let scope = ConfigScopeView::Project { name, path: root };
            let found = scanner::project_exts(fs, agent, name, root, now);
            let a = scanner::project_skills(
                fs,
                agent.project_skill_dirs,
                root,
                agent.name,
                scope,
                now,
            );
            let b = scanner::project_mcp_exts(fs, agent, scope, now);
            let c = scanner::hooks_in_files(
                fs,
                agent,
                agent.hook_configs_in(scope),
                scope,
                true,
                now,
            );
            let d = managed::managed_in_project(
                fs,
                agent.subagent_patterns,
                root,
                agent.name,
                ExtensionKind::Subagent,
                scope,
                now,
            );
            let e = managed::managed_in_project(
                fs,
                agent.command_patterns,
                root,
                agent.name,
                ExtensionKind::Command,
                scope,
                now,
            );
            &&& !fs.at(root).is_dir ==> found.len() == 0
            &&& fs.at(root).is_dir ==> found == a + b + c + d + e
        }),
{
}

/// Whether an entry is that of another one in a project: the same but for the scope and
/// the identifier that belongs to its name in that scope.
pub open spec fn is_moved_into(
    e: ExtensionView,
    from: ExtensionView,
    agent: Seq<char>,
    scope: ConfigScopeView,
) -> bool {
    e == (ExtensionView { id: e.id, scope: e.scope, ..from }) && e.scope == scope && e.id
        == ids::scoped_id(from.name, "skill"@, agent, scope)
}

/// The skills of a project are those in its directories for skills, one directory
/// after the other, each with the scope of the project and the identifier that goes
/// with it.
pub proof fn project_gives_its_skills(
    fs: FileTreeView,
    rels: Seq<Seq<char>>,
    root: Seq<char>,
    agent: Seq<char>,
    scope: ConfigScopeView,
    now: Timestamp,
)
    ensures
        ({
            let found = scanner::project_skills(fs, rels, root, agent, scope, now);
            if rels.len() == 0 {
                found.len() == 0
            } else {
                let before = scanner::project_skills(fs, rels.drop_last(), root, agent, scope, now);
                let here = skills::skills_in(fs, path::extended(root, rels.last()), agent, now);
                &&& found.len() == before.len() + here.len()
                &&& found.take(before.len() as int) == before
                &&& forall|i: int|
                    0 <= i < here.len() ==> is_moved_into(
                        found[before.len() + i],
                        #[trigger] here[i],
                        agent,
                        scope,
                    )
            }
        }),
{
    if rels.len() > 0 {
        let found = scanner::project_skills(fs, rels, root, agent, scope, now);
        let before = scanner::project_skills(fs, rels.drop_last(), root, agent, scope, now);
        assert(found.take(before.len() as int) =~= before);
    }
}

/// A pattern below a directory stands for the paths that match it, if it holds a `*`;
/// else for the path itself, if something is there.
pub proof fn pattern_stands_for_paths(fs: FileTreeView, root: Seq<char>, pattern: Seq<char>)
    ensures
        ({
            let full = path::extended(root, pattern);
            let r = managed::paths_of_pattern(fs, root, pattern);
            &&& pattern.contains('*') ==> r == fs.matching(full)
            &&& !pattern.contains('*') && fs.at(full).exists ==> r == seq![full]
            &&& !pattern.contains('*') && !fs.at(full).exists ==> r.len() == 0
        }),
{
}

/// The subagents and commands of a project are the files for which its patterns stand,
/// and those for which they stand with `.disabled` behind them: pattern by pattern,
/// first the enabled files, then the disabled ones.
pub proof fn patterns_give_their_files(
    fs: FileTreeView,
    patterns: Seq<Seq<char>>,
    root: Seq<char>,
    agent: Seq<char>,
    kind: ExtensionKind,
    scope: ConfigScopeView,
    now: Timestamp,
)
    ensures
        ({
            let found = managed::managed_in_project(fs, patterns, root, agent, kind, scope, now);
            if patterns.len() == 0 {
                found.len() == 0
            } else {
                let last = patterns.last();
                let before = managed::managed_in_project(
                    fs,
                    patterns.drop_last(),
                    root,
                    agent,
                    kind,
                    scope,
                    now,
                );
                let on = managed::paths_of_pattern(fs, root, last);
                let off = managed::paths_of_pattern(fs, root, last + ".disabled"@);
                found == before + managed::managed_all(fs, on, agent, kind, scope, now)
                    + managed::managed_all(fs, off, agent, kind, scope, now)
            }
        }),
{
}

/// Where a path really lies: with its links resolved; where nothing is there, with
/// those of its directory resolved; else where it says.
pub proof fn paths_lie_where_links_lead(fs: FileTreeView, p: Seq<char>)
    ensures
        ({
            let r = managed::native_path(fs, p);
            let up = path::parent_of(p);
            &&& fs.at(p).canonical is Some ==> r == fs.at(p).canonical->0
            &&& fs.at(p).canonical is None && up is Some && fs.at(up->0).canonical is Some
                && path::file_name_of(p) is Some ==> r == path::extended(
                fs.at(up->0).canonical->0,
                path::file_name_of(p)->0,
            )
            &&& fs.at(p).canonical is None && (up is None || fs.at(up->0).canonical is None
                || path::file_name_of(p) is None) ==> r == p
        }),
{
}

} // verus!
