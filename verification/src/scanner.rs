//! The extensions of one agent: its servers, hooks, plugins and managed files,
//! in the global scope and in projects.

use vstd::prelude::*;

use crate::agents;
use crate::agents::{Agent, AgentView};
use crate::files;
use crate::files::{FileTree, FileTreeView};
use crate::ids;
use crate::lists;
use crate::managed;
use crate::models;
use crate::models::{
    ConfigScope, ConfigScopeView, Extension, ExtensionKind, ExtensionView, HookEntry,
    HookEntryView, McpServerEntry, McpServerEntryView, Permission, PermissionView, PluginEntry,
    PluginEntryView, Platform, Source, SourceOrigin, SourceView, Timestamp,
};
use crate::pack;
use crate::path;
use crate::permissions;
use crate::plugins;
use crate::skills;
use crate::sources;
use crate::split;
use crate::text;

verus! {

// ---------------------------------------------------------------------------
// Servers
// ---------------------------------------------------------------------------

/// Whether a program fetches a package and runs it.
pub open spec fn is_runner(base: Seq<char>) -> bool {
    base == "npx"@ || base == "uvx"@
}

/// Whether a text is an absolute path on Windows: a drive, a colon, a separator.
pub open spec fn is_drive_path(a: Seq<char>) -> bool {
    a.len() >= 3 && ('a' <= a[0] <= 'z' || 'A' <= a[0] <= 'Z') && a[1] == ':' && (a[2] == '\\'
        || a[2] == '/')
}

/// Whether an argument is a path in the file system.
pub open spec fn is_path_arg(a: Seq<char>) -> bool {
    ((a.len() > 0 && a[0] == '/') || text::has_prefix(a, "~/"@) || is_drive_path(a))
        && !text::has_prefix(a, "//"@)
}

/// The arguments that are paths.
pub open spec fn path_args(args: Seq<Seq<char>>) -> Seq<Seq<char>>
    decreases args.len(),
{
    if args.len() == 0 {
        Seq::<Seq<char>>::empty()
    } else if is_path_arg(args.last()) {
        path_args(args.drop_last()).push(args.last())
    } else {
        path_args(args.drop_last())
    }
}

/// The arguments that are no options.
pub open spec fn plain_args(args: Seq<Seq<char>>) -> Seq<Seq<char>>
    decreases args.len(),
{
    if args.len() == 0 {
        Seq::<Seq<char>>::empty()
    } else if args.last().len() > 0 && args.last()[0] == '-' {
        plain_args(args.drop_last())
    } else {
        plain_args(args.drop_last()).push(args.last())
    }
}

/// The domains of the addresses in arguments.
pub open spec fn arg_domains(args: Seq<Seq<char>>) -> Seq<Seq<char>>
    decreases args.len(),
{
    if args.len() == 0 {
        Seq::<Seq<char>>::empty()
    } else {
        arg_domains(args.drop_last()) + permissions::all_groups(
            permissions::URL_DOMAINS@,
            args.last(),
        )
    }
}

/// The names of variables.
pub open spec fn keys_of(env: Seq<(Seq<char>, Seq<char>)>) -> Seq<Seq<char>> {
    env.map_values(|kv: (Seq<char>, Seq<char>)| kv.0)
}

/// What every server may do: read the variables that are set for it, and run its
/// program.
pub open spec fn server_base_perms(s: McpServerEntryView, platform: Platform) -> Seq<PermissionView> {
    (if s.env.len() == 0 {
        Seq::<PermissionView>::empty()
    } else {
        seq![PermissionView::Env { keys: keys_of(s.env) }]
    }).push(PermissionView::Shell { commands: seq![path::program_name_of(s.command, platform)] })
}

/// What a server may do, given the domains that stand in its arguments. One that
/// is fetched by a runner may talk to any domain.
pub open spec fn server_perms(
    s: McpServerEntryView,
    domains: Seq<Seq<char>>,
    platform: Platform,
) -> Seq<PermissionView> {
    let paths = lists::distinct(path_args(s.args));
    server_base_perms(s, platform) + (if is_runner(path::program_name_of(s.command, platform)) {
        seq![PermissionView::Network { domains: seq!["*"@] }]
    } else if domains.len() == 0 {
        Seq::<PermissionView>::empty()
    } else {
        seq![PermissionView::Network { domains: lists::distinct(domains) }]
    }) + (if paths.len() == 0 {
        Seq::<PermissionView>::empty()
    } else {
        seq![PermissionView::FileSystem { paths }]
    })
}

/// What a server does that is fetched by a runner: the last argument that is no
/// option is the package.
pub open spec fn runner_description(base: Seq<char>, args: Seq<Seq<char>>) -> Seq<char> {
    let plain = plain_args(args);
    if plain.len() == 0 {
        "Runs via "@ + base
    } else {
        "Runs "@ + plain.last() + " via "@ + base
    }
}

/// What a global server does, in words.
pub open spec fn server_description(base: Seq<char>, args: Seq<Seq<char>>) -> Seq<char> {
    let plain = plain_args(args);
    if is_runner(base) {
        runner_description(base, args)
    } else if plain.len() == 0 {
        "Runs "@ + base
    } else if plain.len() == 1 {
        "Runs "@ + base + " "@ + plain[0]
    } else {
        "Runs "@ + base + " "@ + plain[0] + " "@ + plain[1]
    }
}

/// Whether the name of a server looks like `owner/repo`.
pub open spec fn names_repository(name: Seq<char>) -> bool {
    name.contains('/') && !name.contains(' ')
}

/// The source of a global server: the repository that its name gives, else the
/// agent.
pub open spec fn server_source(name: Seq<char>) -> SourceView {
    if names_repository(name) {
        SourceView {
            origin: SourceOrigin::Git,
            url: Some("https://github.com/"@ + name),
            version: None,
            commit_hash: None,
            from_manifest: false,
        }
    } else {
        sources::plain_source(SourceOrigin::Agent)
    }
}

/// A global server of an agent, given the domains that stand in its arguments.
pub open spec fn server_ext(
    s: McpServerEntryView,
    domains: Seq<Seq<char>>,
    agent: Seq<char>,
    created: Timestamp,
    modified: Timestamp,
    platform: Platform,
) -> ExtensionView {
    ExtensionView {
        id: ids::global_id(s.name, "mcp"@, agent),
        kind: ExtensionKind::Mcp,
        name: s.name,
        description: server_description(path::program_name_of(s.command, platform), s.args),
        source: server_source(s.name),
        agents: seq![agent],
        tags: Seq::<Seq<char>>::empty(),
        pack: skills::pack_of_url(server_source(s.name).url),
        permissions: server_perms(s, domains, platform),
        enabled: s.enabled,
        trust_score: None,
        installed_at: created,
        updated_at: modified,
        source_path: None,
        cli_parent_id: None,
        cli_meta: None,
        install_meta: None,
        scope: ConfigScopeView::Global,
    }
}

/// The global servers of an agent.
pub open spec fn server_exts(
    servers: Seq<McpServerEntryView>,
    agent: Seq<char>,
    created: Timestamp,
    modified: Timestamp,
    platform: Platform,
) -> Seq<ExtensionView> {
    servers.map_values(
        |s: McpServerEntryView| server_ext(
            s,
            arg_domains(s.args),
            agent,
            created,
            modified,
            platform,
        ),
    )
}

/// Whether a text is an absolute path on Windows: a drive, a colon, a separator.
pub fn is_windows_abs_path(a: &str) -> (r: bool)
    ensures
        r == is_drive_path(a@),
{
    let cs = text::chars_of(a);
    cs.len() >= 3 && (('a' <= cs[0] && cs[0] <= 'z') || ('A' <= cs[0] && cs[0] <= 'Z')) && cs[1]
        == ':' && (cs[2] == '\\' || cs[2] == '/')
}

fn find_path_args(args: &Vec<String>) -> (r: Vec<String>)
    ensures
        text::strs(r@) == path_args(text::strs(args@)),
{
    let ghost all = text::strs(args@);
    let mut out = text::no_strings();
    let mut i: usize = 0;
    assert(all.take(0) =~= Seq::<Seq<char>>::empty());
    while i < args.len()
        invariant
            all == text::strs(args@),
            i <= args.len(),
            text::strs(out@) == path_args(all.take(i as int)),
        decreases args.len() - i,
    {
        assert(all.take(i + 1).drop_last() =~= all.take(i as int));
        assert(all[i as int] == args@[i as int]@);
        let a: &str = args[i].as_str();
        let ghost before = text::strs(out@);
        if (text::starts_with_char(a, '/') || text::starts_with(a, "~/") || is_windows_abs_path(a))
            && !text::starts_with(a, "//") {
            out.push(args[i].clone());
            assert(text::strs(out@) =~= before.push(all[i as int]));
        }
        i += 1;
    }
    assert(all.take(i as int) =~= all);
    out
}

fn find_plain_args(args: &Vec<String>) -> (r: Vec<String>)
    ensures
        text::strs(r@) == plain_args(text::strs(args@)),
{
    let ghost all = text::strs(args@);
    let mut out = text::no_strings();
    let mut i: usize = 0;
    assert(all.take(0) =~= Seq::<Seq<char>>::empty());
    while i < args.len()
        invariant
            all == text::strs(args@),
            i <= args.len(),
            text::strs(out@) == plain_args(all.take(i as int)),
        decreases args.len() - i,
    {
        assert(all.take(i + 1).drop_last() =~= all.take(i as int));
        assert(all[i as int] == args@[i as int]@);
        let ghost before = text::strs(out@);
        if !text::starts_with_char(&args[i], '-') {
            out.push(args[i].clone());
            assert(text::strs(out@) =~= before.push(all[i as int]));
        }
        i += 1;
    }
    assert(all.take(i as int) =~= all);
    out
}

fn append_strings(v: &mut Vec<String>, more: Vec<String>)
    ensures
        text::strs(final(v)@) == text::strs(old(v)@) + text::strs(more@),
{
    let mut more = more;
    let ghost m = more@;
    v.append(&mut more);
    assert(text::strs(v@) =~= text::strs(old(v)@) + text::strs(m));
}

/// The domains of the addresses in arguments.
pub fn find_arg_domains(args: &Vec<String>) -> (r: Vec<String>)
    ensures
        text::strs(r@) == arg_domains(text::strs(args@)),
{
    let ghost all = text::strs(args@);
    let mut out = text::no_strings();
    let mut i: usize = 0;
    assert(all.take(0) =~= Seq::<Seq<char>>::empty());
    while i < args.len()
        invariant
            all == text::strs(args@),
            i <= args.len(),
            text::strs(out@) == arg_domains(all.take(i as int)),
        decreases args.len() - i,
    {
        assert(all.take(i + 1).drop_last() =~= all.take(i as int));
        assert(all[i as int] == args@[i as int]@);
        let more = permissions::find_groups(permissions::URL_DOMAINS, &args[i]);
        append_strings(&mut out, more);
        i += 1;
    }
    assert(all.take(i as int) =~= all);
    out
}

fn env_keys(env: &Vec<(String, String)>) -> (r: Vec<String>)
    ensures
        text::strs(r@) == keys_of(models::pairs_view(env@)),
{
    let mut out: Vec<String> = Vec::new();
    let mut i: usize = 0;
    while i < env.len()
        invariant
            i <= env.len(),
            out.len() == i,
            forall|j: int| 0 <= j < i ==> (#[trigger] out@[j])@ == env@[j].0@,
        decreases env.len() - i,
    {
        out.push(env[i].0.clone());
        i += 1;
    }
    assert(text::strs(out@) =~= keys_of(models::pairs_view(env@)));
    out
}

fn no_permissions() -> (r: Vec<Permission>)
    ensures
        models::list_view(r@) == Seq::<PermissionView>::empty(),
{
    let v: Vec<Permission> = Vec::new();
    assert(models::list_view(v@) =~= Seq::<PermissionView>::empty());
    v
}

fn server_base_permissions(s: &McpServerEntry, platform: Platform) -> (r: Vec<Permission>)
    ensures
        models::list_view(r@) == server_base_perms(s@, platform),
{
    let mut perms = no_permissions();
    if s.env.len() > 0 {
        plugins::push_permission(&mut perms, Permission::Env { keys: env_keys(&s.env) });
        assert(models::list_view(perms@) =~= seq![
            PermissionView::Env { keys: keys_of(s@.env) },
        ]);
    }
    plugins::push_permission(
        &mut perms,
        Permission::Shell { commands: text::one(path::program_name(&s.command, platform)) },
    );
    perms
}

/// What a server may do, given the domains that stand in its arguments.
pub fn server_permissions(
    s: &McpServerEntry,
    domains: &Vec<String>,
    platform: Platform,
) -> (r: Vec<Permission>)
    ensures
        models::list_view(r@) == server_perms(s@, text::strs(domains@), platform),
{
    let base = path::program_name(&s.command, platform);
    let mut perms = server_base_permissions(s, platform);
    let ghost v0 = models::list_view(perms@);
    if text::str_eq(&base, "npx") || text::str_eq(&base, "uvx") {
        plugins::push_permission(
            &mut perms,
            Permission::Network { domains: text::one("*".to_owned()) },
        );
    } else if domains.len() > 0 {
        plugins::push_permission(
            &mut perms,
            Permission::Network { domains: lists::dedup(domains) },
        );
    }
    let found = find_path_args(&s.args);
    let paths = lists::dedup(&found);
    assert(text::strs(paths@).len() == paths@.len());
    if paths.len() > 0 {
        plugins::push_permission(&mut perms, Permission::FileSystem { paths });
    }
    assert(models::list_view(perms@) =~= server_perms(s@, text::strs(domains@), platform));
    perms
}

fn describe_runner(base: &str, args: &Vec<String>) -> (r: String)
    ensures
        r@ == runner_description(base@, text::strs(args@)),
{
    let plain = find_plain_args(args);
    let ghost p = plain_args(text::strs(args@));
    if plain.len() == 0 {
        text::cat2("Runs via ", base)
    } else {
        assert(p.last() == plain@[plain@.len() - 1]@);
        text::cat4("Runs ", &plain[plain.len() - 1], " via ", base)
    }
}

fn describe_server(base: &str, args: &Vec<String>) -> (r: String)
    ensures
        r@ == server_description(base@, text::strs(args@)),
{
    if text::str_eq(base, "npx") || text::str_eq(base, "uvx") {
        return describe_runner(base, args);
    }
    let plain = find_plain_args(args);
    let ghost p = plain_args(text::strs(args@));
    if plain.len() == 0 {
        return text::cat2("Runs ", base);
    }
    assert(p[0] == plain@[0]@);
    let one = text::cat4("Runs ", base, " ", &plain[0]);
    if plain.len() == 1 {
        return one;
    }
    assert(p[1] == plain@[1]@);
    text::cat3(&one, " ", &plain[1])
}

/// A global server of an agent, given the domains that stand in its arguments.
pub fn server_extension(
    s: &McpServerEntry,
    domains: &Vec<String>,
    agent: &str,
    created: Timestamp,
    modified: Timestamp,
    platform: Platform,
) -> (r: Extension)
    ensures
        r@ == server_ext(s@, text::strs(domains@), agent@, created, modified, platform),
{
    let base = path::program_name(&s.command, platform);
    let (source, found_pack) = if split::contains_char(&s.name, '/') && !split::contains_char(
        &s.name,
        ' ',
    ) {
        let url = text::cat2("https://github.com/", &s.name);
        let found_pack = pack::extract_pack_from_url(&url);
        (
            Source {
                origin: SourceOrigin::Git,
                url: Some(url),
                version: None,
                commit_hash: None,
                from_manifest: false,
            },
            found_pack,
        )
    } else {
        (sources::bare_source(SourceOrigin::Agent), None)
    };
    Extension {
        id: ids::stable_id_for(&s.name, "mcp", agent),
        kind: ExtensionKind::Mcp,
        name: s.name.clone(),
        description: describe_server(&base, &s.args),
        source,
        agents: text::one(agent.to_owned()),
        tags: text::no_strings(),
        pack: found_pack,
        permissions: server_permissions(s, domains, platform),
        enabled: s.enabled,
        trust_score: None,
        installed_at: created,
        updated_at: modified,
        source_path: None,
        cli_parent_id: None,
        cli_meta: None,
        install_meta: None,
        scope: ConfigScope::Global,
    }
}

/// The global servers of an agent.
pub open spec fn mcp_exts(fs: FileTreeView, agent: AgentView, now: Timestamp) -> Seq<
    ExtensionView,
> {
    server_exts(
        agent.mcp_servers,
        agent.name,
        files::created_or(fs.at(agent.mcp_config_path), now),
        files::modified_or(fs.at(agent.mcp_config_path), now),
        fs.platform,
    )
}

/// The global servers of an agent.
pub fn scan_mcp_servers(fs: &FileTree, agent: &Agent, now: Timestamp) -> (r: Vec<Extension>)
    ensures
        models::list_view(r@) == mcp_exts(fs@, agent@, now),
{
    let created = fs.created_time(&agent.mcp_config_path, now);
    let modified = fs.modified_time(&agent.mcp_config_path, now);
    let platform = fs.platform();
    let mut out: Vec<Extension> = Vec::new();
    let mut i: usize = 0;
    while i < agent.mcp_servers.len()
        invariant
            i <= agent.mcp_servers.len(),
            out.len() == i,
            forall|j: int|
                0 <= j < i ==> (#[trigger] out@[j])@ == server_ext(
                    agent.mcp_servers@[j]@,
                    arg_domains(agent.mcp_servers@[j]@.args),
                    agent@.name,
                    created,
                    modified,
                    platform,
                ),
        decreases agent.mcp_servers.len() - i,
    {
        let domains = find_arg_domains(&agent.mcp_servers[i].args);
        out.push(
            server_extension(
                &agent.mcp_servers[i],
                &domains,
                &agent.name,
                created,
                modified,
                platform,
            ),
        );
        i += 1;
    }
    assert(models::list_view(out@) =~= mcp_exts(fs@, agent@, now));
    out
}

/// A server of a project.
pub open spec fn project_server_ext(
    s: McpServerEntryView,
    agent: Seq<char>,
    file: Seq<char>,
    scope: ConfigScopeView,
    created: Timestamp,
    modified: Timestamp,
    platform: Platform,
) -> ExtensionView {
    let base = path::program_name_of(s.command, platform);
    ExtensionView {
        id: ids::scoped_id(s.name, "mcp"@, agent, scope),
        kind: ExtensionKind::Mcp,
        name: s.name,
        description: if is_runner(base) {
            runner_description(base, s.args)
        } else {
            "Runs "@ + base
        },
        source: sources::plain_source(SourceOrigin::Agent),
        agents: seq![agent],
        tags: Seq::<Seq<char>>::empty(),
        pack: None,
        permissions: server_base_perms(s, platform),
        enabled: s.enabled,
        trust_score: None,
        installed_at: created,
        updated_at: modified,
        source_path: Some(file),
        cli_parent_id: None,
        cli_meta: None,
        install_meta: None,
        scope,
    }
}

fn project_server_extension(
    s: &McpServerEntry,
    agent: &str,
    file: &str,
    scope: &ConfigScope,
    created: Timestamp,
    modified: Timestamp,
    platform: Platform,
) -> (r: Extension)
    ensures
        r@ == project_server_ext(s@, agent@, file@, scope@, created, modified, platform),
{
    let base = path::program_name(&s.command, platform);
    let description = if text::str_eq(&base, "npx") || text::str_eq(&base, "uvx") {
        describe_runner(&base, &s.args)
    } else {
        text::cat2("Runs ", &base)
    };
    Extension {
        id: ids::stable_id_with_scope_for(&s.name, "mcp", agent, scope),
        kind: ExtensionKind::Mcp,
        name: s.name.clone(),
        description,
        source: sources::bare_source(SourceOrigin::Agent),
        agents: text::one(agent.to_owned()),
        tags: text::no_strings(),
        pack: None,
        permissions: server_base_permissions(s, platform),
        enabled: s.enabled,
        trust_score: None,
        installed_at: created,
        updated_at: modified,
        source_path: Some(file.to_owned()),
        cli_parent_id: None,
        cli_meta: None,
        install_meta: None,
        scope: scope.clone(),
    }
}

/// The servers of an agent in a project.
pub open spec fn project_mcp_exts(
    fs: FileTreeView,
    agent: AgentView,
    scope: ConfigScopeView,
    now: Timestamp,
) -> Seq<ExtensionView> {
    match agent.mcp_config_in(scope) {
        None => Seq::<ExtensionView>::empty(),
        Some(p) => if !fs.at(p).is_file {
            Seq::<ExtensionView>::empty()
        } else {
            agents::servers_at(agent.mcp_files, p).map_values(
                |s: McpServerEntryView|
                    project_server_ext(
                        s,
                        agent.name,
                        p,
                        scope,
                        files::created_or(fs.at(p), now),
                        files::modified_or(fs.at(p), now),
                        fs.platform,
                    ),
            )
        },
    }
}

fn scan_project_mcp(fs: &FileTree, agent: &Agent, scope: &ConfigScope, now: Timestamp) -> (r: Vec<
    Extension,
>)
    ensures
        models::list_view(r@) == project_mcp_exts(fs@, agent@, scope@, now),
{
    let p = match agent.mcp_config_path_for(scope) {
        None => {
            return skills::no_exts();
        },
        Some(p) => p,
    };
    if !fs.is_file(&p) {
        return skills::no_exts();
    }
    let mut out: Vec<Extension> = Vec::new();
    let created = fs.created_time(&p, now);
    let modified = fs.modified_time(&p, now);
    let platform = fs.platform();
    if let Some(servers) = agent.servers_from(&p) {
        let mut i: usize = 0;
        while i < servers.len()
            invariant
                i <= servers.len(),
                out.len() == i,
                forall|j: int|
                    0 <= j < i ==> (#[trigger] out@[j])@ == project_server_ext(
                        servers@[j]@,
                        agent@.name,
                        p@,
                        scope@,
                        created,
                        modified,
                        platform,
                    ),
            decreases servers.len() - i,
        {
            out.push(
                project_server_extension(
                    &servers[i],
                    &agent.name,
                    &p,
                    scope,
                    created,
                    modified,
                    platform,
                ),
            );
            i += 1;
        }
    }
    assert(models::list_view(out@) =~= project_mcp_exts(fs@, agent@, scope@, now));
    out
}

// ---------------------------------------------------------------------------
// Hooks
// ---------------------------------------------------------------------------

/// The name of a hook: `event:matcher:command`, with `*` for a missing matcher.
pub open spec fn hook_name(h: HookEntryView) -> Seq<char> {
    h.event + ":"@ + (match h.matcher {
        Some(m) => m,
        None => "*"@,
    }) + ":"@ + h.command
}

/// The name of a hook: `event:matcher:command`, with `*` for a missing matcher.
pub fn name_of_hook(h: &HookEntry) -> (r: String)
    ensures
        r@ == hook_name(h@),
{
    match &h.matcher {
        Some(m) => text::cat5(&h.event, ":", m, ":", &h.command),
        None => text::cat5(&h.event, ":", "*", ":", &h.command),
    }
}

/// A hook of an agent in a scope.
pub open spec fn hook_ext(
    h: HookEntryView,
    agent: Seq<char>,
    file: Seq<char>,
    scope: ConfigScopeView,
    created: Timestamp,
    modified: Timestamp,
    platform: Platform,
) -> ExtensionView {
    ExtensionView {
        id: ids::scoped_id(hook_name(h), "hook"@, agent, scope),
        kind: ExtensionKind::Hook,
        name: hook_name(h),
        description: "Runs `"@ + h.command + "` on "@ + h.event + " event"@,
        source: sources::plain_source(SourceOrigin::Agent),
        agents: seq![agent],
        tags: Seq::<Seq<char>>::empty(),
        pack: None,
        permissions: permissions::hook_text_perms(h.command, platform),
        enabled: h.enabled,
        trust_score: None,
        installed_at: created,
        updated_at: modified,
        source_path: Some(file),
        cli_parent_id: None,
        cli_meta: None,
        install_meta: None,
        scope,
    }
}

fn hook_extension(
    h: &HookEntry,
    agent: &str,
    file: &str,
    scope: &ConfigScope,
    created: Timestamp,
    modified: Timestamp,
    platform: Platform,
) -> (r: Extension)
    ensures
        r@ == hook_ext(h@, agent@, file@, scope@, created, modified, platform),
{
    let name = name_of_hook(h);
    Extension {
        id: ids::stable_id_with_scope_for(&name, "hook", agent, scope),
        kind: ExtensionKind::Hook,
        name,
        description: text::cat5("Runs `", &h.command, "` on ", &h.event, " event"),
        source: sources::bare_source(SourceOrigin::Agent),
        agents: text::one(agent.to_owned()),
        tags: text::no_strings(),
        pack: None,
        permissions: permissions::infer_hook_permissions(&h.command, platform),
        enabled: h.enabled,
        trust_score: None,
        installed_at: created,
        updated_at: modified,
        source_path: Some(file.to_owned()),
        cli_parent_id: None,
        cli_meta: None,
        install_meta: None,
        scope: scope.clone(),
    }
}

/// The hooks that a file lists.
pub open spec fn hooks_in_file(
    fs: FileTreeView,
    agent: AgentView,
    file: Seq<char>,
    scope: ConfigScopeView,
    now: Timestamp,
) -> Seq<ExtensionView> {
    agents::hooks_at(agent.hook_files, file).map_values(
        |h: HookEntryView|
            hook_ext(
                h,
                agent.name,
                file,
                scope,
                files::created_or(fs.at(file), now),
                files::modified_or(fs.at(file), now),
                fs.platform,
            ),
    )
}

fn scan_hook_file(
    fs: &FileTree,
    agent: &Agent,
    file: &str,
    scope: &ConfigScope,
    now: Timestamp,
) -> (r: Vec<Extension>)
    ensures
        models::list_view(r@) == hooks_in_file(fs@, agent@, file@, scope@, now),
{
    let mut out: Vec<Extension> = Vec::new();
    let created = fs.created_time(file, now);
    let modified = fs.modified_time(file, now);
    let platform = fs.platform();
    if let Some(hooks) = agent.hooks_from(file) {
        let mut i: usize = 0;
        while i < hooks.len()
            invariant
                i <= hooks.len(),
                out.len() == i,
                forall|j: int|
                    0 <= j < i ==> (#[trigger] out@[j])@ == hook_ext(
                        hooks@[j]@,
                        agent@.name,
                        file@,
                        scope@,
                        created,
                        modified,
                        platform,
                    ),
            decreases hooks.len() - i,
        {
            out.push(
                hook_extension(&hooks[i], &agent.name, file, scope, created, modified, platform),
            );
            i += 1;
        }
    }
    assert(models::list_view(out@) =~= hooks_in_file(fs@, agent@, file@, scope@, now));
    out
}

/// The hooks that some files list; with `need_file`, only those that are regular
/// files.
pub open spec fn hooks_in_files(
    fs: FileTreeView,
    agent: AgentView,
    paths: Seq<Seq<char>>,
    scope: ConfigScopeView,
    need_file: bool,
    now: Timestamp,
) -> Seq<ExtensionView>
    decreases paths.len(),
{
    if paths.len() == 0 {
        Seq::<ExtensionView>::empty()
    } else {
        let before = hooks_in_files(fs, agent, paths.drop_last(), scope, need_file, now);
        if need_file && !fs.at(paths.last()).is_file {
            before
        } else {
            before + hooks_in_file(fs, agent, paths.last(), scope, now)
        }
    }
}

fn scan_hook_files(
    fs: &FileTree,
    agent: &Agent,
    paths: &Vec<String>,
    scope: &ConfigScope,
    need_file: bool,
    now: Timestamp,
) -> (r: Vec<Extension>)
    ensures
        models::list_view(r@) == hooks_in_files(
            fs@,
            agent@,
            text::strs(paths@),
            scope@,
            need_file,
            now,
        ),
{
    let mut out = skills::no_exts();
    let ghost all = text::strs(paths@);
    let mut i: usize = 0;
    assert(all.take(0) =~= Seq::<Seq<char>>::empty());
    while i < paths.len()
        invariant
            all == text::strs(paths@),
            i <= paths.len(),
            models::list_view(out@) == hooks_in_files(
                fs@,
                agent@,
                all.take(i as int),
                scope@,
                need_file,
                now,
            ),
        decreases paths.len() - i,
    {
        assert(all.take(i + 1).drop_last() =~= all.take(i as int));
        assert(all[i as int] == paths@[i as int]@);
        if !(need_file && !fs.is_file(&paths[i])) {
            let more = scan_hook_file(fs, agent, &paths[i], scope, now);
            skills::append_exts(&mut out, more);
        }
        i += 1;
    }
    assert(all.take(i as int) =~= all);
    out
}

/// The global hooks of an agent.
pub fn scan_hooks(fs: &FileTree, agent: &Agent, now: Timestamp) -> (r: Vec<Extension>)
    ensures
        models::list_view(r@) == hooks_in_files(
            fs@,
            agent@,
            agent@.hook_configs_in(ConfigScopeView::Global),
            ConfigScopeView::Global,
            false,
            now,
        ),
{
    let scope = ConfigScope::Global;
    let paths = agent.hook_config_paths_for(&scope);
    scan_hook_files(fs, agent, &paths, &scope, false, now)
}

// ---------------------------------------------------------------------------
// Plugins
// ---------------------------------------------------------------------------

/// The key of a plugin: `name:source`.
pub open spec fn plugin_key(p: PluginEntryView) -> Seq<char> {
    p.name + ":"@ + p.source
}

/// The source of a plugin: the one that a manifest names, else the repository
/// around its files, else the agent.
pub open spec fn plugin_source(fs: FileTreeView, p: PluginEntryView) -> SourceView {
    match p.source_url {
        Some(url) => SourceView {
            origin: SourceOrigin::Git,
            url: Some(url),
            version: None,
            commit_hash: None,
            from_manifest: true,
        },
        None => match p.path {
            Some(dir) => sources::source_of(fs, dir, true),
            None => sources::plain_source(SourceOrigin::Agent),
        },
    }
}

/// When a plugin was installed and last changed: what the agent reports if it
/// reports both, else by its files, else now.
pub open spec fn plugin_times(fs: FileTreeView, p: PluginEntryView, now: Timestamp) -> (
    Timestamp,
    Timestamp,
) {
    if p.installed_at is Some && p.updated_at is Some {
        (p.installed_at->0, p.updated_at->0)
    } else {
        match p.path {
            Some(dir) => (
                files::created_or(fs.at(dir), now),
                files::modified_or(fs.at(dir), now),
            ),
            None => (now, now),
        }
    }
}

/// A plugin of an agent.
pub open spec fn plugin_ext(
    fs: FileTreeView,
    p: PluginEntryView,
    agent: Seq<char>,
    now: Timestamp,
) -> ExtensionView {
    ExtensionView {
        id: ids::global_id(plugin_key(p), "plugin"@, agent),
        kind: ExtensionKind::Plugin,
        name: p.name,
        description: if p.source.len() == 0 {
            "Plugin for "@ + agent
        } else {
            "Plugin from "@ + p.source
        },
        source: plugin_source(fs, p),
        agents: seq![agent],
        tags: Seq::<Seq<char>>::empty(),
        pack: skills::pack_of_url(plugin_source(fs, p).url),
        permissions: match p.path {
            Some(dir) => plugins::plugin_code_perms(fs, dir),
            None => plugins::unknown_plugin_perms(),
        },
        enabled: p.enabled,
        trust_score: None,
        installed_at: plugin_times(fs, p, now).0,
        updated_at: plugin_times(fs, p, now).1,
        source_path: p.path,
        cli_parent_id: None,
        cli_meta: None,
        install_meta: None,
        scope: ConfigScopeView::Global,
    }
}

/// The key of a plugin: `name:source`.
pub fn key_of_plugin(p: &PluginEntry) -> (r: String)
    ensures
        r@ == plugin_key(p@),
{
    text::cat3(&p.name, ":", &p.source)
}

fn plugin_extension(fs: &FileTree, p: &PluginEntry, agent: &str, now: Timestamp) -> (r: Extension)
    ensures
        r@ == plugin_ext(fs@, p@, agent@, now),
{
    let description = if p.source.as_str().is_empty() {
        text::cat2("Plugin for ", agent)
    } else {
        text::cat2("Plugin from ", &p.source)
    };
    let perms = match &p.path {
        Some(dir) => plugins::infer_plugin_permissions(fs, dir),
        None => plugins::unknown_plugin_permissions(),
    };
    let (installed_at, updated_at) = match (p.installed_at, p.updated_at) {
        (Some(i), Some(u)) => (i, u),
        _ => match &p.path {
            Some(dir) => (fs.created_time(dir, now), fs.modified_time(dir, now)),
            None => (now, now),
        },
    };
    let source = match &p.source_url {
        Some(url) => Source {
            origin: SourceOrigin::Git,
            url: Some(url.clone()),
            version: None,
            commit_hash: None,
            from_manifest: true,
        },
        None => match &p.path {
            Some(dir) => sources::detect_source(fs, dir, true),
            None => sources::bare_source(SourceOrigin::Agent),
        },
    };
    let found_pack = match &source.url {
        Some(u) => pack::extract_pack_from_url(u),
        None => None,
    };
    let key = key_of_plugin(p);
    Extension {
        id: ids::stable_id_for(&key, "plugin", agent),
        kind: ExtensionKind::Plugin,
        name: p.name.clone(),
        description,
        source,
        agents: text::one(agent.to_owned()),
        tags: text::no_strings(),
        pack: found_pack,
        permissions: perms,
        enabled: p.enabled,
        trust_score: None,
        installed_at,
        updated_at,
        source_path: text::clone_opt(&p.path),
        cli_parent_id: None,
        cli_meta: None,
        install_meta: None,
        scope: ConfigScope::Global,
    }
}

/// The plugins of an agent.
pub open spec fn plugin_exts(fs: FileTreeView, agent: AgentView, now: Timestamp) -> Seq<
    ExtensionView,
> {
    agent.plugins.map_values(|p: PluginEntryView| plugin_ext(fs, p, agent.name, now))
}

/// The plugins of an agent.
pub fn scan_plugins(fs: &FileTree, agent: &Agent, now: Timestamp) -> (r: Vec<Extension>)
    ensures
        models::list_view(r@) == plugin_exts(fs@, agent@, now),
{
    let mut out: Vec<Extension> = Vec::new();
    let mut i: usize = 0;
    while i < agent.plugins.len()
        invariant
            i <= agent.plugins.len(),
            out.len() == i,
            forall|j: int|
                0 <= j < i ==> (#[trigger] out@[j])@ == plugin_ext(
                    fs@,
                    agent.plugins@[j]@,
                    agent@.name,
                    now,
                ),
        decreases agent.plugins.len() - i,
    {
        out.push(plugin_extension(fs, &agent.plugins[i], &agent.name, now));
        i += 1;
    }
    assert(models::list_view(out@) =~= plugin_exts(fs@, agent@, now));
    out
}

// ---------------------------------------------------------------------------
// One agent
// ---------------------------------------------------------------------------

/// The global extensions of an agent: skills, servers, hooks, plugins, subagents
/// and commands.
pub open spec fn agent_exts(fs: FileTreeView, agent: AgentView, now: Timestamp) -> Seq<
    ExtensionView,
> {
    skills::skills_in_all(fs, agent.skill_dirs, agent.name, now) + mcp_exts(fs, agent, now)
        + hooks_in_files(
        fs,
        agent,
        agent.hook_configs_in(ConfigScopeView::Global),
        ConfigScopeView::Global,
        false,
        now,
    ) + plugin_exts(fs, agent, now) + managed::managed_all(
        fs,
        agent.subagent_files,
        agent.name,
        ExtensionKind::Subagent,
        ConfigScopeView::Global,
        now,
    ) + managed::managed_all(
        fs,
        agent.command_files,
        agent.name,
        ExtensionKind::Command,
        ConfigScopeView::Global,
        now,
    )
}

/// The global extensions of an agent: skills, servers, hooks, plugins, subagents
/// and commands.
pub fn scan_adapter(fs: &FileTree, agent: &Agent, now: Timestamp) -> (r: Vec<Extension>)
    ensures
        models::list_view(r@) == agent_exts(fs@, agent@, now),
{
    let scope = ConfigScope::Global;
    let mut all = skills::scan_skills_for(fs, agent, now);
    let more = scan_mcp_servers(fs, agent, now);
    skills::append_exts(&mut all, more);
    let more = scan_hooks(fs, agent, now);
    skills::append_exts(&mut all, more);
    let more = scan_plugins(fs, agent, now);
    skills::append_exts(&mut all, more);
    let more = managed::scan_managed_files(
        fs,
        &agent.subagent_files,
        &agent.name,
        ExtensionKind::Subagent,
        &scope,
        now,
    );
    skills::append_exts(&mut all, more);
    let more = managed::scan_managed_files(
        fs,
        &agent.command_files,
        &agent.name,
        ExtensionKind::Command,
        &scope,
        now,
    );
    skills::append_exts(&mut all, more);
    all
}

/// A skill that belongs to a scope: with that scope, and the identifier that goes
/// with it.
pub open spec fn rescoped(e: ExtensionView, agent: Seq<char>, scope: ConfigScopeView) -> ExtensionView {
    ExtensionView { id: ids::scoped_id(e.name, "skill"@, agent, scope), scope, ..e }
}

/// The skills in some directories of a project.
pub open spec fn project_skills(
    fs: FileTreeView,
    rels: Seq<Seq<char>>,
    root: Seq<char>,
    agent: Seq<char>,
    scope: ConfigScopeView,
    now: Timestamp,
) -> Seq<ExtensionView>
    decreases rels.len(),
{
    if rels.len() == 0 {
        Seq::<ExtensionView>::empty()
    } else {
        project_skills(fs, rels.drop_last(), root, agent, scope, now) + skills::skills_in(
            fs,
            path::extended(root, rels.last()),
            agent,
            now,
        ).map_values(|e: ExtensionView| rescoped(e, agent, scope))
    }
}

fn rescope(list: Vec<Extension>, agent: &str, scope: &ConfigScope) -> (r: Vec<Extension>)
    ensures
        models::list_view(r@) == models::list_view(list@).map_values(
            |e: ExtensionView| rescoped(e, agent@, scope@),
        ),
{
    let mut out: Vec<Extension> = Vec::new();
    let mut i: usize = 0;
    while i < list.len()
        invariant
            i <= list.len(),
            out.len() == i,
            forall|j: int|
                0 <= j < i ==> (#[trigger] out@[j])@ == rescoped(list@[j]@, agent@, scope@),
        decreases list.len() - i,
    {
        let mut e = list[i].clone();
        e.id = ids::stable_id_with_scope_for(&e.name, "skill", agent, scope);
        e.scope = scope.clone();
        out.push(e);
        i += 1;
    }
    assert(models::list_view(out@) =~= models::list_view(list@).map_values(
        |e: ExtensionView| rescoped(e, agent@, scope@),
    ));
    out
}

fn scan_project_skills(
    fs: &FileTree,
    agent: &Agent,
    root: &str,
    scope: &ConfigScope,
    now: Timestamp,
) -> (r: Vec<Extension>)
    ensures
        models::list_view(r@) == project_skills(
            fs@,
            agent@.project_skill_dirs,
            root@,
            agent@.name,
            scope@,
            now,
        ),
{
    let mut out = skills::no_exts();
    let ghost all = agent@.project_skill_dirs;
    let mut i: usize = 0;
    assert(all.take(0) =~= Seq::<Seq<char>>::empty());
    while i < agent.project_skill_dirs.len()
        invariant
            all == text::strs(agent.project_skill_dirs@),
            i <= agent.project_skill_dirs.len(),
            models::list_view(out@) == project_skills(
                fs@,
                all.take(i as int),
                root@,
                agent@.name,
                scope@,
                now,
            ),
        decreases agent.project_skill_dirs.len() - i,
    {
        assert(all.take(i + 1).drop_last() =~= all.take(i as int));
        assert(all[i as int] == agent.project_skill_dirs@[i as int]@);
        let dir = path::join(root, &agent.project_skill_dirs[i]);
        let found = skills::scan_skill_dir(fs, &dir, &agent.name, now);
        let more = rescope(found, &agent.name, scope);
        skills::append_exts(&mut out, more);
        i += 1;
    }
    assert(all.take(i as int) =~= all);
    out
}

/// The extensions of an agent in a project: skills, servers, hooks, subagents and
/// commands; none where the project does not exist.
pub open spec fn project_exts(
    fs: FileTreeView,
    agent: AgentView,
    name: Seq<char>,
    root: Seq<char>,
    now: Timestamp,
) -> Seq<ExtensionView> {
    let scope = ConfigScopeView::Project { name, path: root };
    if !fs.at(root).is_dir {
        Seq::<ExtensionView>::empty()
    } else {
        project_skills(fs, agent.project_skill_dirs, root, agent.name, scope, now)
            + project_mcp_exts(fs, agent, scope, now) + hooks_in_files(
            fs,
            agent,
            agent.hook_configs_in(scope),
            scope,
            true,
            now,
        ) + managed::managed_in_project(
            fs,
            agent.subagent_patterns,
            root,
            agent.name,
            ExtensionKind::Subagent,
            scope,
            now,
        ) + managed::managed_in_project(
            fs,
            agent.command_patterns,
            root,
            agent.name,
            ExtensionKind::Command,
            scope,
            now,
        )
    }
}

/// The extensions of an agent in a project, with identifiers that hold the path
/// of the project.
pub fn scan_project_extensions(
    fs: &FileTree,
    agent: &Agent,
    project_name: &str,
    project_path: &str,
    now: Timestamp,
) -> (r: Vec<Extension>)
    ensures
        models::list_view(r@) == project_exts(
            fs@,
            agent@,
            project_name@,
            project_path@,
            now,
        ),
{
    if !fs.is_dir(project_path) {
        return skills::no_exts();
    }
    let scope = ConfigScope::Project {
        name: project_name.to_owned(),
        path: project_path.to_owned(),
    };
    let mut all = scan_project_skills(fs, agent, project_path, &scope, now);
    let more = scan_project_mcp(fs, agent, &scope, now);
    skills::append_exts(&mut all, more);
    let hook_paths = agent.hook_config_paths_for(&scope);
    let more = scan_hook_files(fs, agent, &hook_paths, &scope, true, now);
    skills::append_exts(&mut all, more);
    let more = managed::scan_managed_patterns(
        fs,
        &agent.subagent_patterns,
        project_path,
        &agent.name,
        ExtensionKind::Subagent,
        &scope,
        now,
    );
    skills::append_exts(&mut all, more);
    let more = managed::scan_managed_patterns(
        fs,
        &agent.command_patterns,
        project_path,
        &agent.name,
        ExtensionKind::Command,
        &scope,
        now,
    );
    skills::append_exts(&mut all, more);
    all
}

// ---------------------------------------------------------------------------
// Laws
// ---------------------------------------------------------------------------

/// Whether an extension belongs to one agent and to one scope.
pub open spec fn belongs(e: ExtensionView, agent: Seq<char>, scope: ConfigScopeView) -> bool {
    e.agents == seq![agent] && e.scope == scope
}

/// What a scan of an agent finds belongs to that agent alone and to the global
/// scope.
pub proof fn agent_scan_is_global(fs: FileTreeView, agent: AgentView, now: Timestamp)
    ensures
        forall|i: int|
            0 <= i < agent_exts(fs, agent, now).len() ==> belongs(
                #[trigger] agent_exts(fs, agent, now)[i],
                agent.name,
                ConfigScopeView::Global,
            ),
{
    let g = ConfigScopeView::Global;
    lemma_skills_belong(fs, agent.skill_dirs, agent.name, now);
    lemma_hooks_belong(fs, agent, agent.hook_configs_in(g), g, false, now);
    lemma_managed_belong(
        fs,
        agent.subagent_files,
        agent.name,
        ExtensionKind::Subagent,
        g,
        now,
    );
    lemma_managed_belong(fs, agent.command_files, agent.name, ExtensionKind::Command, g, now);
    let a = skills::skills_in_all(fs, agent.skill_dirs, agent.name, now);
    let b = mcp_exts(fs, agent, now);
    let c = hooks_in_files(fs, agent, agent.hook_configs_in(g), g, false, now);
    let d = plugin_exts(fs, agent, now);
    let e = managed::managed_all(
        fs,
        agent.subagent_files,
        agent.name,
        ExtensionKind::Subagent,
        g,
        now,
    );
    let f = managed::managed_all(
        fs,
        agent.command_files,
        agent.name,
        ExtensionKind::Command,
        g,
        now,
    );
    lemma_all_belong_sum(a, b, agent.name, g);
    lemma_all_belong_sum(a + b, c, agent.name, g);
    lemma_all_belong_sum(a + b + c, d, agent.name, g);
    lemma_all_belong_sum(a + b + c + d, e, agent.name, g);
    lemma_all_belong_sum(a + b + c + d + e, f, agent.name, g);
    assert(all_belong(agent_exts(fs, agent, now), agent.name, g));
}

/// What a scan of a project finds belongs to the agent alone and to the scope of
/// that project.
pub proof fn project_scan_is_in_project(
    fs: FileTreeView,
    agent: AgentView,
    name: Seq<char>,
    root: Seq<char>,
    now: Timestamp,
)
    ensures
        forall|i: int|
            0 <= i < project_exts(fs, agent, name, root, now).len() ==> belongs(
                #[trigger] project_exts(fs, agent, name, root, now)[i],
                agent.name,
                (ConfigScopeView::Project { name, path: root }),
            ),
{
    let s = ConfigScopeView::Project { name, path: root };
    lemma_project_skills_belong(fs, agent.project_skill_dirs, root, agent.name, s, now);
    lemma_hooks_belong(fs, agent, agent.hook_configs_in(s), s, true, now);
    lemma_managed_project_belong(
        fs,
        agent.subagent_patterns,
        root,
        agent.name,
        ExtensionKind::Subagent,
        s,
        now,
    );
    lemma_managed_project_belong(
        fs,
        agent.command_patterns,
        root,
        agent.name,
        ExtensionKind::Command,
        s,
        now,
    );
    let a = project_skills(fs, agent.project_skill_dirs, root, agent.name, s, now);
    let b = project_mcp_exts(fs, agent, s, now);
    let c = hooks_in_files(fs, agent, agent.hook_configs_in(s), s, true, now);
    let d = managed::managed_in_project(
        fs,
        agent.subagent_patterns,
        root,
        agent.name,
        ExtensionKind::Subagent,
        s,
        now,
    );
    let e = managed::managed_in_project(
        fs,
        agent.command_patterns,
        root,
        agent.name,
        ExtensionKind::Command,
        s,
        now,
    );
    lemma_all_belong_sum(a, b, agent.name, s);
    lemma_all_belong_sum(a + b, c, agent.name, s);
    lemma_all_belong_sum(a + b + c, d, agent.name, s);
    lemma_all_belong_sum(a + b + c + d, e, agent.name, s);
    if fs.at(root).is_dir {
        assert(all_belong(project_exts(fs, agent, name, root, now), agent.name, s));
    }
}

spec fn all_belong(v: Seq<ExtensionView>, agent: Seq<char>, scope: ConfigScopeView) -> bool {
    forall|i: int| 0 <= i < v.len() ==> belongs(#[trigger] v[i], agent, scope)
}

proof fn lemma_all_belong_sum(
    a: Seq<ExtensionView>,
    b: Seq<ExtensionView>,
    agent: Seq<char>,
    scope: ConfigScopeView,
)
    requires
        all_belong(a, agent, scope),
        all_belong(b, agent, scope),
    ensures
        all_belong(a + b, agent, scope),
{
    assert forall|i: int| 0 <= i < (a + b).len() implies belongs(
        #[trigger] (a + b)[i],
        agent,
        scope,
    ) by {
        if i < a.len() {
            assert((a + b)[i] == a[i]);
        } else {
            assert((a + b)[i] == b[i - a.len()]);
        }
    }
}

proof fn lemma_skills_at_belong(
    fs: FileTreeView,
    paths: Seq<Seq<char>>,
    agent: Seq<char>,
    now: Timestamp,
)
    ensures
        all_belong(skills::skills_at(fs, paths, agent, now), agent, ConfigScopeView::Global),
    decreases paths.len(),
{
    if paths.len() > 0 {
        lemma_skills_at_belong(fs, paths.drop_last(), agent, now);
    }
}

proof fn lemma_skills_belong(
    fs: FileTreeView,
    dirs: Seq<Seq<char>>,
    agent: Seq<char>,
    now: Timestamp,
)
    ensures
        all_belong(skills::skills_in_all(fs, dirs, agent, now), agent, ConfigScopeView::Global),
    decreases dirs.len(),
{
    if dirs.len() > 0 {
        lemma_skills_belong(fs, dirs.drop_last(), agent, now);
        match fs.at(dirs.last()).children {
            Some(entries) => {
                lemma_skills_at_belong(fs, entries, agent, now);
            },
            None => {},
        }
        lemma_all_belong_sum(
            skills::skills_in_all(fs, dirs.drop_last(), agent, now),
            skills::skills_in(fs, dirs.last(), agent, now),
            agent,
            ConfigScopeView::Global,
        );
    }
}

proof fn lemma_project_skills_belong(
    fs: FileTreeView,
    rels: Seq<Seq<char>>,
    root: Seq<char>,
    agent: Seq<char>,
    scope: ConfigScopeView,
    now: Timestamp,
)
    ensures
        all_belong(project_skills(fs, rels, root, agent, scope, now), agent, scope),
    decreases rels.len(),
{
    if rels.len() > 0 {
        lemma_project_skills_belong(fs, rels.drop_last(), root, agent, scope, now);
        let dir = path::extended(root, rels.last());
        let found = skills::skills_in(fs, dir, agent, now);
        match fs.at(dir).children {
            Some(entries) => {
                lemma_skills_at_belong(fs, entries, agent, now);
            },
            None => {},
        }
        let here = found.map_values(|e: ExtensionView| rescoped(e, agent, scope));
        assert forall|i: int| 0 <= i < here.len() implies belongs(
            #[trigger] here[i],
            agent,
            scope,
        ) by {
            assert(belongs(found[i], agent, ConfigScopeView::Global));
        }
        lemma_all_belong_sum(
            project_skills(fs, rels.drop_last(), root, agent, scope, now),
            here,
            agent,
            scope,
        );
    }
}

proof fn lemma_hooks_belong(
    fs: FileTreeView,
    agent: AgentView,
    paths: Seq<Seq<char>>,
    scope: ConfigScopeView,
    need_file: bool,
    now: Timestamp,
)
    ensures
        all_belong(hooks_in_files(fs, agent, paths, scope, need_file, now), agent.name, scope),
    decreases paths.len(),
{
    if paths.len() > 0 {
        lemma_hooks_belong(fs, agent, paths.drop_last(), scope, need_file, now);
        lemma_all_belong_sum(
            hooks_in_files(fs, agent, paths.drop_last(), scope, need_file, now),
            hooks_in_file(fs, agent, paths.last(), scope, now),
            agent.name,
            scope,
        );
    }
}

proof fn lemma_managed_belong(
    fs: FileTreeView,
    paths: Seq<Seq<char>>,
    agent: Seq<char>,
    kind: ExtensionKind,
    scope: ConfigScopeView,
    now: Timestamp,
)
    ensures
        all_belong(managed::managed_all(fs, paths, agent, kind, scope, now), agent, scope),
    decreases paths.len(),
{
    if paths.len() > 0 {
        lemma_managed_belong(fs, paths.drop_last(), agent, kind, scope, now);
    }
}

proof fn lemma_managed_project_belong(
    fs: FileTreeView,
    patterns: Seq<Seq<char>>,
    root: Seq<char>,
    agent: Seq<char>,
    kind: ExtensionKind,
    scope: ConfigScopeView,
    now: Timestamp,
)
    ensures
        all_belong(
            managed::managed_in_project(fs, patterns, root, agent, kind, scope, now),
            agent,
            scope,
        ),
    decreases patterns.len(),
{
    if patterns.len() > 0 {
        lemma_managed_project_belong(
            fs,
            patterns.drop_last(),
            root,
            agent,
            kind,
            scope,
            now,
        );
        let on = managed::paths_of_pattern(fs, root, patterns.last());
        let off = managed::paths_of_pattern(fs, root, patterns.last() + ".disabled"@);
        lemma_managed_belong(fs, on, agent, kind, scope, now);
        lemma_managed_belong(fs, off, agent, kind, scope, now);
        let a = managed::managed_in_project(
            fs,
            patterns.drop_last(),
            root,
            agent,
            kind,
            scope,
            now,
        );
        let b = managed::managed_all(fs, on, agent, kind, scope, now);
        let c = managed::managed_all(fs, off, agent, kind, scope, now);
        lemma_all_belong_sum(a, b, agent, scope);
        lemma_all_belong_sum(a + b, c, agent, scope);
    }
}

} // verus!
