//! Finding the entry of a configuration file that an extension stands for.

use vstd::prelude::*;

use crate::agents;
use crate::agents::{Agent, AgentView};
use crate::ids;
use crate::models;
use crate::models::{
    ConfigScope, ConfigScopeView, HookEntry, HookEntryView, McpServerEntry, McpServerEntryView,
};
use crate::scanner;
use crate::text;

verus! {

/// Whether a server has an identifier.
pub open spec fn is_server(
    s: McpServerEntryView,
    agent: Seq<char>,
    scope: ConfigScopeView,
    id: Seq<char>,
) -> bool {
    ids::scoped_id(s.name, "mcp"@, agent, scope) == id
}

/// Whether a hook has an identifier.
pub open spec fn is_hook(
    h: HookEntryView,
    agent: Seq<char>,
    scope: ConfigScopeView,
    id: Seq<char>,
) -> bool {
    ids::scoped_id(scanner::hook_name(h), "hook"@, agent, scope) == id
}

/// The first server with an identifier.
pub open spec fn server_in(
    servers: Seq<McpServerEntryView>,
    agent: Seq<char>,
    scope: ConfigScopeView,
    id: Seq<char>,
) -> Option<McpServerEntryView>
    decreases servers.len(),
{
    if servers.len() == 0 {
        None
    } else if is_server(servers[0], agent, scope, id) {
        Some(servers[0])
    } else {
        server_in(servers.drop_first(), agent, scope, id)
    }
}

/// The first hook with an identifier.
pub open spec fn hook_in(
    hooks: Seq<HookEntryView>,
    agent: Seq<char>,
    scope: ConfigScopeView,
    id: Seq<char>,
) -> Option<HookEntryView>
    decreases hooks.len(),
{
    if hooks.len() == 0 {
        None
    } else if is_hook(hooks[0], agent, scope, id) {
        Some(hooks[0])
    } else {
        hook_in(hooks.drop_first(), agent, scope, id)
    }
}

/// The server with an identifier that the file at `p` lists.
pub open spec fn server_at(
    agent: AgentView,
    p: Seq<char>,
    scope: ConfigScopeView,
    id: Seq<char>,
) -> Option<McpServerEntryView> {
    server_in(agents::servers_at(agent.mcp_files, p), agent.name, scope, id)
}

/// The hook with an identifier that the file at `p` lists.
pub open spec fn hook_at(
    agent: AgentView,
    p: Seq<char>,
    scope: ConfigScopeView,
    id: Seq<char>,
) -> Option<HookEntryView> {
    hook_in(agents::hooks_at(agent.hook_files, p), agent.name, scope, id)
}

/// Whether a server has an identifier.
pub fn has_server_id(s: &McpServerEntry, agent: &str, scope: &ConfigScope, id: &str) -> (r: bool)
    ensures
        r == is_server(s@, agent@, scope@, id@),
{
    let here = ids::stable_id_with_scope_for(&s.name, "mcp", agent, scope);
    text::str_eq(&here, id)
}

/// Whether a hook has an identifier.
pub fn has_hook_id(h: &HookEntry, agent: &str, scope: &ConfigScope, id: &str) -> (r: bool)
    ensures
        r == is_hook(h@, agent@, scope@, id@),
{
    let name = scanner::name_of_hook(h);
    let here = ids::stable_id_with_scope_for(&name, "hook", agent, scope);
    text::str_eq(&here, id)
}

/// The server with an identifier that the file at `p` lists.
pub fn find_server_at(agent: &Agent, p: &str, scope: &ConfigScope, id: &str) -> (r: Option<
    McpServerEntry,
>)
    ensures
        models::opt_view(r) == server_at(agent@, p@, scope@, id@),
{
    match agent.servers_from(p) {
        None => None,
        Some(servers) => {
            let ghost v = models::list_view(servers@);
            let mut i: usize = 0;
            assert(v.skip(0) =~= v);
            while i < servers.len()
                invariant
                    v == models::list_view(servers@),
                    v == agents::servers_at(agent@.mcp_files, p@),
                    i <= servers.len(),
                    server_in(v.skip(i as int), agent@.name, scope@, id@) == server_in(
                        v,
                        agent@.name,
                        scope@,
                        id@,
                    ),
                decreases servers.len() - i,
            {
                assert(v.skip(i as int)[0] == servers@[i as int]@);
                assert(v.skip(i as int).drop_first() =~= v.skip(i + 1));
                if has_server_id(&servers[i], &agent.name, scope, id) {
                    return Some(servers[i].clone());
                }
                i += 1;
            }
            None
        },
    }
}

/// The hook with an identifier that the file at `p` lists.
pub fn find_hook_at(agent: &Agent, p: &str, scope: &ConfigScope, id: &str) -> (r: Option<HookEntry>)
    ensures
        models::opt_view(r) == hook_at(agent@, p@, scope@, id@),
{
    match agent.hooks_from(p) {
        None => None,
        Some(hooks) => {
            let ghost v = models::list_view(hooks@);
            let mut i: usize = 0;
            assert(v.skip(0) =~= v);
            while i < hooks.len()
                invariant
                    v == models::list_view(hooks@),
                    v == agents::hooks_at(agent@.hook_files, p@),
                    i <= hooks.len(),
                    hook_in(v.skip(i as int), agent@.name, scope@, id@) == hook_in(
                        v,
                        agent@.name,
                        scope@,
                        id@,
                    ),
                decreases hooks.len() - i,
            {
                assert(v.skip(i as int)[0] == hooks@[i as int]@);
                assert(v.skip(i as int).drop_first() =~= v.skip(i + 1));
                if has_hook_id(&hooks[i], &agent.name, scope, id) {
                    return Some(hooks[i].clone());
                }
                i += 1;
            }
            None
        },
    }
}

} // verus!
