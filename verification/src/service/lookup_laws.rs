//! Which entry of a file an identifier stands for.

use vstd::prelude::*;

use crate::ids;
use crate::models::{ConfigScopeView, HookEntryView, McpServerEntryView};
use crate::service::lookup;

verus! {

/// An identifier stands for the first server of a list that it belongs to, by its name;
/// for none where it belongs to none.
pub proof fn first_server_with_the_id_is_meant(
    servers: Seq<McpServerEntryView>,
    agent: Seq<char>,
    scope: ConfigScopeView,
    id: Seq<char>,
    q: int,
)
    ensures
        0 <= q < servers.len() && ids::scoped_id(servers[q].name, "mcp"@, agent, scope) == id && (
        forall|j: int|
            0 <= j < q ==> ids::scoped_id((#[trigger] servers[j]).name, "mcp"@, agent, scope) != id)
            ==> lookup::server_in(servers, agent, scope, id) == Some(servers[q]),
        (forall|j: int|
            0 <= j < servers.len() ==> ids::scoped_id(
                (#[trigger] servers[j]).name,
                "mcp"@,
                agent,
                scope,
            ) != id) ==> lookup::server_in(servers, agent, scope, id) is None,
    decreases servers.len(),
{
    if servers.len() > 0 {
        let t = servers.drop_first();
        let first = servers[0];
        first_server_with_the_id_is_meant(t, agent, scope, id, q - 1);
        assert forall|j: int| 0 <= j < t.len() implies #[trigger] t[j] == servers[j + 1] by {}
        if 0 < q < servers.len() && ids::scoped_id(servers[q].name, "mcp"@, agent, scope) == id && (
        forall|j: int|
            0 <= j < q ==> ids::scoped_id((#[trigger] servers[j]).name, "mcp"@, agent, scope)
                != id) {
            assert(ids::scoped_id(servers[0].name, "mcp"@, agent, scope) != id);
            assert(t[q - 1] == servers[q]);
            assert forall|j: int| 0 <= j < q - 1 implies ids::scoped_id(
                (#[trigger] t[j]).name,
                "mcp"@,
                agent,
                scope,
            ) != id by {
                assert(ids::scoped_id(servers[j + 1].name, "mcp"@, agent, scope) != id);
            }
        }
        if forall|j: int|
            0 <= j < servers.len() ==> ids::scoped_id(
                (#[trigger] servers[j]).name,
                "mcp"@,
                agent,
                scope,
            ) != id {
            assert(ids::scoped_id(servers[0].name, "mcp"@, agent, scope) != id);
            assert forall|j: int| 0 <= j < t.len() implies ids::scoped_id(
                (#[trigger] t[j]).name,
                "mcp"@,
                agent,
                scope,
            ) != id by {
                assert(ids::scoped_id(servers[j + 1].name, "mcp"@, agent, scope) != id);
            }
        }
    }
}

/// The identifier that belongs to a hook: by its event, its matcher, or a star where it
/// has none, and its command.
pub open spec fn id_of_hook(h: HookEntryView, agent: Seq<char>, scope: ConfigScopeView) -> Seq<char> {
    let matcher = match h.matcher {
        Some(m) => m,
        None => "*"@,
    };
    ids::scoped_id(h.event + ":"@ + matcher + ":"@ + h.command, "hook"@, agent, scope)
}

/// An identifier stands for the first hook of a list that it belongs to; for none where
/// it belongs to none.
pub proof fn first_hook_with_the_id_is_meant(
    hooks: Seq<HookEntryView>,
    agent: Seq<char>,
    scope: ConfigScopeView,
    id: Seq<char>,
    q: int,
)
    ensures
        0 <= q < hooks.len() && id_of_hook(hooks[q], agent, scope) == id && (forall|j: int|
            0 <= j < q ==> id_of_hook(#[trigger] hooks[j], agent, scope) != id)
            ==> lookup::hook_in(hooks, agent, scope, id) == Some(hooks[q]),
        (forall|j: int|
            0 <= j < hooks.len() ==> id_of_hook(#[trigger] hooks[j], agent, scope) != id)
            ==> lookup::hook_in(hooks, agent, scope, id) is None,
    decreases hooks.len(),
{
    if hooks.len() > 0 {
        let t = hooks.drop_first();
        first_hook_with_the_id_is_meant(t, agent, scope, id, q - 1);
        assert(lookup::is_hook(hooks[0], agent, scope, id) <==> id_of_hook(hooks[0], agent, scope)
            == id);
        assert forall|j: int| 0 <= j < t.len() implies #[trigger] t[j] == hooks[j + 1] by {}
        if 0 < q < hooks.len() && id_of_hook(hooks[q], agent, scope) == id && (forall|j: int|
            0 <= j < q ==> id_of_hook(#[trigger] hooks[j], agent, scope) != id) {
            assert(id_of_hook(hooks[0], agent, scope) != id);
            assert(t[q - 1] == hooks[q]);
            assert forall|j: int| 0 <= j < q - 1 implies id_of_hook(#[trigger] t[j], agent, scope)
                != id by {
                assert(id_of_hook(hooks[j + 1], agent, scope) != id);
            }
        }
        if forall|j: int|
            0 <= j < hooks.len() ==> id_of_hook(#[trigger] hooks[j], agent, scope) != id {
            assert(id_of_hook(hooks[0], agent, scope) != id);
            assert forall|j: int| 0 <= j < t.len() implies id_of_hook(#[trigger] t[j], agent, scope)
                != id by {
                assert(id_of_hook(hooks[j + 1], agent, scope) != id);
            }
        }
    }
}

} // verus!
