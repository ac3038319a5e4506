//! What callers of the server can rely on.

use vstd::prelude::*;

use crate::api;
use crate::api::{Method, Page};
use crate::lists;
use crate::models::HkErrorView;
use crate::outside;

verus! {

/// An error is reported as what it is: missing things, refusals, conflicts and invalid
/// requests as such, that another server cannot be reached as a bad gateway, and all
/// else as an error of this server.
pub proof fn errors_are_reported_by_their_kind(e: HkErrorView)
    ensures
        e is NotFound ==> api::status_of(e) == 404,
        e is PermissionDenied || e is PathNotAllowed ==> api::status_of(e) == 403,
        e is Conflict ==> api::status_of(e) == 409,
        e is Validation ==> api::status_of(e) == 400,
        e is Network ==> api::status_of(e) == 502,
        e is ConfigCorrupted || e is Database || e is CommandFailed || e is Internal
            ==> api::status_of(e) == 500,
{
}

/// A file of the frontend is asked for by its path, however many separators stand
/// before it.
pub proof fn assets_lie_below_the_root(separators: Seq<char>, rest: Seq<char>)
    requires
        forall|i: int| 0 <= i < separators.len() ==> #[trigger] separators[i] == '/',
        rest.len() > 0 ==> rest[0] != '/',
    ensures
        api::asset_path(separators + rest) == rest,
    decreases separators.len(),
{
    let s = separators + rest;
    if separators.len() > 0 {
        assert(s[0] == separators[0]);
        assert(s.drop_first() =~= separators.drop_first() + rest);
        assets_lie_below_the_root(separators.drop_first(), rest);
    } else {
        assert(s =~= rest);
    }
}

/// A page holds what was found, under the media type of its path. Where the start page
/// is served it is what was found under its own name, and nothing is served where it
/// is missing.
pub proof fn pages_hold_what_was_found<G: Fn(String) -> Option<Vec<u8>>>(
    get: G,
    r: Option<Page>,
    content: Vec<u8>,
    path: Seq<char>,
)
    ensures
        api::is_page(r, content, path) ==> r is Some && r->0.content == content && r->0.media_type@
            == outside::media_type_of(path),
        api::start_page_served(get, r) ==> exists|q: String, found: Option<Vec<u8>>|
            q@ == "index.html"@ && #[trigger] call_ensures(get, (q,), found) && (r is None
                <==> found is None) && (r is Some ==> r->0.content == found->0
                && r->0.media_type@ == outside::media_type_of("index.html"@)),
{
}

/// Whether a text is a command on extensions.
pub open spec fn is_extension_command(c: Seq<char>) -> bool {
    ||| c == "list_extensions"@
    ||| c == "toggle_extension"@
    ||| c == "delete_extension"@
    ||| c == "get_extension_content"@
    ||| c == "scan_and_sync"@
    ||| c == "uninstall_cli_binary"@
    ||| c == "list_skill_files"@
}

/// Whether a text is a command on tags, packs and the dashboard.
pub open spec fn is_settings_command(c: Seq<char>) -> bool {
    ||| c == "get_dashboard_stats"@
    ||| c == "update_tags"@
    ||| c == "batch_update_tags"@
    ||| c == "get_all_tags"@
    ||| c == "update_pack"@
    ||| c == "batch_update_pack"@
    ||| c == "get_all_packs"@
    ||| c == "toggle_by_pack"@
    ||| c == "read_config_file_preview"@
}

/// Whether a text is a command on agents.
pub open spec fn is_agent_command(c: Seq<char>) -> bool {
    ||| c == "list_agents"@
    ||| c == "set_agent_enabled"@
    ||| c == "update_agent_order"@
    ||| c == "update_agent_path"@
    ||| c == "list_agent_configs"@
    ||| c == "add_custom_config_path"@
    ||| c == "update_custom_config_path"@
    ||| c == "remove_custom_config_path"@
}

/// Whether a text is a command on audits.
pub open spec fn is_audit_command(c: Seq<char>) -> bool {
    ||| c == "list_audit_results"@
    ||| c == "run_audit"@
}

/// Whether a text is a command on projects.
pub open spec fn is_project_command(c: Seq<char>) -> bool {
    ||| c == "list_projects"@
    ||| c == "add_project"@
    ||| c == "remove_project"@
    ||| c == "discover_projects"@
    ||| c == "count_project_extensions"@
}

/// Whether a text is a command on the marketplace.
pub open spec fn is_marketplace_command(c: Seq<char>) -> bool {
    ||| c == "search_marketplace"@
    ||| c == "trending_marketplace"@
    ||| c == "list_cli_marketplace"@
    ||| c == "fetch_skill_preview"@
    ||| c == "fetch_cli_readme"@
    ||| c == "fetch_skill_audit"@
}

/// Whether a text is a command on installing and updating.
pub open spec fn is_install_command(c: Seq<char>) -> bool {
    ||| c == "scan_git_repo"@
    ||| c == "install_scanned_skills"@
    ||| c == "install_new_repo_skills"@
    ||| c == "install_from_git"@
    ||| c == "install_from_marketplace"@
    ||| c == "install_from_local"@
    ||| c == "list_hermes_categories"@
    ||| c == "install_to_agent"@
    ||| c == "update_extension"@
    ||| c == "check_updates"@
    ||| c == "get_cached_update_statuses"@
    ||| c == "get_cli_with_children"@
    ||| c == "get_skill_locations"@
}

/// Whether a text is a command on kits.
pub open spec fn is_kit_command(c: Seq<char>) -> bool {
    ||| c == "list_kits"@
    ||| c == "get_kit_details"@
    ||| c == "list_kit_asset_candidates"@
    ||| c == "create_kit"@
    ||| c == "update_kit"@
    ||| c == "delete_kit"@
    ||| c == "preview_kit_project_conflicts"@
    ||| c == "sync_kit_to_project"@
    ||| c == "unsync_kit_from_project"@
    ||| c == "export_kit"@
    ||| c == "import_kit"@
    ||| c == "list_project_install_records"@
}

/// Every command has a route, which is called by `POST` under its name and is closed to
/// callers without the token; no other route is called that way.
pub proof fn each_command_has_its_route(c: Seq<char>)
    ensures
        (exists|i: int|
            0 <= i < api::all_routes().len() && (#[trigger] api::all_routes()[i]).command == c
                && api::all_routes()[i].method == Method::Post && api::all_routes()[i].guarded
                && api::all_routes()[i].path == "/api/"@ + c) <==> {
            ||| c == "server_info"@
            ||| is_extension_command(c)
            ||| is_settings_command(c)
            ||| is_agent_command(c)
            ||| is_audit_command(c)
            ||| is_project_command(c)
            ||| is_marketplace_command(c)
            ||| is_install_command(c)
            ||| is_kit_command(c)
        },
{
    lemma_extension_commands(c);
    lemma_settings_commands(c);
    lemma_agent_commands(c);
    lemma_audit_commands(c);
    lemma_project_commands(c);
    lemma_marketplace_commands(c);
    lemma_install_commands(c);
    lemma_kit_commands(c);
    let all = api::all_commands();
    let routes = api::all_routes();
    lemma_all_commands(c);
    if all.contains(c) {
        let i = choose|i: int| 0 <= i < all.len() && all[i] == c;
        assert(routes[i + 1].command == c);
    }
    if exists|i: int|
        0 <= i < routes.len() && (#[trigger] routes[i]).command == c && routes[i].method
            == Method::Post && routes[i].guarded && routes[i].path == "/api/"@ + c {
        let i = choose|i: int|
            0 <= i < routes.len() && (#[trigger] routes[i]).command == c && routes[i].method
                == Method::Post && routes[i].guarded && routes[i].path == "/api/"@ + c;
        assert(i > 0);
        assert(all[i - 1] == c);
    }
}

proof fn lemma_all_commands(c: Seq<char>)
    ensures
        api::all_commands().contains(c) <==> {
            ||| c == "server_info"@
            ||| api::extension_commands().contains(c)
            ||| api::settings_commands().contains(c)
            ||| api::agent_commands().contains(c)
            ||| api::audit_commands().contains(c)
            ||| api::project_commands().contains(c)
            ||| api::marketplace_commands().contains(c)
            ||| api::install_commands().contains(c)
            ||| api::kit_commands().contains(c)
        },
{
    let first = seq!["server_info"@];
    assert(first.contains(c) <==> c == "server_info"@) by {
        assert(first[0] == "server_info"@);
    }
    lists::lemma_sum_contains(first, api::extension_commands(), c);
    lists::lemma_sum_contains(first + api::extension_commands(), api::settings_commands(), c);
    lists::lemma_sum_contains(first + api::extension_commands() + api::settings_commands(), api::agent_commands(), c);
    lists::lemma_sum_contains(first + api::extension_commands() + api::settings_commands() + api::agent_commands(), api::audit_commands(), c);
    lists::lemma_sum_contains(first + api::extension_commands() + api::settings_commands() + api::agent_commands() + api::audit_commands(), api::project_commands(), c);
    lists::lemma_sum_contains(first + api::extension_commands() + api::settings_commands() + api::agent_commands() + api::audit_commands() + api::project_commands(), api::marketplace_commands(), c);
    lists::lemma_sum_contains(first + api::extension_commands() + api::settings_commands() + api::agent_commands() + api::audit_commands() + api::project_commands() + api::marketplace_commands(), api::install_commands(), c);
    lists::lemma_sum_contains(first + api::extension_commands() + api::settings_commands() + api::agent_commands() + api::audit_commands() + api::project_commands() + api::marketplace_commands() + api::install_commands(), api::kit_commands(), c);
}

proof fn lemma_extension_commands(c: Seq<char>)
    ensures
        api::extension_commands().contains(c) <==> is_extension_command(c),
{
    let s = api::extension_commands();
    assert(s[0] == "list_extensions"@);
    assert(s[1] == "toggle_extension"@);
    assert(s[2] == "delete_extension"@);
    assert(s[3] == "get_extension_content"@);
    assert(s[4] == "scan_and_sync"@);
    assert(s[5] == "uninstall_cli_binary"@);
    assert(s[6] == "list_skill_files"@);
}

proof fn lemma_settings_commands(c: Seq<char>)
    ensures
        api::settings_commands().contains(c) <==> is_settings_command(c),
{
    let s = api::settings_commands();
    assert(s[0] == "get_dashboard_stats"@);
    assert(s[1] == "update_tags"@);
    assert(s[2] == "batch_update_tags"@);
    assert(s[3] == "get_all_tags"@);
    assert(s[4] == "update_pack"@);
    assert(s[5] == "batch_update_pack"@);
    assert(s[6] == "get_all_packs"@);
    assert(s[7] == "toggle_by_pack"@);
    assert(s[8] == "read_config_file_preview"@);
}

proof fn lemma_agent_commands(c: Seq<char>)
    ensures
        api::agent_commands().contains(c) <==> is_agent_command(c),
{
    let s = api::agent_commands();
    assert(s[0] == "list_agents"@);
    assert(s[1] == "set_agent_enabled"@);
    assert(s[2] == "update_agent_order"@);
    assert(s[3] == "update_agent_path"@);
    assert(s[4] == "list_agent_configs"@);
    assert(s[5] == "add_custom_config_path"@);
    assert(s[6] == "update_custom_config_path"@);
    assert(s[7] == "remove_custom_config_path"@);
}

proof fn lemma_audit_commands(c: Seq<char>)
    ensures
        api::audit_commands().contains(c) <==> is_audit_command(c),
{
    let s = api::audit_commands();
    assert(s[0] == "list_audit_results"@);
    assert(s[1] == "run_audit"@);
}

proof fn lemma_project_commands(c: Seq<char>)
    ensures
        api::project_commands().contains(c) <==> is_project_command(c),
{
    let s = api::project_commands();
    assert(s[0] == "list_projects"@);
    assert(s[1] == "add_project"@);
    assert(s[2] == "remove_project"@);
    assert(s[3] == "discover_projects"@);
    assert(s[4] == "count_project_extensions"@);
}

proof fn lemma_marketplace_commands(c: Seq<char>)
    ensures
        api::marketplace_commands().contains(c) <==> is_marketplace_command(c),
{
    let s = api::marketplace_commands();
    assert(s[0] == "search_marketplace"@);
    assert(s[1] == "trending_marketplace"@);
    assert(s[2] == "list_cli_marketplace"@);
    assert(s[3] == "fetch_skill_preview"@);
    assert(s[4] == "fetch_cli_readme"@);
    assert(s[5] == "fetch_skill_audit"@);
}

proof fn lemma_install_commands(c: Seq<char>)
    ensures
        api::install_commands().contains(c) <==> is_install_command(c),
{
    let s = api::install_commands();
    assert(s[0] == "scan_git_repo"@);
    assert(s[1] == "install_scanned_skills"@);
    assert(s[2] == "install_new_repo_skills"@);
    assert(s[3] == "install_from_git"@);
    assert(s[4] == "install_from_marketplace"@);
    assert(s[5] == "install_from_local"@);
    assert(s[6] == "list_hermes_categories"@);
    assert(s[7] == "install_to_agent"@);
    assert(s[8] == "update_extension"@);
    assert(s[9] == "check_updates"@);
    assert(s[10] == "get_cached_update_statuses"@);
    assert(s[11] == "get_cli_with_children"@);
    assert(s[12] == "get_skill_locations"@);
}

proof fn lemma_kit_commands(c: Seq<char>)
    ensures
        api::kit_commands().contains(c) <==> is_kit_command(c),
{
    let s = api::kit_commands();
    assert(s[0] == "list_kits"@);
    assert(s[1] == "get_kit_details"@);
    assert(s[2] == "list_kit_asset_candidates"@);
    assert(s[3] == "create_kit"@);
    assert(s[4] == "update_kit"@);
    assert(s[5] == "delete_kit"@);
    assert(s[6] == "preview_kit_project_conflicts"@);
    assert(s[7] == "sync_kit_to_project"@);
    assert(s[8] == "unsync_kit_from_project"@);
    assert(s[9] == "export_kit"@);
    assert(s[10] == "import_kit"@);
    assert(s[11] == "list_project_install_records"@);
}

} // verus!
