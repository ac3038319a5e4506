//! What the server offers: its errors, its routes, and the files of the frontend.

use vstd::prelude::*;

use crate::binaries::Platform;
use crate::models;
use crate::models::{HkError, HkErrorView};
use crate::outside;
use crate::text;

verus! {

// ---------------------------------------------------------------------------
// Errors
// ---------------------------------------------------------------------------

/// The status of a response.
pub type StatusCode = u16;

/// An error as the server reports it: a status, and what happened.
#[derive(Debug)]
pub struct ApiError(pub StatusCode, pub HkError);

/// The mathematical value of an [`ApiError`].
#[verifier::ext_equal]
pub struct ApiErrorView {
    pub status: StatusCode,
    pub error: HkErrorView,
}

impl View for ApiError {
    type V = ApiErrorView;

    open spec fn view(&self) -> ApiErrorView {
        ApiErrorView { status: self.0, error: self.1@ }
    }
}

/// The status under which an error is reported.
pub open spec fn status_of(e: HkErrorView) -> StatusCode {
    match e {
        HkErrorView::NotFound(_) => 404,
        HkErrorView::Network(_) => 502,
        HkErrorView::PermissionDenied(_) => 403,
        HkErrorView::ConfigCorrupted(_) => 500,
        HkErrorView::Conflict(_) => 409,
        HkErrorView::PathNotAllowed(_) => 403,
        HkErrorView::Database(_) => 500,
        HkErrorView::CommandFailed(_) => 500,
        HkErrorView::Validation(_) => 400,
        HkErrorView::Internal(_) => 500,
    }
}

fn find_status(e: &HkError) -> (r: StatusCode)
    ensures
        r == status_of(e@),
{
    match e {
        HkError::NotFound(_) => 404,
        HkError::Network(_) => 502,
        HkError::PermissionDenied(_) => 403,
        HkError::ConfigCorrupted(_) => 500,
        HkError::Conflict(_) => 409,
        HkError::PathNotAllowed(_) => 403,
        HkError::Database(_) => 500,
        HkError::CommandFailed(_) => 500,
        HkError::Validation(_) => 400,
        HkError::Internal(_) => 500,
    }
}

impl ApiError {
    /// Something that does not exist was asked for.
    pub fn not_found(msg: &str) -> (r: Self)
        ensures
            r@ == (ApiErrorView { status: 404, error: HkErrorView::NotFound(msg@) }),
    {
        ApiError(404, HkError::NotFound(msg.to_owned()))
    }

    /// Something that is not allowed was asked for.
    pub fn forbidden(msg: &str) -> (r: Self)
        ensures
            r@ == (ApiErrorView { status: 403, error: HkErrorView::PermissionDenied(msg@) }),
    {
        ApiError(403, HkError::PermissionDenied(msg.to_owned()))
    }
}

impl From<HkError> for ApiError {
    fn from(e: HkError) -> (r: Self) {
        ApiError(find_status(&e), e)
    }
}

impl vstd::std_specs::convert::FromSpecImpl<HkError> for ApiError {
    open spec fn obeys_from_spec() -> bool {
        true
    }

    open spec fn from_spec(e: HkError) -> Self {
        ApiError(status_of(e@), e)
    }
}

/// What a command that ran on another thread comes to: its value, its error, or
/// the message of the failure of the thread.
pub fn blocking<T>(joined: Result<Result<T, HkError>, String>) -> (r: Result<T, ApiError>)
    ensures
        match joined {
            Ok(Ok(v)) => r == Ok::<T, ApiError>(v),
            Ok(Err(e)) => r == Err::<T, ApiError>(ApiError(status_of(e@), e)),
            Err(msg) => r is Err && r->Err_0@ == (ApiErrorView {
                status: 500,
                error: HkErrorView::Internal(msg@),
            }),
        },
{
    match joined {
        Ok(Ok(v)) => Ok(v),
        Ok(Err(e)) => Err(ApiError::from(e)),
        Err(msg) => Err(ApiError::from(HkError::Internal(msg))),
    }
}

/// The ready-made errors have the status that their kind is reported under, and
/// every status tells that something went wrong.
pub proof fn statuses_fit_errors(e: HkErrorView, msg: Seq<char>)
    ensures
        400 <= status_of(e) < 600,
        status_of(HkErrorView::NotFound(msg)) == 404,
        status_of(HkErrorView::PermissionDenied(msg)) == 403,
{
}

// ---------------------------------------------------------------------------
// Routes
// ---------------------------------------------------------------------------

/// How a route is called.
#[derive(Clone, Copy, PartialEq, Eq, Structural, Debug)]
pub enum Method {
    Get,
    Post,
}

/// A route of the server.
#[derive(Debug)]
pub struct Route {
    /// How it is called.
    pub method: Method,
    /// Its path.
    pub path: String,
    /// The name of the command that answers.
    pub command: String,
    /// Whether a caller has to show the token, where the server asks for one.
    pub guarded: bool,
}

/// The mathematical value of a [`Route`].
#[verifier::ext_equal]
pub struct RouteView {
    pub method: Method,
    pub path: Seq<char>,
    pub command: Seq<char>,
    pub guarded: bool,
}

impl View for Route {
    type V = RouteView;

    open spec fn view(&self) -> RouteView {
        RouteView {
            method: self.method,
            path: self.path@,
            command: self.command@,
            guarded: self.guarded,
        }
    }
}

/// The route of a command. No route is open to callers without the token.
pub open spec fn route_of(method: Method, command: Seq<char>) -> RouteView {
    RouteView { method, path: "/api/"@ + command, command, guarded: true }
}

/// The commands on extensions.
pub open spec fn extension_commands() -> Seq<Seq<char>> {
    seq![
        "list_extensions"@,
        "toggle_extension"@,
        "delete_extension"@,
        "get_extension_content"@,
        "scan_and_sync"@,
        "uninstall_cli_binary"@,
        "list_skill_files"@,
    ]
}

/// The commands on tags, packs and the dashboard.
pub open spec fn settings_commands() -> Seq<Seq<char>> {
    seq![
        "get_dashboard_stats"@,
        "update_tags"@,
        "batch_update_tags"@,
        "get_all_tags"@,
        "update_pack"@,
        "batch_update_pack"@,
        "get_all_packs"@,
        "toggle_by_pack"@,
        "read_config_file_preview"@,
    ]
}

/// The commands on agents.
pub open spec fn agent_commands() -> Seq<Seq<char>> {
    seq![
        "list_agents"@,
        "set_agent_enabled"@,
        "update_agent_order"@,
        "update_agent_path"@,
        "list_agent_configs"@,
        "add_custom_config_path"@,
        "update_custom_config_path"@,
        "remove_custom_config_path"@,
    ]
}

/// The commands on audits.
pub open spec fn audit_commands() -> Seq<Seq<char>> {
    seq![
        "list_audit_results"@,
        "run_audit"@,
    ]
}

/// The commands on projects.
pub open spec fn project_commands() -> Seq<Seq<char>> {
    seq![
        "list_projects"@,
        "add_project"@,
        "remove_project"@,
        "discover_projects"@,
        "count_project_extensions"@,
    ]
}

/// The commands on the marketplace.
pub open spec fn marketplace_commands() -> Seq<Seq<char>> {
    seq![
        "search_marketplace"@,
        "trending_marketplace"@,
        "list_cli_marketplace"@,
        "fetch_skill_preview"@,
        "fetch_cli_readme"@,
        "fetch_skill_audit"@,
    ]
}

/// The commands that install and update.
pub open spec fn install_commands() -> Seq<Seq<char>> {
    seq![
        "scan_git_repo"@,
        "install_scanned_skills"@,
        "install_new_repo_skills"@,
        "install_from_git"@,
        "install_from_marketplace"@,
        "install_from_local"@,
        "list_hermes_categories"@,
        "install_to_agent"@,
        "update_extension"@,
        "check_updates"@,
        "get_cached_update_statuses"@,
        "get_cli_with_children"@,
        "get_skill_locations"@,
    ]
}

/// The commands on kits.
pub open spec fn kit_commands() -> Seq<Seq<char>> {
    seq![
        "list_kits"@,
        "get_kit_details"@,
        "list_kit_asset_candidates"@,
        "create_kit"@,
        "update_kit"@,
        "delete_kit"@,
        "preview_kit_project_conflicts"@,
        "sync_kit_to_project"@,
        "unsync_kit_from_project"@,
        "export_kit"@,
        "import_kit"@,
        "list_project_install_records"@,
    ]
}

/// All commands.
pub open spec fn all_commands() -> Seq<Seq<char>> {
    seq!["server_info"@] + extension_commands() + settings_commands() + agent_commands() + audit_commands() + project_commands() + marketplace_commands() + install_commands() + kit_commands()
}

/// The routes of the server: one that tells that it is alive, and one for each
/// command.
pub open spec fn all_routes() -> Seq<RouteView> {
    seq![route_of(Method::Get, "health"@)] + all_commands().map_values(
        |c: Seq<char>| route_of(Method::Post, c),
    )
}

fn list_extension_commands() -> (r: Vec<String>)
    ensures
        text::strs(r@) == extension_commands(),
{
    let mut v: Vec<String> = Vec::new();
    v.push("list_extensions".to_owned());
    v.push("toggle_extension".to_owned());
    v.push("delete_extension".to_owned());
    v.push("get_extension_content".to_owned());
    v.push("scan_and_sync".to_owned());
    v.push("uninstall_cli_binary".to_owned());
    v.push("list_skill_files".to_owned());
    assert(text::strs(v@) =~= extension_commands());
    v
}

fn list_settings_commands() -> (r: Vec<String>)
    ensures
        text::strs(r@) == settings_commands(),
{
    let mut v: Vec<String> = Vec::new();
    v.push("get_dashboard_stats".to_owned());
    v.push("update_tags".to_owned());
    v.push("batch_update_tags".to_owned());
    v.push("get_all_tags".to_owned());
    v.push("update_pack".to_owned());
    v.push("batch_update_pack".to_owned());
    v.push("get_all_packs".to_owned());
    v.push("toggle_by_pack".to_owned());
    v.push("read_config_file_preview".to_owned());
    assert(text::strs(v@) =~= settings_commands());
    v
}

fn list_agent_commands() -> (r: Vec<String>)
    ensures
        text::strs(r@) == agent_commands(),
{
    let mut v: Vec<String> = Vec::new();
    v.push("list_agents".to_owned());
    v.push("set_agent_enabled".to_owned());
    v.push("update_agent_order".to_owned());
    v.push("update_agent_path".to_owned());
    v.push("list_agent_configs".to_owned());
    v.push("add_custom_config_path".to_owned());
    v.push("update_custom_config_path".to_owned());
    v.push("remove_custom_config_path".to_owned());
    assert(text::strs(v@) =~= agent_commands());
    v
}

fn list_audit_commands() -> (r: Vec<String>)
    ensures
        text::strs(r@) == audit_commands(),
{
    let mut v: Vec<String> = Vec::new();
    v.push("list_audit_results".to_owned());
    v.push("run_audit".to_owned());
    assert(text::strs(v@) =~= audit_commands());
    v
}

fn list_project_commands() -> (r: Vec<String>)
    ensures
        text::strs(r@) == project_commands(),
{
    let mut v: Vec<String> = Vec::new();
    v.push("list_projects".to_owned());
    v.push("add_project".to_owned());
    v.push("remove_project".to_owned());
    v.push("discover_projects".to_owned());
    v.push("count_project_extensions".to_owned());
    assert(text::strs(v@) =~= project_commands());
    v
}

fn list_marketplace_commands() -> (r: Vec<String>)
    ensures
        text::strs(r@) == marketplace_commands(),
{
    let mut v: Vec<String> = Vec::new();
    v.push("search_marketplace".to_owned());
    v.push("trending_marketplace".to_owned());
    v.push("list_cli_marketplace".to_owned());
    v.push("fetch_skill_preview".to_owned());
    v.push("fetch_cli_readme".to_owned());
    v.push("fetch_skill_audit".to_owned());
    assert(text::strs(v@) =~= marketplace_commands());
    v
}

fn list_install_commands() -> (r: Vec<String>)
    ensures
        text::strs(r@) == install_commands(),
{
    let mut v: Vec<String> = Vec::new();
    v.push("scan_git_repo".to_owned());
    v.push("install_scanned_skills".to_owned());
    v.push("install_new_repo_skills".to_owned());
    v.push("install_from_git".to_owned());
    v.push("install_from_marketplace".to_owned());
    v.push("install_from_local".to_owned());
    v.push("list_hermes_categories".to_owned());
    v.push("install_to_agent".to_owned());
    v.push("update_extension".to_owned());
    v.push("check_updates".to_owned());
    v.push("get_cached_update_statuses".to_owned());
    v.push("get_cli_with_children".to_owned());
    v.push("get_skill_locations".to_owned());
    assert(text::strs(v@) =~= install_commands());
    v
}

fn list_kit_commands() -> (r: Vec<String>)
    ensures
        text::strs(r@) == kit_commands(),
{
    let mut v: Vec<String> = Vec::new();
    v.push("list_kits".to_owned());
    v.push("get_kit_details".to_owned());
    v.push("list_kit_asset_candidates".to_owned());
    v.push("create_kit".to_owned());
    v.push("update_kit".to_owned());
    v.push("delete_kit".to_owned());
    v.push("preview_kit_project_conflicts".to_owned());
    v.push("sync_kit_to_project".to_owned());
    v.push("unsync_kit_from_project".to_owned());
    v.push("export_kit".to_owned());
    v.push("import_kit".to_owned());
    v.push("list_project_install_records".to_owned());
    assert(text::strs(v@) =~= kit_commands());
    v
}

fn append(v: &mut Vec<String>, more: Vec<String>)
    ensures
        text::strs(final(v)@) == text::strs(old(v)@) + text::strs(more@),
{
    let mut more = more;
    let ghost m = more@;
    v.append(&mut more);
    assert(text::strs(v@) =~= text::strs(old(v)@) + text::strs(m));
}

/// All commands.
pub fn list_commands() -> (r: Vec<String>)
    ensures
        text::strs(r@) == all_commands(),
{
    let mut v = text::one("server_info".to_owned());
    append(&mut v, list_extension_commands());
    append(&mut v, list_settings_commands());
    append(&mut v, list_agent_commands());
    append(&mut v, list_audit_commands());
    append(&mut v, list_project_commands());
    append(&mut v, list_marketplace_commands());
    append(&mut v, list_install_commands());
    append(&mut v, list_kit_commands());
    v
}

fn make_route(method: Method, command: String) -> (r: Route)
    ensures
        r@ == route_of(method, command@),
{
    Route { method, path: text::cat2("/api/", &command), command, guarded: true }
}

/// What the server offers.
#[derive(Debug)]
pub struct RouterPlan {
    /// The routes. Any other path leads to the files of the frontend.
    pub routes: Vec<Route>,
    /// Whether a caller has to show the token for those files too, where the server
    /// asks for one.
    pub pages_guarded: bool,
    /// Whether pages from anywhere may call the server, by `GET`, `POST` and
    /// `OPTIONS`, with any headers.
    pub cors: bool,
}

/// What the server offers. The check for the token lies over every route and over the
/// files of the frontend. A server that asks for a token is called from its own pages
/// only, and does not invite others; one without a token does.
pub fn build_router(token: &Option<String>) -> (r: RouterPlan)
    ensures
        models::list_view(r.routes@) == all_routes(),
        forall|i: int| 0 <= i < r.routes@.len() ==> (#[trigger] r.routes@[i]).guarded,
        r.pages_guarded,
        r.cors == (token is None),
{
    let commands = list_commands();
    let ghost names = text::strs(commands@);
    let mut routes: Vec<Route> = Vec::new();
    routes.push(make_route(Method::Get, "health".to_owned()));
    let mut i: usize = 0;
    while i < commands.len()
        invariant
            names == text::strs(commands@),
            i <= commands.len(),
            routes.len() == i + 1,
            routes@[0]@ == route_of(Method::Get, "health"@),
            forall|j: int|
                0 <= j < i ==> (#[trigger] routes@[j + 1])@ == route_of(Method::Post, names[j]),
        decreases commands.len() - i,
    {
        routes.push(make_route(Method::Post, commands[i].clone()));
        i += 1;
    }
    assert(models::list_view(routes@) =~= all_routes()) by {
        assert forall|k: int| 0 <= k < routes@.len() implies (#[trigger] routes@[k])@
            == all_routes()[k] by {
            if k > 0 {
                assert(routes@[(k - 1) + 1]@ == route_of(Method::Post, names[k - 1]));
            }
        }
    }
    assert forall|i: int| 0 <= i < routes@.len() implies (#[trigger] routes@[i]).guarded by {
        assert(models::list_view(routes@)[i] == routes@[i]@);
        assert(all_routes()[i].guarded);
    }
    RouterPlan { routes, pages_guarded: true, cors: token.is_none() }
}

/// Every route lies under `/api/`, under the name of its command; all but the one
/// that tells that the server is alive are called by `POST`, and none is open to
/// callers without the token.
pub proof fn routes_are_flat(i: int)
    requires
        0 <= i < all_routes().len(),
    ensures
        all_routes()[i].path == "/api/"@ + all_routes()[i].command,
        all_routes()[i].method == Method::Get <==> i == 0,
        i == 0 ==> all_routes()[i].command == "health"@,
        all_routes()[i].guarded,
{
}

// ---------------------------------------------------------------------------
// The frontend
// ---------------------------------------------------------------------------

/// A file of the frontend.
#[derive(Debug)]
pub struct Page {
    /// What it holds.
    pub content: Vec<u8>,
    /// Its media type.
    pub media_type: String,
}

/// The path of a file of the frontend.
pub open spec fn asset_path(uri_path: Seq<char>) -> Seq<char> {
    text::trimmed_start(uri_path, text::Class::Only('/'))
}

/// Whether a page holds what was found at a path.
pub open spec fn is_page(r: Option<Page>, content: Vec<u8>, path: Seq<char>) -> bool {
    r matches Some(p) && p.content == content && p.media_type@ == outside::media_type_of(path)
}

/// Whether a page is what follows when nothing was found at the path that was asked
/// for: the start page, if there is one.
pub open spec fn start_page_served<G: Fn(String) -> Option<Vec<u8>>>(get: G, r: Option<Page>) -> bool {
    exists|q: String, found: Option<Vec<u8>>|
        q@ == "index.html"@ && #[trigger] call_ensures(get, (q,), found) && (match found {
            Some(c) => is_page(r, c, "index.html"@),
            None => r is None,
        })
}

/// The page that is served for a path: the file at that path, or the start page,
/// which shows the rest by itself; none where that is missing too. `get` looks up
/// a file of the frontend; it need only be ready for these two.
pub fn serve_frontend<G: Fn(String) -> Option<Vec<u8>>>(uri_path: &str, get: G) -> (r: Option<
    Page,
>)
    requires
        forall|p: String| p@ == asset_path(uri_path@) ==> #[trigger] call_requires(get, (p,)),
        forall|p: String, q: String|
            #![trigger call_ensures(get, (p,), None::<Vec<u8>>), call_requires(get, (q,))]
            p@ == asset_path(uri_path@) && call_ensures(get, (p,), None::<Vec<u8>>) && q@
                == "index.html"@ ==> call_requires(get, (q,)),
    ensures
        exists|p: String, found: Option<Vec<u8>>|
            p@ == asset_path(uri_path@) && #[trigger] call_ensures(get, (p,), found) && (
            match found {
                Some(c) => is_page(r, c, asset_path(uri_path@)),
                None => start_page_served(get, r),
            }),
{
    let path = text::trim_start_of(uri_path, text::Class::Only('/')).to_owned();
    let ghost p = path;
    let media_type = outside::media_type(&path);
    let found = get(path);
    let ghost first = found;
    assert(call_ensures(get, (p,), first));
    match found {
        Some(content) => Some(Page { content, media_type }),
        None => {
            assert(call_ensures(get, (p,), None::<Vec<u8>>));
            let start = "index.html".to_owned();
            let ghost q = start;
            let media_type = outside::media_type(&start);
            let found = get(start);
            let ghost second = found;
            assert(call_ensures(get, (q,), second));
            let r = match found {
                Some(content) => Some(Page { content, media_type }),
                None => None,
            };
            assert(start_page_served(get, r));
            r
        },
    }
}

// ---------------------------------------------------------------------------
// The icon
// ---------------------------------------------------------------------------

/// Changes the icon of the application. There is no other artwork for `macOS`;
/// elsewhere there is nothing to change.
pub fn set_app_icon(platform: Platform, _name: &str) -> (r: Result<(), String>)
    ensures
        platform == Platform::MacOs ==> r is Err && r->Err_0@
            == "Alternate upstream artwork is not distributed by the controlled fork"@,
        platform != Platform::MacOs ==> r is Ok,
{
    if platform == Platform::MacOs {
        Err("Alternate upstream artwork is not distributed by the controlled fork".to_owned())
    } else {
        Ok(())
    }
}

} // verus!
