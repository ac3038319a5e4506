use hk_core::api::{
    blocking, build_router, list_commands, serve_frontend, set_app_icon, ApiError, Method,
};
use hk_core::binaries::Platform;
use hk_core::models::HkError;

fn status(e: HkError) -> u16 {
    ApiError::from(e).0
}

#[test]
fn every_error_has_its_status() {
    let m = || "m".to_string();
    assert_eq!(status(HkError::NotFound(m())), 404);
    assert_eq!(status(HkError::Network(m())), 502);
    assert_eq!(status(HkError::PermissionDenied(m())), 403);
    assert_eq!(status(HkError::ConfigCorrupted(m())), 500);
    assert_eq!(status(HkError::Conflict(m())), 409);
    assert_eq!(status(HkError::PathNotAllowed(m())), 403);
    assert_eq!(status(HkError::Database(m())), 500);
    assert_eq!(status(HkError::CommandFailed(m())), 500);
    assert_eq!(status(HkError::Validation(m())), 400);
    assert_eq!(status(HkError::Internal(m())), 500);
}

#[test]
fn ready_made_errors_carry_their_message() {
    let e = ApiError::not_found("gone");
    assert!(e.0 == 404 && matches!(e.1, HkError::NotFound(m) if m == "gone"));
    let e = ApiError::forbidden("no");
    assert!(e.0 == 403 && matches!(e.1, HkError::PermissionDenied(m) if m == "no"));
}

#[test]
fn a_command_comes_to_its_value_or_an_error() {
    assert!(matches!(blocking(Ok(Ok(7))), Ok(7)));
    let e = blocking::<u8>(Ok(Err(HkError::Conflict("busy".to_string())))).unwrap_err();
    assert_eq!(e.0, 409);
    let e = blocking::<u8>(Err("panicked".to_string())).unwrap_err();
    assert!(e.0 == 500 && matches!(e.1, HkError::Internal(m) if m == "panicked"));
}

#[test]
fn routes_are_distinct_and_flat() {
    let plan = build_router(&None);
    assert_eq!(plan.routes.len(), 64);
    assert_eq!(plan.routes[0].path, "/api/health");
    assert!(plan.routes[0].method == Method::Get);
    for (i, r) in plan.routes.iter().enumerate() {
        assert_eq!(r.path, format!("/api/{}", r.command));
        assert!(plan.routes[..i].iter().all(|q| q.path != r.path));
        assert!(i == 0 || r.method == Method::Post);
        assert!(r.guarded);
    }
    assert!(plan.pages_guarded);
    let commands = list_commands();
    assert_eq!(commands[0], "server_info");
    assert_eq!(commands[62], "list_project_install_records");
    assert!(commands.iter().any(|c| c == "install_to_agent"));
}

#[test]
fn only_a_server_without_a_token_invites_others() {
    assert!(build_router(&None).cors);
    assert!(!build_router(&Some("SECRET".to_string())).cors);
}

fn frontend(p: String) -> Option<Vec<u8>> {
    match p.as_str() {
        "index.html" => Some(b"start".to_vec()),
        "assets/app.js" => Some(b"code".to_vec()),
        "LICENSE" => Some(b"text".to_vec()),
        _ => None,
    }
}

#[test]
fn the_frontend_serves_files_and_else_the_start_page() {
    let page = serve_frontend("/assets/app.js", frontend).unwrap();
    assert_eq!(page.content, b"code");
    assert_eq!(page.media_type, "text/javascript");
    let page = serve_frontend("/settings/agents", frontend).unwrap();
    assert_eq!(page.content, b"start");
    assert_eq!(page.media_type, "text/html");
    let page = serve_frontend("//LICENSE", frontend).unwrap();
    assert_eq!(page.media_type, "application/octet-stream");
    assert!(serve_frontend("/", |_| None).is_none());
}

#[test]
fn the_icon_cannot_be_changed_on_one_platform() {
    assert_eq!(
        set_app_icon(Platform::MacOs, "blue"),
        Err("Alternate upstream artwork is not distributed by the controlled fork".to_string())
    );
    assert_eq!(set_app_icon(Platform::Linux, "blue"), Ok(()));
    assert_eq!(set_app_icon(Platform::Other, "blue"), Ok(()));
}
