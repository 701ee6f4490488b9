use nemoscene::app_manager::{AppManager, Bundle, BundleLoad};
use nemoscene::configuration::{ConfigurationBase, ConfigurationRegistry};
use nemoscene::http::{HttpError, HttpRequest};
use nemoscene::router::{
    config_set, content_type_for, dispatch, is_reload_sensitive, resolve_bundle_file,
    serve_config, RouteAction,
};
use nemoscene::value::Value;

fn request(line: &str) -> HttpRequest {
    let headers: Vec<String> = Vec::new();
    HttpRequest::from_head(line, &headers).unwrap()
}

#[test]
fn root_redirects() {
    let action = dispatch(&request("GET / HTTP/1.1\r\n")).unwrap();
    assert!(matches!(action, RouteAction::RedirectRoot));
    let bytes = nemoscene::response::format_redirect("/bundle/settings");
    assert_eq!(
        bytes,
        b"HTTP/1.1 307 OK\r\nLocation: /bundle/settings\r\n\r\n".to_vec()
    );
}

#[test]
fn favicon_is_served_empty() {
    let action = dispatch(&request("GET /favicon.ico HTTP/1.1\r\n")).unwrap();
    assert!(matches!(action, RouteAction::Favicon));
    let bytes = nemoscene::response::format_response(200, "image/x-icon", &Vec::new());
    let text = String::from_utf8(bytes).unwrap();
    assert!(text.starts_with("HTTP/1.1 200 OK\r\n"));
    assert!(text.contains("Content-Length: 0\r\n"));
    assert!(text.ends_with("\r\n\r\n"));
}

#[test]
fn bundle_routes_extract_uuid_and_path() {
    match dispatch(&request("GET /bundle/u/a/b.js HTTP/1.1\r\n")).unwrap() {
        RouteAction::ServeBundleFile { uuid, path } => {
            assert_eq!(uuid, "u");
            assert_eq!(path, "a/b.js");
        }
        _ => panic!("expected a file action"),
    }
    match dispatch(&request("GET /bundle/u HTTP/1.1\r\n")).unwrap() {
        RouteAction::ServeBundleFile { uuid, path } => {
            assert_eq!(uuid, "u");
            assert_eq!(path, "");
        }
        _ => panic!("expected a file action"),
    }
}

#[test]
fn config_routes_extract_parameters() {
    match dispatch(&request("GET /config_get?uuid=u&base=b&key=k HTTP/1.1\r\n")).unwrap() {
        RouteAction::ConfigGet { uuid, base, key } => {
            assert_eq!(uuid, "u");
            assert_eq!(base, "b");
            assert_eq!(key, "k");
        }
        _ => panic!("expected a config read"),
    }
    match dispatch(&request(
        "GET /config_set?uuid=u&base=b&key=k&value=%221%22 HTTP/1.1\r\n",
    ))
    .unwrap()
    {
        RouteAction::ConfigSet { value, .. } => assert_eq!(value, "\"1\""),
        _ => panic!("expected a config write"),
    }
    match dispatch(&request("GET /config_create_base?uuid=u&base=b HTTP/1.1\r\n")).unwrap() {
        RouteAction::ConfigCreateBase { uuid, base } => {
            assert_eq!(uuid, "u");
            assert_eq!(base, "b");
        }
        _ => panic!("expected a base creation"),
    }
    match dispatch(&request("GET /config_delete_base?uuid=u&base=b HTTP/1.1\r\n")).unwrap() {
        RouteAction::ConfigDeleteBase { .. } => {}
        _ => panic!("expected a base deletion"),
    }
    assert!(matches!(
        dispatch(&request("GET /config_all HTTP/1.1\r\n")).unwrap(),
        RouteAction::ConfigAll
    ));
    assert!(matches!(
        dispatch(&request("GET /dashboard HTTP/1.1\r\n")).unwrap(),
        RouteAction::Dashboard
    ));
    assert!(matches!(
        dispatch(&request("GET /reload_dashboard HTTP/1.1\r\n")).unwrap(),
        RouteAction::ReloadDashboard
    ));
    assert!(matches!(
        dispatch(&request("GET /trigger_reload_system HTTP/1.1\r\n")).unwrap(),
        RouteAction::TriggerReloadSystem
    ));
    assert!(matches!(
        dispatch(&request("GET /trigger_reload_dashboard HTTP/1.1\r\n")).unwrap(),
        RouteAction::TriggerReloadDashboard
    ));
}

#[test]
fn config_routes_reject_missing_parameters() {
    let e = dispatch(&request("GET /config_get?uuid=u&base=b HTTP/1.1\r\n")).unwrap_err();
    match e {
        HttpError::BadRequest(m) => assert_eq!(m, "Invalid request"),
        _ => panic!("expected a bad request"),
    }
    let e = dispatch(&request("GET /config_get HTTP/1.1\r\n")).unwrap_err();
    assert!(matches!(e, HttpError::BadRequest(_)));
}

#[test]
fn unknown_routes_are_rejected() {
    let e = dispatch(&request("GET /nonsense HTTP/1.1\r\n")).unwrap_err();
    match e {
        HttpError::BadRequest(m) => assert_eq!(m, "Invalid request type: nonsense"),
        _ => panic!("expected a bad request"),
    }
}

#[test]
fn unknown_bundle_is_not_found_before_any_file_is_read() {
    let manager = AppManager::new();
    let e = resolve_bundle_file(&manager, "ghost", "index.html").unwrap_err();
    match e {
        HttpError::NotFound(m) => assert_eq!(m, "Bundle not found: ghost"),
        _ => panic!("expected a not-found error"),
    }
}

fn manager_with_bundle(uuid: &str, dir: &str) -> AppManager {
    let mut manager = AppManager::new();
    let mut registry = ConfigurationRegistry::new();
    let manifest = format!("{}/config/bundle", dir);
    manager.init(
        &mut registry,
        vec![BundleLoad {
            path: String::from(dir),
            files: vec![(
                manifest,
                Some(vec![(String::from("uuid"), Value::Text(String::from(uuid)))]),
            )],
        }],
    );
    manager
}

#[test]
fn known_bundle_resolves_path_and_content_type() {
    let manager = manager_with_bundle("u", "data/bundles/u");
    let (path, ctype) = resolve_bundle_file(&manager, "u", "a/b.js").unwrap();
    assert_eq!(path, "data/bundles/u/a/b.js");
    assert_eq!(ctype, "text/javascript");
    let (path, ctype) = resolve_bundle_file(&manager, "u", "").unwrap();
    assert_eq!(path, "data/bundles/u/app/index.html");
    assert_eq!(ctype, "text/html");
    let (_, ctype) = resolve_bundle_file(&manager, "u", "notes").unwrap();
    assert_eq!(ctype, "text/plain");
    let (_, ctype) = resolve_bundle_file(&manager, "u", "f.json").unwrap();
    assert_eq!(ctype, "application/json");
}

#[test]
fn content_types_follow_the_table() {
    assert_eq!(content_type_for("html"), "text/html");
    assert_eq!(content_type_for("txt"), "text/plain");
    assert_eq!(content_type_for("ttf"), "font/ttf");
    assert_eq!(content_type_for("ico"), "image/x-icon");
    assert_eq!(content_type_for("js"), "text/javascript");
    assert_eq!(content_type_for("json"), "application/json");
    assert_eq!(content_type_for("weird"), "text/plain");
}

#[test]
fn serve_config_reads_the_stored_value() {
    let mut reg = ConfigurationRegistry::new();
    reg.create_base_of_bundle("u", "b").unwrap();
    config_set(&mut reg, "u", "b", "k", Value::Integer(9)).unwrap();
    match serve_config(&reg, "u", "b", "k").unwrap() {
        Value::Integer(v) => assert_eq!(*v, 9),
        _ => panic!("expected the stored integer"),
    }
    let e = serve_config(&reg, "u", "b", "other").unwrap_err();
    match e {
        HttpError::NotFound(m) => assert_eq!(m, "Invalid configuration key: other"),
        _ => panic!("expected a not-found error"),
    }
    let e = serve_config(&reg, "u", "missing", "k").unwrap_err();
    match e {
        HttpError::NotFound(m) => assert_eq!(m, "Invalid configuration base: missing"),
        _ => panic!("expected a not-found error"),
    }
    let e = config_set(&mut reg, "u", "missing", "k", Value::Integer(1)).unwrap_err();
    assert!(matches!(e, HttpError::NotFound(_)));
}

#[test]
fn reload_sensitivity() {
    assert!(is_reload_sensitive("wifi"));
    assert!(is_reload_sensitive("widgets"));
    assert!(!is_reload_sensitive("settings"));
}

#[test]
fn bundles_load_from_their_manifest() {
    let mut base = ConfigurationBase::new("data/bundles/u/config/bundle");
    base.set_str("uuid", "u");
    let bundle = Bundle::load_bundle("data/bundles/u", &base).unwrap();
    assert_eq!(bundle.base_path, "data/bundles/u");
    assert_eq!(bundle.uuid, "u");

    let empty = ConfigurationBase::new("data/bundles/u/config/bundle");
    let e = Bundle::load_bundle("data/bundles/u", &empty).unwrap_err();
    match e {
        HttpError::ServerError(m) => assert_eq!(m, "Invalid bundle configuration"),
        _ => panic!("expected the invalid-bundle error"),
    }
}
