//! Routing, static-asset decisions, and URI joining.

use hako::routes::{route_for_path, serve_decision, AppRoute, ContentType, ServeDecision};
use hako::uri::join_uri;

#[test]
fn routes_split_on_numeric_paths() {
    assert_eq!(route_for_path(b"/123"), AppRoute::Download(123));
    assert_eq!(route_for_path(b"/-5"), AppRoute::Download(-5));
    assert_eq!(route_for_path(b"/abc"), AppRoute::Upload);
    assert_eq!(route_for_path(b"/"), AppRoute::Upload);
    assert_eq!(route_for_path(b""), AppRoute::Upload);
    assert_eq!(route_for_path(b"/12x"), AppRoute::Upload);
}

fn expect_asset(path: &[u8], name: &[u8], ct: ContentType) {
    match serve_decision(path) {
        ServeDecision::Asset(n, t) => {
            assert_eq!(n, name.to_vec());
            assert_eq!(t, ct);
        }
        _ => panic!("expected an asset decision"),
    }
}

#[test]
fn numeric_and_empty_paths_serve_the_shell() {
    assert!(matches!(serve_decision(b"/17"), ServeDecision::Index));
    assert!(matches!(serve_decision(b"/"), ServeDecision::Index));
    assert!(matches!(serve_decision(b""), ServeDecision::Index));
    assert!(matches!(serve_decision(b"/0"), ServeDecision::Rejected));
    assert!(matches!(serve_decision(b"/-3"), ServeDecision::Rejected));
}

#[test]
fn assets_are_matched_by_extension() {
    expect_asset(b"/index.html", b"index.html", ContentType::Html);
    expect_asset(b"/app.js", b"app.js", ContentType::Js);
    expect_asset(b"/style.CSS", b"style.CSS", ContentType::Css);
    expect_asset(b"/logo.png", b"logo.png", ContentType::Png);
    expect_asset(b"/photo.jpg", b"photo.jpg", ContentType::Jpeg);
    expect_asset(b"/core.wasm", b"core.wasm", ContentType::Wasm);
    // Trimming strips surrounding slashes only.
    expect_asset(b"//a/b.html/", b"a/b.html", ContentType::Html);
}

#[test]
fn unknown_names_are_missing() {
    assert!(matches!(serve_decision(b"/README"), ServeDecision::Missing));
    assert!(matches!(serve_decision(b"/a.exe"), ServeDecision::Missing));
    assert!(matches!(serve_decision(b"/a."), ServeDecision::Missing));
    let long = vec![b'a'; 1100];
    let mut path = vec![b'/'];
    path.extend_from_slice(&long);
    path.extend_from_slice(b".html");
    assert!(matches!(
        serve_decision(&path),
        ServeDecision::Missing
    ));
}

#[test]
fn join_uri_places_one_slash() {
    assert_eq!(join_uri("http://h", "/api"), "http://h/api");
    assert_eq!(join_uri("http://h/", "/api"), "http://h/api");
    assert_eq!(join_uri("http://h/", "api"), "http://h/api");
    assert_eq!(join_uri("http://h", "api"), "http://h/api");
    assert_eq!(join_uri("", ""), "/");
}

#[test]
fn join_uri_handles_multibyte_text() {
    assert_eq!(join_uri("http://h/", "/påth"), "http://h/påth");
    assert_eq!(join_uri("http://hôst", "påth"), "http://hôst/påth");
}
