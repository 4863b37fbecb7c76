//! Routing of the single-page application, including the exact shape of
//! canvas websocket paths.

use canvas_collab::spa::{SPARoute, SPAService};

fn route(path: &str, has_spa_header: bool) -> SPARoute {
    SPAService::route(&path.as_bytes().to_vec(), has_spa_header)
}

fn is_ws(path: &str) -> bool {
    SPAService::is_canvas_websocket_path(&path.as_bytes().to_vec())
}

#[test]
fn assets_pass_through() {
    assert_eq!(route("/assets/app.js", false), SPARoute::Forward);
    assert_eq!(route("/assets", false), SPARoute::Forward);
}

#[test]
fn websocket_paths_pass_through() {
    assert_eq!(route("/ws/canvas/0123456789ab", false), SPARoute::Forward);
    assert_eq!(route("/ws/canvas/0123456789ab/", false), SPARoute::Forward);
}

#[test]
fn canvas_websocket_path_shape() {
    assert!(is_ws("/ws/canvas/0123456789ab"));
    assert!(is_ws("/ws/canvas/ffffffffffff/"));
    // Wrong length, wrong alphabet, wrong prefix, trailing junk.
    assert!(!is_ws("/ws/canvas/0123456789a"));
    assert!(!is_ws("/ws/canvas/0123456789abc"));
    assert!(!is_ws("/ws/canvas/0123456789AB"));
    assert!(!is_ws("/ws/canvas/0123456789ag"));
    assert!(!is_ws("/ws/other/0123456789ab"));
    assert!(!is_ws("/ws/canvas/0123456789ab//"));
    assert!(!is_ws(""));
}

#[test]
fn root_and_spa_requests_pass_through() {
    assert_eq!(route("/", false), SPARoute::Forward);
    assert_eq!(route("/home", true), SPARoute::Forward);
}

#[test]
fn plain_navigation_is_rewritten() {
    assert_eq!(route("/home", false), SPARoute::RewriteToRoot);
    assert_eq!(route("/canvas/abc", false), SPARoute::RewriteToRoot);
}
