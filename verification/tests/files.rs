//! Path resolution and the file endpoints, driven by explicit filesystem
//! outcomes.

use http_server::errors::{FsErrorKind, HttpError};
use http_server::handlers::{handle_get_file, handle_post_file, read_outcome};
use http_server::paths::{is_within_root, join_path, resolve_read, resolve_write, split_parent};
use http_server::request::Request;
use http_server::response::Status;
use http_server::router::{handle_route, parse_route, Dispatch};

#[test]
fn join_appends_relative_names() {
    assert_eq!(join_path(b"/srv/files", b"a.txt"), b"/srv/files/a.txt".to_vec());
    assert_eq!(join_path(b"/srv/files", b""), b"/srv/files/".to_vec());
    assert_eq!(join_path(b"/srv/files", b"/etc/passwd"), b"/etc/passwd".to_vec());
}

#[test]
fn containment_is_component_wise() {
    assert!(is_within_root(b"/srv/files/a.txt", b"/srv/files"));
    assert!(is_within_root(b"/srv/files", b"/srv/files"));
    assert!(!is_within_root(b"/srv/filesystem", b"/srv/files"));
    assert!(!is_within_root(b"/etc/passwd", b"/srv/files"));
    assert!(is_within_root(b"/etc/passwd", b"/"));
}

#[test]
fn split_parent_cuts_at_the_last_slash() {
    let (parent, leaf) = split_parent(b"/srv/files/sub/report.txt").unwrap();
    assert_eq!(parent, b"/srv/files/sub".to_vec());
    assert_eq!(leaf, b"report.txt".to_vec());
    assert!(split_parent(b"noslash").is_none());
}

#[test]
fn traversal_is_refused_on_read_and_write() {
    let read = resolve_read(Ok(b"/etc/passwd".to_vec()), Ok(b"/srv/files".to_vec()));
    assert!(matches!(read, Err(HttpError::PathTraversal)));
    let write = resolve_write(
        Ok(b"/etc".to_vec()),
        Ok(b"/srv/files".to_vec()),
        b"passwd",
    );
    assert!(matches!(write, Err(HttpError::PathTraversal)));
    let resp = handle_get_file(Err(HttpError::PathTraversal));
    assert!(matches!(resp.status, Status::BadRequest));
    let resp = handle_post_file(Err(HttpError::PathTraversal));
    assert!(matches!(resp.status, Status::BadRequest));
}

#[test]
fn contained_read_resolves_to_the_canonical_target() {
    let read = resolve_read(
        Ok(b"/srv/files/a.txt".to_vec()),
        Ok(b"/srv/files".to_vec()),
    );
    assert_eq!(read.unwrap(), b"/srv/files/a.txt".to_vec());
}

#[test]
fn contained_write_appends_the_leaf_to_the_canonical_parent() {
    let write = resolve_write(
        Ok(b"/srv/files/sub".to_vec()),
        Ok(b"/srv/files".to_vec()),
        b"report.txt",
    );
    assert_eq!(write.unwrap(), b"/srv/files/sub/report.txt".to_vec());
}

#[test]
fn missing_target_maps_to_not_found_and_404() {
    let read = resolve_read(Err(FsErrorKind::NotFound), Ok(b"/srv/files".to_vec()));
    assert!(matches!(read, Err(HttpError::FileNotFound)));
    let resp = handle_get_file(read.map(|_| Vec::new()));
    assert!(matches!(resp.status, Status::NotFound));
    assert_eq!(resp.into_bytes(), b"HTTP/1.1 404 Not Found\r\n\r\n".to_vec());
}

#[test]
fn denied_target_maps_to_400() {
    let read = resolve_read(Err(FsErrorKind::PermissionDenied), Ok(b"/srv/files".to_vec()));
    assert!(matches!(read, Err(HttpError::PermissionDenied)));
    let resp = handle_get_file(read.map(|_| Vec::new()));
    assert!(matches!(resp.status, Status::BadRequest));
}

#[test]
fn read_outcome_maps_filesystem_failures() {
    assert!(matches!(read_outcome(Err(FsErrorKind::NotFound)), Err(HttpError::FileNotFound)));
    assert!(matches!(
        read_outcome(Err(FsErrorKind::PermissionDenied)),
        Err(HttpError::PermissionDenied)
    ));
    assert!(matches!(read_outcome(Err(FsErrorKind::Other)), Err(HttpError::Io)));
    assert_eq!(read_outcome(Ok(b"x".to_vec())).unwrap(), b"x".to_vec());
}

#[test]
fn missing_root_maps_to_400() {
    let resp = handle_get_file(Err(HttpError::DirectoryNotSpecified));
    assert!(matches!(resp.status, Status::BadRequest));
    let resp = handle_post_file(Err(HttpError::DirectoryNotSpecified));
    assert!(matches!(resp.status, Status::BadRequest));
}

#[test]
fn post_then_get_round_trips_the_body() {
    // The filesystem work is driven by hand: the write stores the body, the
    // later read hands the same bytes back, as a real directory would.
    let post = Request::parse(b"POST /files/report.txt HTTP/1.1\r\nContent-Length: 9\r\n\r\nwednesday")
        .unwrap()
        .unwrap()
        .0;
    let route = parse_route(&post.method, &post.path);
    let (name, body) = match handle_route(route, &post) {
        Dispatch::WriteFile(name, body) => (name, body),
        _ => panic!("expected the file-writing route"),
    };
    assert_eq!(name, b"report.txt".to_vec());
    let stored = body.clone();
    let created = handle_post_file(Ok(()));
    assert_eq!(created.into_bytes(), b"HTTP/1.1 201 Created\r\n\r\n".to_vec());

    let get = Request::parse(b"GET /files/report.txt HTTP/1.1\r\n\r\n").unwrap().unwrap().0;
    let route = parse_route(&get.method, &get.path);
    let read_name = match handle_route(route, &get) {
        Dispatch::ReadFile(name) => name,
        _ => panic!("expected the file-reading route"),
    };
    assert_eq!(read_name, b"report.txt".to_vec());
    let resp = handle_get_file(read_outcome(Ok(stored)));
    let bytes = resp.into_bytes();
    assert_eq!(
        bytes,
        b"HTTP/1.1 200 OK\r\nContent-Type: application/octet-stream\r\nContent-Length: 9\r\n\r\nwednesday"
            .to_vec()
    );
}
