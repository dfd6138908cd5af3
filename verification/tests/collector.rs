use static_spa_routes::asset::{collect, route_from_path, str_eq, EntryKind, RawEntry};
use static_spa_routes::error::BuildError;

fn file(path: &str, content: &[u8]) -> RawEntry {
    RawEntry {
        kind: EntryKind::RegularFile,
        path: String::from(path),
        content: content.to_vec(),
    }
}

fn non_file(kind: EntryKind, path: &str) -> RawEntry {
    RawEntry { kind, path: String::from(path), content: Vec::new() }
}

#[test]
fn route_is_path_relative_to_root() {
    assert_eq!(route_from_path("dist", "dist/index.html").unwrap(), "/index.html");
    assert_eq!(route_from_path("dist", "dist/assets/app.js").unwrap(), "/assets/app.js");
    assert_eq!(route_from_path("dist", "dist").unwrap(), "");
    assert_eq!(route_from_path("", "/anything").unwrap(), "/anything");
}

#[test]
fn route_needs_the_root_prefix() {
    assert!(route_from_path("dist", "other/index.html").is_none());
    assert!(route_from_path("dist", "dis").is_none());
    assert!(route_from_path("frontend/dist", "dist/index.html").is_none());
}

#[test]
fn collect_keeps_files_verbatim() {
    let entries = vec![
        file("dist/index.html", b"<html></html>"),
        file("dist/app.js", b"console.log(1)"),
    ];
    let assets = collect("dist", &entries).unwrap();
    assert_eq!(assets.len(), 2);
    assert_eq!(assets[0].route, "/index.html");
    assert_eq!(assets[0].content.as_slice(), b"<html></html>");
    assert_eq!(assets[1].route, "/app.js");
    assert_eq!(assets[1].content.as_slice(), b"console.log(1)");
}

#[test]
fn collect_skips_directories_and_specials() {
    let entries = vec![
        non_file(EntryKind::Directory, "dist"),
        non_file(EntryKind::Directory, "dist/assets"),
        file("dist/assets/app.js", b"js"),
        non_file(EntryKind::Other, "dist/assets/link"),
    ];
    let assets = collect("dist", &entries).unwrap();
    assert_eq!(assets.len(), 1);
    assert_eq!(assets[0].route, "/assets/app.js");
}

#[test]
fn collect_of_only_non_files_is_empty() {
    let entries = vec![
        non_file(EntryKind::Directory, "dist"),
        non_file(EntryKind::Other, "dist/pipe"),
    ];
    let assets = collect("dist", &entries).unwrap();
    assert!(assets.is_empty());
}

#[test]
fn collect_fails_on_a_file_outside_the_root() {
    let entries = vec![file("dist/index.html", b"x"), file("elsewhere/app.js", b"y")];
    let err = collect("dist", &entries).unwrap_err();
    assert_eq!(err, BuildError::Traversal);
}

#[test]
fn collect_ignores_non_file_paths_outside_the_root() {
    let entries = vec![non_file(EntryKind::Directory, "elsewhere"), file("dist/index.html", b"x")];
    let assets = collect("dist", &entries).unwrap();
    assert_eq!(assets.len(), 1);
}

#[test]
fn str_eq_compares_by_characters() {
    assert!(str_eq("", ""));
    assert!(str_eq("/index.html", "/index.html"));
    assert!(!str_eq("/index.html", "/index.htm"));
    assert!(!str_eq("a", "b"));
    assert!(str_eq("déjà", "déjà"));
    assert!(!str_eq("déjà", "deja"));
}
