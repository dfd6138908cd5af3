use static_spa_routes::asset::{Asset, EntryKind, RawEntry};
use static_spa_routes::error::BuildError;
use static_spa_routes::table::{build_table, synthesize};

fn file(path: &str, content: &[u8]) -> RawEntry {
    RawEntry {
        kind: EntryKind::RegularFile,
        path: String::from(path),
        content: content.to_vec(),
    }
}

fn dir(path: &str) -> RawEntry {
    RawEntry { kind: EntryKind::Directory, path: String::from(path), content: Vec::new() }
}

fn asset(route: &str, content: &[u8]) -> Asset {
    Asset { route: String::from(route), content: content.to_vec() }
}

#[test]
fn example_two_files_table() {
    let entries = vec![
        dir("dist"),
        file("dist/index.html", b"<html></html>"),
        file("dist/app.js", b"console.log(1)"),
    ];
    let table = build_table("dist", &entries).unwrap();
    assert_eq!(table.entry_count(), 2);

    let (bytes, html) = table.serve("/index.html");
    assert_eq!(bytes.as_slice(), b"<html></html>");
    assert!(!html);

    let (bytes, html) = table.serve("/app.js");
    assert_eq!(bytes.as_slice(), b"console.log(1)");
    assert!(!html);

    let (bytes, html) = table.serve("/missing");
    assert_eq!(bytes.as_slice(), b"<html></html>");
    assert!(html);
}

#[test]
fn missing_entry_document_fails() {
    let entries = vec![dir("dist"), file("dist/app.js", b"console.log(1)")];
    let err = build_table("dist", &entries).unwrap_err();
    assert_eq!(err, BuildError::MissingEntryDocument);
}

#[test]
fn empty_tree_fails() {
    let entries: Vec<RawEntry> = Vec::new();
    let err = build_table("dist", &entries).unwrap_err();
    assert_eq!(err, BuildError::MissingEntryDocument);
}

#[test]
fn synthesize_requires_entry_document() {
    let assets = vec![asset("/app.js", b"console.log(1)")];
    let err = synthesize(assets).unwrap_err();
    assert_eq!(err, BuildError::MissingEntryDocument);

    let assets = vec![asset("/app.js", b"console.log(1)"), asset("/index.html", b"<html></html>")];
    assert!(synthesize(assets).is_ok());
}

#[test]
fn fallback_bytes_equal_entry_document() {
    let assets = vec![asset("/a.css", b"body{}"), asset("/index.html", b"<!doctype html>")];
    let table = synthesize(assets).unwrap();
    assert_eq!(table.fallback_bytes().as_slice(), b"<!doctype html>");

    let (via_exact, html_exact) = table.serve("/index.html");
    let via_exact = via_exact.clone();
    let (via_fallback, html_fallback) = table.serve("/nonexistent/path");
    assert_eq!(via_exact, *via_fallback);
    assert_eq!(via_exact.as_slice(), b"<!doctype html>");
    assert!(!html_exact);
    assert!(html_fallback);
}

#[test]
fn exact_match_takes_precedence() {
    let assets = vec![asset("/index.html", b"<html>x</html>"), asset("/app.js", b"js")];
    let table = synthesize(assets).unwrap();
    let (bytes, html) = table.serve("/app.js");
    assert_eq!(bytes.as_slice(), b"js");
    assert!(!html);
}

#[test]
fn lookup_exact_finds_only_exact_routes() {
    let assets = vec![asset("/index.html", b"<html></html>"), asset("/app.js", b"js")];
    let table = synthesize(assets).unwrap();
    assert_eq!(table.lookup_exact("/app.js").unwrap().as_slice(), b"js");
    assert_eq!(table.lookup_exact("/index.html").unwrap().as_slice(), b"<html></html>");
    assert!(table.lookup_exact("/app").is_none());
    assert!(table.lookup_exact("/app.js/").is_none());
    assert!(table.lookup_exact("").is_none());
}

#[test]
fn error_messages_name_the_condition() {
    assert_eq!(
        BuildError::MissingEntryDocument.describe(),
        "no asset maps to the route /index.html"
    );
    assert_eq!(BuildError::Traversal.describe(), "failed to walk the asset directory");
    assert_eq!(BuildError::UnreadableFile.describe(), "failed to read an asset file");
    assert_eq!(
        BuildError::InvalidPathText.describe(),
        "asset path is not representable as text"
    );
}
