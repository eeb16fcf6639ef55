use crates_io_lsp::documents::{is_manifest_path, DocumentStore, FileInfo};
use crates_io_lsp::text::{EditError, Position, Range, TextChange};

fn ranged(l0: usize, c0: usize, l1: usize, c1: usize, text: &str) -> TextChange {
    TextChange {
        range: Some(Range {
            start: Position { line: l0, character: c0 },
            end: Position { line: l1, character: c1 },
        }),
        text: text.as_bytes().to_vec(),
    }
}

#[test]
fn file_info_keeps_text_and_version() {
    let f = FileInfo::new(b"x".to_vec(), 3);
    assert_eq!(f.text, b"x".to_vec());
    assert_eq!(f.version, 3);
}

#[test]
fn manifest_paths_by_last_segment() {
    assert!(is_manifest_path("/home/u/project/Cargo.toml"));
    assert!(is_manifest_path("Cargo.toml"));
    assert!(!is_manifest_path("/home/u/project/MyCargo.toml"));
    assert!(!is_manifest_path("/home/u/Cargo.toml/"));
    assert!(!is_manifest_path("/home/u/Cargo.lock"));
}

#[test]
fn open_change_and_save() {
    let mut store = DocumentStore::new();
    let uri = "file:///p/Cargo.toml";
    let pass = store.open(uri.to_string(), b"a = \"1\"\n".to_vec(), 1);
    assert_eq!(pass.text, b"a = \"1\"\n".to_vec());
    assert_eq!(pass.version, Some(1));
    let pass = store.change(uri, &vec![ranged(0, 5, 0, 6, "2")], 2).unwrap().unwrap();
    assert_eq!(pass.text, b"a = \"2\"\n".to_vec());
    assert_eq!(pass.version, Some(2));
    let bad = store.change(uri, &vec![ranged(5, 0, 5, 0, "x")], 3);
    assert_eq!(bad.unwrap_err(), EditError::PositionOutOfRange);
    let saved = store.save(uri, None).unwrap();
    assert_eq!(saved.text, b"a = \"2\"\n".to_vec());
    assert_eq!(saved.version, Some(2));
    let saved = store.save(uri, Some(b"b = \"3\"\n".to_vec())).unwrap();
    assert_eq!(saved.text, b"b = \"3\"\n".to_vec());
    assert_eq!(saved.version, Some(2));
}

#[test]
fn save_of_unopened_document_runs_no_pass() {
    let mut store = DocumentStore::new();
    assert!(store.save("file:///q/Cargo.toml", Some(b"x".to_vec())).is_none());
    assert!(store.save("file:///q/Cargo.toml", None).is_none());
}

#[test]
fn is_current_follows_version_and_close() {
    let mut store = DocumentStore::new();
    let uri = "file:///p/Cargo.toml";
    store.open(uri.to_string(), b"a".to_vec(), 1);
    assert!(store.is_current(uri, 1));
    store.change(uri, &vec![ranged(0, 0, 0, 0, "b")], 2).unwrap();
    assert!(!store.is_current(uri, 1));
    assert!(store.is_current(uri, 2));
    store.close(uri);
    assert!(!store.is_current(uri, 2));
}

#[test]
fn close_clears_once_and_stops_passes() {
    let mut store = DocumentStore::new();
    let uri = "file:///p/Cargo.toml";
    store.open(uri.to_string(), b"a".to_vec(), 1);
    assert!(store.close(uri));
    assert!(!store.close(uri));
    assert!(store.change(uri, &vec![ranged(0, 0, 0, 0, "b")], 2).unwrap().is_none());
    assert!(store.save(uri, Some(b"c".to_vec())).is_none());
    store.open(uri.to_string(), b"a".to_vec(), 3);
    assert!(store.change(uri, &vec![ranged(0, 0, 0, 0, "b")], 4).unwrap().is_some());
}
