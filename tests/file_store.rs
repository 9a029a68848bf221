use cratesfyi::mime::{classify_mime, file_extension};
use cratesfyi::store::{
    add_path_into_database, blob_from_object, get_path, FileInput, is_offloaded, move_to_s3, offload_marker, stage_put, Ingestion,
    Lookup, StoredRow, Timestamp, Upsert,
};
use cratesfyi::walk::{get_file_list, join_key, DirEntry, EntryKind, FileList, Root};
use cratesfyi::FileError;

fn entry(name: &str, kind: EntryKind) -> DirEntry {
    DirEntry { name: name.to_string(), kind }
}

fn run_walk(mut list: FileList, tree: &dyn Fn(&str) -> Vec<DirEntry>) -> Vec<String> {
    while let Some(dir) = list.next_dir() {
        let entries = tree(&dir);
        list.visit(&dir, &entries);
    }
    list.into_files()
}

fn sample_tree(dir: &str) -> Vec<DirEntry> {
    match dir {
        "" => vec![
            entry("Cargo.toml", EntryKind::File),
            entry("src", EntryKind::Dir),
            entry("link", EntryKind::Other),
        ],
        "src" => vec![entry("lib.rs", EntryKind::File), entry("db", EntryKind::Dir)],
        "src/db" => vec![entry("file.rs", EntryKind::File)],
        _ => vec![],
    }
}

fn row(path: &str, mime: &str, content: Vec<u8>) -> StoredRow {
    StoredRow {
        path: path.to_string(),
        mime: mime.to_string(),
        date_updated: Timestamp { sec: 1_500_000_000, nsec: 7 },
        content,
    }
}

#[test]
fn test_get_file_list() {
    let files = get_file_list(Root::Dir);
    assert!(files.is_ok());
    let files = run_walk(files.unwrap(), &sample_tree);
    assert!(files.len() > 0);

    let files = run_walk(get_file_list(Root::File("Cargo.toml".to_string())).unwrap(), &sample_tree);
    assert_eq!(files[0], "Cargo.toml");
}

#[test]
fn walk_lists_regular_files_relative_to_root() {
    let mut files = run_walk(get_file_list(Root::Dir).unwrap(), &sample_tree);
    files.sort();
    assert_eq!(files, vec!["Cargo.toml", "src/db/file.rs", "src/lib.rs"]);
}

#[test]
fn single_file_yields_its_name() {
    let files = run_walk(get_file_list(Root::File("index.html".to_string())).unwrap(), &sample_tree);
    assert_eq!(files, vec!["index.html".to_string()]);
}

#[test]
fn missing_root_is_not_found() {
    assert!(matches!(get_file_list(Root::Missing), Err(FileError::NotFound)));
}

#[test]
fn other_root_yields_nothing() {
    let files = run_walk(get_file_list(Root::Other).unwrap(), &sample_tree);
    assert!(files.is_empty());
}

#[test]
fn join_key_of_root_and_nested() {
    assert_eq!(join_key("", "a.txt"), "a.txt");
    assert_eq!(join_key("crate/1.0", "src/lib.rs"), "crate/1.0/src/lib.rs");
}

#[test]
fn extension_of_paths() {
    assert_eq!(file_extension("a/b/style.css"), Some("css".to_string()));
    assert_eq!(file_extension("a.b/file"), None);
    assert_eq!(file_extension(".hidden"), None);
    assert_eq!(file_extension("x/.js"), None);
    assert_eq!(file_extension("dir/archive.tar.gz"), Some("gz".to_string()));
    assert_eq!(file_extension("end."), Some(String::new()));
}

#[test]
fn classify_css_and_js_overrides() {
    assert_eq!(classify_mime("text/plain", "static/main.css"), "text/css");
    assert_eq!(classify_mime("text/plain", "static/main.js"), "application/javascript");
    assert_eq!(classify_mime("text/plain", "README.txt"), "text/plain");
    assert_eq!(classify_mime("text/html", "page.css"), "text/html");
    assert_eq!(classify_mime("text/html", "page.js"), "text/html");
    assert_eq!(classify_mime("image/png", "logo.png"), "image/png");
}

#[test]
fn marker_is_in_s3() {
    assert_eq!(offload_marker(), b"in-s3".to_vec());
    assert!(is_offloaded(&b"in-s3".to_vec()));
    assert!(!is_offloaded(&b"in-s4".to_vec()));
    assert!(!is_offloaded(&b"in-s3 ".to_vec()));
}

#[test]
fn stage_put_inline_and_offloaded() {
    let w = stage_put("p/a.html".to_string(), "text/html".to_string(), b"<p>".to_vec(), false, 0);
    assert_eq!(w.kind, Upsert::Insert);
    assert_eq!(w.content, b"<p>".to_vec());
    let w = stage_put("p/a.html".to_string(), "text/html".to_string(), b"<p>".to_vec(), true, 1);
    assert_eq!(w.kind, Upsert::Update);
    assert_eq!(w.content, b"in-s3".to_vec());
    assert_eq!(w.path, "p/a.html");
    assert_eq!(w.mime, "text/html");
}

#[test]
fn get_path_inline_round_trip() {
    match get_path(Some(row("p/a.css", "text/css", b"body{}".to_vec()))) {
        Some(Lookup::Ready(b)) => {
            assert_eq!(b.path, "p/a.css");
            assert_eq!(b.mime, "text/css");
            assert_eq!(b.content, b"body{}".to_vec());
            assert_eq!(b.date_updated, Timestamp { sec: 1_500_000_000, nsec: 7 });
        }
        _ => panic!("expected an inline blob"),
    }
}

#[test]
fn get_path_missing_row() {
    assert!(get_path(None).is_none());
}

#[test]
fn get_path_offloaded_round_trip() {
    let r = match get_path(Some(row("p/a.css", "text/css", b"in-s3".to_vec()))) {
        Some(Lookup::Offloaded(r)) => r,
        _ => panic!("expected an offloaded row"),
    };
    assert_eq!(r.path, "p/a.css");
    let b = blob_from_object(r, Some(b"body{}".to_vec())).ok().unwrap();
    assert_eq!(b.mime, "text/css");
    assert_eq!(b.content, b"body{}".to_vec());
}

#[test]
fn failed_fetch_is_an_error() {
    let r = blob_from_object(row("p/a.css", "text/css", b"in-s3".to_vec()), None);
    assert!(matches!(r, Err(FileError::Fetch)));
}

#[test]
fn reput_replaces_prior_value() {
    let first = stage_put("k".to_string(), "text/plain".to_string(), b"one".to_vec(), false, 0);
    let second = stage_put("k".to_string(), "text/html".to_string(), b"two".to_vec(), false, 1);
    assert_eq!(first.kind, Upsert::Insert);
    assert_eq!(second.kind, Upsert::Update);
    match get_path(Some(row("k", &second.mime, second.content.clone()))) {
        Some(Lookup::Ready(b)) => {
            assert_eq!(b.mime, "text/html");
            assert_eq!(b.content, b"two".to_vec());
        }
        _ => panic!("expected an inline blob"),
    }
}

#[test]
fn ingestion_skips_unreadable_file() {
    let mut ing = Ingestion::new();
    ing.record("krate/0.1.0", &"style.css".to_string(), Some(b"a{}".to_vec()), "text/plain", false, 0);
    ing.record("krate/0.1.0", &".cargo-lock".to_string(), None, "", false, 0);
    ing.record("krate/0.1.0", &"src/index.html".to_string(), Some(b"<html>".to_vec()), "text/html", true, 3);
    assert_eq!(ing.manifest.len(), 2);
    assert_eq!(ing.manifest[0], ("text/css".to_string(), "style.css".to_string()));
    assert_eq!(ing.manifest[1], ("text/html".to_string(), "src/index.html".to_string()));
    assert_eq!(ing.writes.len(), 2);
    assert_eq!(ing.writes[0].path, "krate/0.1.0/style.css");
    assert_eq!(ing.writes[0].content, b"a{}".to_vec());
    assert_eq!(ing.writes[0].kind, Upsert::Insert);
    assert_eq!(ing.writes[1].path, "krate/0.1.0/src/index.html");
    assert_eq!(ing.writes[1].content, b"in-s3".to_vec());
    assert_eq!(ing.writes[1].kind, Upsert::Update);
}

#[test]
fn disjoint_prefixes_give_disjoint_keys() {
    let mut a = Ingestion::new();
    let mut b = Ingestion::new();
    a.record("foo/1.0", &"index.html".to_string(), Some(b"a".to_vec()), "text/html", false, 0);
    b.record("foo/1.01", &"index.html".to_string(), Some(b"b".to_vec()), "text/html", false, 0);
    assert_ne!(a.writes[0].path, b.writes[0].path);
}

#[test]
fn migration_flips_all_on_success() {
    let paths = vec!["a".to_string(), "b/c".to_string(), "d".to_string()];
    let flips = move_to_s3(&paths, &vec![true, true, true]).unwrap();
    assert_eq!(flips, paths);
}

#[test]
fn migration_flips_nothing_on_any_failure() {
    let paths = vec!["a".to_string(), "b/c".to_string(), "d".to_string()];
    assert!(move_to_s3(&paths, &vec![true, false, true]).is_none());
}

#[test]
fn empty_migration_batch() {
    assert_eq!(move_to_s3(&vec![], &vec![]), Some(vec![]));
}

fn input(rel: &str, content: Option<&[u8]>, sniffed: &str) -> FileInput {
    FileInput {
        rel: rel.to_string(),
        content: content.map(|c| c.to_vec()),
        sniffed: sniffed.to_string(),
        offloaded: false,
        existing_rows: 0,
    }
}

#[test]
fn tree_with_unreadable_file_gives_two_entries() {
    let ing = add_path_into_database(
        "serde/1.0.0",
        vec![
            input("index.html", Some(b"<html>"), "text/html"),
            input(".lock", None, ""),
            input("static/app.js", Some(b"let x = 1;"), "text/plain"),
        ],
    );
    assert_eq!(
        ing.manifest,
        vec![
            ("text/html".to_string(), "index.html".to_string()),
            ("application/javascript".to_string(), "static/app.js".to_string()),
        ]
    );
    let keys: Vec<&str> = ing.writes.iter().map(|w| w.path.as_str()).collect();
    assert_eq!(keys, vec!["serde/1.0.0/index.html", "serde/1.0.0/static/app.js"]);
}

#[test]
fn trees_under_disjoint_prefixes_share_no_key() {
    let a = add_path_into_database("a/1.0", vec![input("x.html", Some(b"1"), "text/html")]);
    let b = add_path_into_database("b/1.0", vec![input("x.html", Some(b"2"), "text/html")]);
    assert_eq!(a.writes[0].path, "a/1.0/x.html");
    assert_eq!(b.writes[0].path, "b/1.0/x.html");
    assert_eq!(a.writes[0].content, b"1".to_vec());
    assert_eq!(b.writes[0].content, b"2".to_vec());
}

#[test]
fn empty_tree_stages_nothing() {
    let ing = add_path_into_database("p", vec![]);
    assert!(ing.manifest.is_empty());
    assert!(ing.writes.is_empty());
}
