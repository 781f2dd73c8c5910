use simply_files::index::Index;
use simply_files::listing::{directory_listing, join_path};
use simply_files::records::{ClientFile, File, FileMetadata};

fn meta(path: &str, is_dir: bool, size: u64) -> FileMetadata {
    FileMetadata { path: path.to_string(), is_dir, size, modified: 100 }
}

fn row(id: &str, path: &str, size: i64) -> File {
    File {
        id: id.to_string(),
        path: path.to_string(),
        size,
        download_count: 0,
        last_downloaded_at: None,
        created_at: 0,
        updated_at: 0,
        access: 0,
        chunk_index: 0,
        total_chunks: 1,
    }
}

#[test]
fn join_respects_the_root() {
    assert_eq!(join_path("", "a.txt"), "a.txt");
    assert_eq!(join_path("docs", "a.txt"), "docs/a.txt");
}

#[test]
fn rows_are_joined_on_path() {
    let reals = vec![meta("a.txt", false, 11), meta("sub", true, 0), meta("b.txt", false, 5)];
    let dbs = vec![row("AAAAAAAAAA", "a.txt", 11)];
    let rows = ClientFile::from("", reals, dbs);
    assert_eq!(rows.len(), 3);
    assert_eq!(rows[0].path, "a.txt");
    assert_eq!(rows[0].id.as_deref(), Some("AAAAAAAAAA"));
    assert_eq!(rows[0].access, Some(0));
    assert!(rows[1].is_dir);
    assert!(rows[1].id.is_none());
    assert!(rows[2].id.is_none());
}

#[test]
fn in_progress_uploads_are_suppressed() {
    let reals = vec![meta("a.txt", false, 11)];
    let dbs = vec![row("AAAAAAAAAA", "a.txt", 0)];
    let rows = ClientFile::from("", reals, dbs);
    assert!(rows.is_empty());
}

#[test]
fn base_path_prefixes_the_join() {
    let reals = vec![meta("a.txt", false, 11)];
    let dbs = vec![row("AAAAAAAAAA", "docs/a.txt", 11)];
    let rows = ClientFile::from("docs", reals, dbs);
    assert_eq!(rows.len(), 1);
    assert_eq!(rows[0].id.as_deref(), Some("AAAAAAAAAA"));
}

#[test]
fn listing_hides_the_reserved_prefix() {
    let mut index = Index::new();
    index.new_file("AAAAAAAAAA", "a.txt", 1, 0).unwrap();
    index.successful_upload("AAAAAAAAAA", 11, 1);
    let storage = vec![meta("a.txt", false, 11), meta(".public_uploads", true, 0)];
    let rows = directory_listing(&index, "", storage);
    assert_eq!(rows.len(), 1);
    assert_eq!(rows[0].path, "a.txt");
    assert_eq!(rows[0].id.as_deref(), Some("AAAAAAAAAA"));
}
