use simply_files::index::Index;
use simply_files::records::FileAccess;
use simply_files::sync::{handle_entry, sync_from_db};

#[test]
fn boot_sync_indexes_a_discovered_file() {
    // An empty index, a file found on storage: a fresh row appears with
    // the observed size and the reconciliation chunk count.
    let mut index = Index::new();
    let added = handle_entry(
        &mut index,
        "/data/photos/x.jpg",
        "/data",
        1234,
        "AAAAAAAAAA",
        50,
    )
    .unwrap();
    assert!(added);
    let f = index.get_via_path("photos/x.jpg").unwrap();
    assert_eq!(f.id.len(), 10);
    assert_eq!(f.size, 1234);
    assert_eq!(f.total_chunks, -1);
    assert_eq!(f.get_access(), FileAccess::Private);
}

#[test]
fn already_indexed_entries_are_skipped() {
    let mut index = Index::new();
    index.new_file("AAAAAAAAAA", "photos/x.jpg", 1, 0).unwrap();
    let added =
        handle_entry(&mut index, "/data/photos/x.jpg", "/data", 9, "BBBBBBBBBB", 1).unwrap();
    assert!(!added);
    assert_eq!(index.get_total_amount_of_files(), 1);
}

#[test]
fn entries_outside_the_root_are_skipped() {
    let mut index = Index::new();
    let added = handle_entry(&mut index, "/other/x.jpg", "/data", 9, "AAAAAAAAAA", 1).unwrap();
    assert!(!added);
    assert_eq!(index.get_total_amount_of_files(), 0);
}

#[test]
fn backslashes_are_normalised_when_indexing() {
    let mut index = Index::new();
    let added =
        handle_entry(&mut index, "/data\\photos\\y.jpg", "/data", 5, "AAAAAAAAAA", 1).unwrap();
    assert!(added);
    assert!(index.get_via_path("photos/y.jpg").is_some());
}

#[test]
fn rows_without_bytes_are_dropped_at_boot() {
    let mut index = Index::new();
    index.new_file("AAAAAAAAAA", "gone.txt", 1, 0).unwrap();
    index.new_file("BBBBBBBBBB", "kept.txt", 1, 0).unwrap();
    sync_from_db(&mut index, &vec![false, true]);
    assert!(index.get_via_id("AAAAAAAAAA").is_none());
    assert!(index.get_via_id("BBBBBBBBBB").is_some());
    assert_eq!(index.get_total_amount_of_files(), 1);
}

#[test]
fn sync_keeps_links_untouched() {
    let mut index = Index::new();
    index.new_link("LLLLLLLLLL", 0).unwrap();
    index.new_file("AAAAAAAAAA", "gone.txt", 1, 0).unwrap();
    sync_from_db(&mut index, &vec![false]);
    assert!(index.get_link_via_id("LLLLLLLLLL").is_some());
}
