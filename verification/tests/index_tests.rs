use simply_files::index::{Index, IndexError};
use simply_files::records::FileAccess;

#[test]
fn new_file_defaults() {
    let mut index = Index::new();
    let f = index.new_file("AAAAAAAAAA", "a.txt", 3, 42).unwrap();
    assert_eq!(f.id, "AAAAAAAAAA");
    assert_eq!(f.path, "a.txt");
    assert_eq!(f.size, 0);
    assert_eq!(f.download_count, 0);
    assert_eq!(f.last_downloaded_at, None);
    assert_eq!(f.created_at, 42);
    assert_eq!(f.updated_at, 42);
    assert_eq!(f.get_access(), FileAccess::Private);
    assert_eq!(f.chunk_index, 0);
    assert_eq!(f.total_chunks, 3);
}

#[test]
fn duplicate_path_or_id_conflicts() {
    let mut index = Index::new();
    index.new_file("AAAAAAAAAA", "a.txt", 1, 0).unwrap();
    assert_eq!(
        index.new_file("BBBBBBBBBB", "a.txt", 1, 0).unwrap_err(),
        IndexError::Conflict
    );
    assert_eq!(
        index.new_file("AAAAAAAAAA", "b.txt", 1, 0).unwrap_err(),
        IndexError::Conflict
    );
}

#[test]
fn lookups_by_id_and_path() {
    let mut index = Index::new();
    index.new_file("AAAAAAAAAA", "a.txt", 1, 0).unwrap();
    index.new_file("BBBBBBBBBB", "b.txt", 1, 0).unwrap();
    assert_eq!(index.get_via_id("AAAAAAAAAA").unwrap().path, "a.txt");
    assert_eq!(index.get_via_path("b.txt").unwrap().id, "BBBBBBBBBB");
    assert!(index.get_via_id("CCCCCCCCCC").is_none());
    assert!(index.get_via_path("c.txt").is_none());
}

#[test]
fn delete_removes_only_the_named_row() {
    let mut index = Index::new();
    index.new_file("AAAAAAAAAA", "a.txt", 1, 0).unwrap();
    index.new_file("BBBBBBBBBB", "b.txt", 1, 0).unwrap();
    index.delete("AAAAAAAAAA");
    assert!(index.get_via_id("AAAAAAAAAA").is_none());
    assert!(index.get_via_id("BBBBBBBBBB").is_some());
    assert_eq!(index.get_total_amount_of_files(), 1);
}

#[test]
fn successful_upload_sets_size_and_updated_at() {
    let mut index = Index::new();
    index.new_file("AAAAAAAAAA", "a.txt", 1, 0).unwrap();
    index.successful_upload("AAAAAAAAAA", 11, 9);
    let f = index.get_via_id("AAAAAAAAAA").unwrap();
    assert_eq!(f.size, 11);
    assert_eq!(f.updated_at, 9);
    assert_eq!(f.created_at, 0);
}

#[test]
fn rename_refuses_a_taken_path() {
    let mut index = Index::new();
    index.new_file("AAAAAAAAAA", "a.txt", 1, 0).unwrap();
    index.new_file("BBBBBBBBBB", "b.txt", 1, 0).unwrap();
    assert_eq!(
        index.rename("AAAAAAAAAA", "b.txt", 1).unwrap_err(),
        IndexError::Conflict
    );
    index.rename("AAAAAAAAAA", "c.txt", 2).unwrap();
    assert_eq!(index.get_via_id("AAAAAAAAAA").unwrap().path, "c.txt");
}

#[test]
fn change_access_flips_the_stored_value() {
    let mut index = Index::new();
    index.new_file("AAAAAAAAAA", "a.txt", 1, 0).unwrap();
    index.change_access("AAAAAAAAAA", FileAccess::Public, 1);
    assert_eq!(
        index.get_via_id("AAAAAAAAAA").unwrap().get_access(),
        FileAccess::Public
    );
    index.change_access("AAAAAAAAAA", FileAccess::Private, 2);
    assert_eq!(
        index.get_via_id("AAAAAAAAAA").unwrap().get_access(),
        FileAccess::Private
    );
}

#[test]
fn download_counter_and_instant() {
    let mut index = Index::new();
    index.new_file("AAAAAAAAAA", "a.txt", 1, 0).unwrap();
    index.increment_download_count("AAAAAAAAAA", 1, 7);
    let f = index.get_via_id("AAAAAAAAAA").unwrap();
    assert_eq!(f.download_count, 1);
    assert_eq!(f.last_downloaded_at, Some(7));
}

#[test]
fn bytes_stored_sums_all_sizes() {
    let mut index = Index::new();
    index.new_file("AAAAAAAAAA", "a.txt", 1, 0).unwrap();
    index.new_file("BBBBBBBBBB", "b.txt", 1, 0).unwrap();
    index.successful_upload("AAAAAAAAAA", 100, 1);
    index.successful_upload("BBBBBBBBBB", 34, 1);
    assert_eq!(index.get_bytes_stored(), 134);
}

#[test]
fn children_of_a_directory() {
    let mut index = Index::new();
    index.new_file("AAAAAAAAAA", "top.txt", 1, 0).unwrap();
    index.new_file("BBBBBBBBBB", "docs/a.txt", 1, 0).unwrap();
    index.new_file("CCCCCCCCCC", "docs/deep/b.txt", 1, 0).unwrap();
    index.new_file("DDDDDDDDDD", "docsx/c.txt", 1, 0).unwrap();
    let root = index.get_files_in_directory("");
    assert_eq!(root.len(), 1);
    assert_eq!(root[0].path, "top.txt");
    let docs = index.get_files_in_directory("docs");
    assert_eq!(docs.len(), 1);
    assert_eq!(docs[0].path, "docs/a.txt");
    assert!(index.get_files_in_directory("docs/deep").len() == 1);
    assert!(index.get_files_in_directory("nope").is_empty());
}

#[test]
fn links_bind_once_and_become_unusable() {
    let mut index = Index::new();
    let link = index.new_link("LLLLLLLLLL", 0).unwrap();
    assert!(link.is_valid_to_use());
    assert_eq!(index.get_unused_links().len(), 1);
    index.uploaded_with("LLLLLLLLLL", "AAAAAAAAAA", 5);
    let bound = index.get_link_via_id("LLLLLLLLLL").unwrap();
    assert!(!bound.is_valid_to_use());
    assert_eq!(bound.uploaded_file.as_deref(), Some("AAAAAAAAAA"));
    assert_eq!(bound.uploaded_at, Some(5));
    assert!(index.get_unused_links().is_empty());
}

#[test]
fn delete_link_removes_it() {
    let mut index = Index::new();
    index.new_link("LLLLLLLLLL", 0).unwrap();
    index.delete_link("LLLLLLLLLL");
    assert!(index.get_link_via_id("LLLLLLLLLL").is_none());
}

#[test]
fn get_all_files_keeps_order() {
    let mut index = Index::new();
    index.new_file("AAAAAAAAAA", "a.txt", 1, 0).unwrap();
    index.new_file("BBBBBBBBBB", "b.txt", 1, 0).unwrap();
    let all = index.get_all_files();
    assert_eq!(all.len(), 2);
    assert_eq!(all[0].path, "a.txt");
    assert_eq!(all[1].path, "b.txt");
}
