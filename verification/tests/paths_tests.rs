use peercode::paths::{
    current_file_info, document_meta, extension, file_name, is_pcdoc_path, name_from_path,
    paths_equal, push_front_dedup, remove_recent_entries, tmp_path, MAX_RECENTS,
};

fn strings(v: &[&str]) -> Vec<String> {
    v.iter().map(|s| s.to_string()).collect()
}

#[test]
fn name_is_the_full_file_name() {
    assert_eq!(name_from_path("/tmp/main.py"), "main.py");
    assert_eq!(name_from_path("/tmp/notes.pcdoc"), "notes.pcdoc");
}

#[test]
fn name_falls_back_to_untitled() {
    assert_eq!(name_from_path("/"), "untitled");
}

#[test]
fn push_front_moves_existing_entry_to_front() {
    let recents = strings(&["/a", "/b"]);
    let result = push_front_dedup(recents, "/b".to_string());
    assert_eq!(result, strings(&["/b", "/a"]));
}

#[test]
fn push_front_truncates_to_fifty() {
    let recents: Vec<String> = (0..50).map(|i| format!("/f{i}")).collect();
    let result = push_front_dedup(recents, "/new".to_string());
    assert_eq!(result.len(), 50);
    assert_eq!(result[0], "/new");
}

#[test]
fn push_front_treats_equal_paths_as_one() {
    let result = push_front_dedup(strings(&["/a//b", "/c", "/a/./b/"]), "/a/b".to_string());
    assert_eq!(result, strings(&["/a/b", "/c"]));
    assert_eq!(MAX_RECENTS, 50);
}

#[test]
fn remove_drops_the_path_and_its_canonical_form() {
    let result = remove_recent_entries(strings(&["/x/a", "/real/a", "/b", "/x//a"]), "/x/a", "/real/a");
    assert_eq!(result, strings(&["/b"]));
}

#[test]
fn file_names_and_extensions_follow_path() {
    assert_eq!(file_name("/tmp/a.txt"), Some("a.txt".to_string()));
    assert_eq!(file_name("/tmp/dir/"), Some("dir".to_string()));
    assert_eq!(file_name("/tmp/.."), None);
    assert_eq!(file_name("."), None);
    assert_eq!(file_name("a/./b/."), Some("b".to_string()));
    assert_eq!(extension("/x/archive.tar.gz"), Some("gz".to_string()));
    assert_eq!(extension("/x/.bashrc"), None);
    assert_eq!(extension("/x/name."), Some(String::new()));
    assert!(is_pcdoc_path("/docs/Notes.PCDOC"));
    assert!(!is_pcdoc_path("/docs/notes.txt"));
    assert!(!is_pcdoc_path("/docs/pcdoc"));
}

#[test]
fn paths_compare_by_components() {
    assert!(paths_equal("/a/b", "/a//b/"));
    assert!(paths_equal("a/./b", "a/b"));
    assert!(!paths_equal("/a/b", "a/b"));
    assert!(!paths_equal("./a", "a"));
    assert!(!paths_equal("/a/../b", "/b"));
}

#[test]
fn temp_file_is_a_sibling() {
    assert_eq!(tmp_path("/docs/notes.pcdoc"), "/docs/notes.pcdoc.tmp");
    assert_eq!(tmp_path("rel.txt"), "rel.txt.tmp");
    assert_eq!(tmp_path("/"), "/file.tmp");
}

#[test]
fn current_file_and_listing_are_named_by_file_name() {
    let info = current_file_info("/home/me/main.rs");
    assert_eq!(info.name, "main.rs");
    assert_eq!(info.path, "/home/me/main.rs");
    assert_eq!(current_file_info("/").name, "untitled");
    let meta = document_meta("/home/me/notes.pcdoc", 5, Some(17)).unwrap();
    assert_eq!(meta.name, "notes.pcdoc");
    assert_eq!(meta.size_bytes, 5);
    assert_eq!(meta.modified, Some(17));
    assert!(document_meta("/", 1, None).is_none());
}

#[test]
fn meta_uses_the_full_file_name() {
    let meta = document_meta("/tmp/peercode-read-test-1-0.bin", 5, None).unwrap();
    assert_eq!(meta.name, "peercode-read-test-1-0.bin");
    assert_eq!(meta.size_bytes, 5);
}
