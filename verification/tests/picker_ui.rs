use lunaris_portal::listing::{dir_entry, parent_dir, sort_entries, start_dir, DirEntry};

#[test]
fn parent_of() {
    assert_eq!(
        parent_dir("/home/user/Documents"),
        Some("/home/user".to_string())
    );
    assert_eq!(parent_dir("/"), None);
}

fn entry(name: &str, dir: bool) -> DirEntry {
    dir_entry(name.to_string(), format!("/t/{name}"), dir).unwrap()
}

#[test]
fn lists_folders_first_then_names_ignoring_case() {
    let entries = vec![
        entry("zfolder", true),
        entry("zfile.txt", false),
        entry("afolder", true),
        entry(".hidden", false),
        entry("afile.txt", false),
        entry("Bfile", false),
    ];
    let sorted = sort_entries(&entries);
    let names: Vec<&str> = sorted.iter().map(|e| e.name.as_str()).collect();
    assert_eq!(
        names,
        vec!["afolder", "zfolder", ".hidden", "afile.txt", "Bfile", "zfile.txt"]
    );
}

#[test]
fn sort_is_stable_for_names_equal_ignoring_case() {
    let entries = vec![entry("README", false), entry("readme", false), entry("Readme", false)];
    let sorted = sort_entries(&entries);
    let names: Vec<&str> = sorted.iter().map(|e| e.name.as_str()).collect();
    assert_eq!(names, vec!["README", "readme", "Readme"]);
}

#[test]
fn dot_entries_skipped_and_hidden_tagged() {
    assert!(dir_entry(".".into(), "/t/.".into(), true).is_none());
    assert!(dir_entry("..".into(), "/t/..".into(), true).is_none());
    assert!(entry(".hidden", false).is_hidden);
    assert!(!entry("visible", false).is_hidden);
    assert!(entry(".config", true).is_directory);
}

#[test]
fn start_dir_prefers_existing_request_then_home_then_root() {
    assert_eq!(start_dir(Some("/a".into()), true, Some("/h".into()), true), "/a");
    assert_eq!(start_dir(Some("/no/such/dir".into()), false, Some("/h".into()), true), "/h");
    assert_eq!(start_dir(None, false, Some("/h".into()), false), "/");
    assert_eq!(start_dir(None, false, None, false), "/");
}
