use prompt_builder::fsitem::FileSystemItem;
use prompt_builder::paths::file_name;
use prompt_builder::paths::file_name_or_root;
use prompt_builder::paths::path_starts_with;
use prompt_builder::paths::relative_name;

#[test]
fn file_name_takes_the_final_component() {
    assert_eq!(file_name("/home/user/notes.txt"), "notes.txt");
    assert_eq!(file_name("notes.txt"), "notes.txt");
    assert_eq!(file_name("/"), "/");
    assert_eq!(file_name(""), "");
    assert_eq!(file_name("/a/b/"), "/a/b/");
}

#[test]
fn file_name_or_root_falls_back_to_a_slash() {
    assert_eq!(file_name_or_root("/home/user"), "user");
    assert_eq!(file_name_or_root("/"), "/");
    assert_eq!(file_name_or_root(""), "/");
}

#[test]
fn path_prefix_is_segment_wise() {
    assert!(path_starts_with("/foo/bar", "/foo"));
    assert!(path_starts_with("/foo", "/foo"));
    assert!(!path_starts_with("/foobar", "/foo"));
    assert!(!path_starts_with("/fo", "/foo"));
    assert!(path_starts_with("/a/b/c", "/a/b"));
    assert!(path_starts_with("/a/b/c", "/a/"));
}

#[test]
fn relative_name_strips_the_covering_directory() {
    assert_eq!(relative_name("/proj/src/main.rs", "/proj"), "src/main.rs");
    assert_eq!(relative_name("/proj/readme.md", "/proj/"), "readme.md");
    assert_eq!(relative_name("/elsewhere/f.txt", "/proj"), "/elsewhere/f.txt");
}

#[test]
fn filesystem_item_derives_its_shown_name() {
    let item = FileSystemItem::new("/home/user/file.rs".to_string(), true);
    assert_eq!(item.path, "/home/user/file.rs");
    assert_eq!(item.name, "file.rs");
    assert!(item.is_file);
    assert!(!item.selected);

    let root = FileSystemItem::new("/".to_string(), false);
    assert_eq!(root.name, "/");
    assert!(!root.is_file);
}

#[test]
fn path_helpers_count_characters_not_bytes() {
    assert_eq!(file_name("/docs/héllo wörld.txt"), "héllo wörld.txt");
    assert_eq!(relative_name("/répertoire/ünter/f.txt", "/répertoire"), "ünter/f.txt");
    assert!(path_starts_with("/répertoire/ünter", "/répertoire"));
    assert!(!path_starts_with("/répertoireX", "/répertoire"));
}

#[test]
fn relative_name_of_the_directory_itself_stays_whole() {
    assert_eq!(relative_name("/proj", "/proj"), "/proj");
}
