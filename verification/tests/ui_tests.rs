use prompt_builder::fsitem::FileSystemItem;
use prompt_builder::ui::FileManager;

#[test]
fn a_fresh_session_is_empty() {
    let fm = FileManager::new();
    assert!(fm.folders.is_empty());
    assert_eq!(fm.prompt_builder.file_count(), 0);
    assert!(!fm.show_prompt_panel);
    assert_eq!(fm.title(), "Hyprland File Manager");
}

#[test]
fn selecting_a_folder_records_its_listing() {
    let mut fm = FileManager::new();
    let items = vec![
        FileSystemItem::new("/d/a.txt".to_string(), true),
        FileSystemItem::new("/d/sub".to_string(), false),
    ];
    fm.folder_selected("/d".to_string(), items);
    assert_eq!(fm.folders.len(), 1);
    assert_eq!(fm.folders[0].path, "/d");
    assert_eq!(fm.folders[0].items.len(), 2);
    assert_eq!(fm.folders[0].items[0].name, "a.txt");
    assert!(!fm.folders[0].items[0].selected);
}

#[test]
fn ticking_an_entry_marks_it_and_feeds_the_store() {
    let mut fm = FileManager::new();
    fm.folder_selected(
        "/d".to_string(),
        vec![
            FileSystemItem::new("/d/a.txt".to_string(), true),
            FileSystemItem::new("/d/b.txt".to_string(), true),
        ],
    );
    fm.toggle_item_selected("/d/a.txt".to_string(), true, true, false, Ok(vec![]));
    assert!(fm.folders[0].items[0].selected);
    assert!(!fm.folders[0].items[1].selected);
    assert_eq!(fm.prompt_builder.file_count(), 1);
    assert_eq!(fm.prompt_builder.get_files()[0].path, "/d/a.txt");

    fm.toggle_item_selected("/d/a.txt".to_string(), false, true, false, Ok(vec![]));
    assert!(!fm.folders[0].items[0].selected);
    assert_eq!(fm.prompt_builder.file_count(), 0);
}

#[test]
fn ticking_a_directory_expands_its_walk() {
    let mut fm = FileManager::new();
    fm.folder_selected(
        "/d".to_string(),
        vec![FileSystemItem::new("/d/sub".to_string(), false)],
    );
    fm.toggle_item_selected(
        "/d/sub".to_string(),
        true,
        false,
        true,
        Ok(vec!["/d/sub/x.txt".to_string(), "/d/sub/y.txt".to_string()]),
    );
    assert!(fm.folders[0].items[0].selected);
    assert_eq!(fm.prompt_builder.file_count(), 2);
    fm.toggle_item_selected("/d/sub".to_string(), false, false, true, Ok(vec![]));
    assert_eq!(fm.prompt_builder.file_count(), 0);
}

#[test]
fn the_panel_toggle_flips() {
    let mut fm = FileManager::new();
    fm.toggle_prompt_panel();
    assert!(fm.show_prompt_panel);
    fm.toggle_prompt_panel();
    assert!(!fm.show_prompt_panel);
}
