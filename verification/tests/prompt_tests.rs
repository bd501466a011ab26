use prompt_builder::store::PromptBuilder;

#[test]
fn build_prompt_on_empty_store_is_empty() {
    let store = PromptBuilder::new();
    let prompt = store.build_prompt(&vec![]);
    assert_eq!(prompt, "");
}

#[test]
fn build_prompt_keeps_insertion_order_and_delimiters() {
    let mut store = PromptBuilder::new();
    store.add_file("/d/a.txt".to_string(), true).unwrap();
    store.add_file("/d/b.txt".to_string(), true).unwrap();
    let contents = vec![Ok("A".to_string()), Ok("B".to_string())];
    let prompt = store.build_prompt(&contents);
    assert_eq!(
        prompt,
        "=== File: a.txt ===\nA\n\n=== File: b.txt ===\nB\n\n"
    );
    assert!(prompt.contains("=== File: a.txt ==="));
    assert!(prompt.contains("=== File: b.txt ==="));
    let a_at = prompt.find("A\n").unwrap();
    let b_at = prompt.find("B\n").unwrap();
    assert!(a_at < b_at);
}

#[test]
fn build_prompt_degrades_one_bad_read_to_an_inline_note() {
    let mut store = PromptBuilder::new();
    store.add_file("/d/gone.txt".to_string(), true).unwrap();
    store.add_file("/d/ok.txt".to_string(), true).unwrap();
    let contents = vec![
        Err("No such file or directory (os error 2)".to_string()),
        Ok("still here".to_string()),
    ];
    let prompt = store.build_prompt(&contents);
    assert!(prompt.contains("=== File: gone.txt ===\n"));
    assert!(
        prompt.contains("Error reading file: No such file or directory (os error 2)\n\n")
    );
    assert!(prompt.contains("=== File: ok.txt ===\nstill here\n\n"));
}

#[test]
fn get_file_info_reports_names_and_sizes_in_order() {
    let mut store = PromptBuilder::new();
    store.add_file("/d/a.txt".to_string(), true).unwrap();
    store.add_file("/d/b.txt".to_string(), true).unwrap();
    store.add_file("/d/c.txt".to_string(), true).unwrap();
    let sizes = vec![Some(0u64), Some(1234u64), None];
    let info = store.get_file_info(&sizes);
    assert_eq!(info.len(), 3);
    assert_eq!(info[0], ("a.txt".to_string(), "0 bytes".to_string()));
    assert_eq!(info[1], ("b.txt".to_string(), "1234 bytes".to_string()));
    assert_eq!(info[2], ("c.txt".to_string(), "Unknown size".to_string()));
}

#[test]
fn get_file_info_renders_large_sizes_in_decimal() {
    let mut store = PromptBuilder::new();
    store.add_file("/big.bin".to_string(), true).unwrap();
    let info = store.get_file_info(&vec![Some(18446744073709551615u64)]);
    assert_eq!(info[0].1, "18446744073709551615 bytes");
}
