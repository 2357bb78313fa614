use tessera::layout::{choose_layout_path, layout_entry_for_file, select_layout_path, sort_layout_entries, LayoutEntry};

#[test]
fn selector_supports_index_stem_and_filename() {
    let entries = vec![
        LayoutEntry {
            file_name: "l1_basic_small.layout".to_string(),
            stem: "l1_basic_small".to_string(),
            path: "assets/layouts/l1_basic_small.layout".to_string(),
        },
        LayoutEntry {
            file_name: "l2_basic_medium.layout".to_string(),
            stem: "l2_basic_medium".to_string(),
            path: "assets/layouts/l2_basic_medium.layout".to_string(),
        },
    ];

    assert_eq!(select_layout_path(&entries, "1"), Some("assets/layouts/l1_basic_small.layout".to_string()));
    assert_eq!(select_layout_path(&entries, "2"), Some("assets/layouts/l2_basic_medium.layout".to_string()));
    assert_eq!(
        select_layout_path(&entries, "l2_basic_medium"),
        Some("assets/layouts/l2_basic_medium.layout".to_string())
    );
    assert_eq!(
        select_layout_path(&entries, "L1_BASIC_SMALL.LAYOUT"),
        Some("assets/layouts/l1_basic_small.layout".to_string())
    );
    assert_eq!(select_layout_path(&entries, "0"), None);
    assert_eq!(select_layout_path(&entries, "999"), None);
    assert_eq!(select_layout_path(&entries, "unknown"), None);
}

#[test]
fn layout_entries_sort_case_insensitively() {
    let names = ["l2_beta.layout", "L1_alpha.layout", "a.layout"];
    let entries: Vec<LayoutEntry> = names.iter().map(|n| layout_entry_for_file(n).unwrap()).collect();
    let sorted = sort_layout_entries(entries);
    let stems: Vec<&str> = sorted.iter().map(|e| e.stem.as_str()).collect();
    assert_eq!(stems, vec!["a", "L1_alpha", "l2_beta"]);
}

#[test]
fn only_layout_files_have_entries() {
    assert!(layout_entry_for_file("notes.txt").is_none());
    assert!(layout_entry_for_file("noext").is_none());
    let e = layout_entry_for_file("warehouse.LAYOUT").unwrap();
    assert_eq!(e.stem, "warehouse");
    assert_eq!(e.file_name, "warehouse.LAYOUT");
    assert_eq!(e.path, "assets/layouts/warehouse.LAYOUT");
}

#[test]
fn override_wins_unless_blank() {
    assert_eq!(choose_layout_path(Some("x.layout".to_string()), Some("a.layout".to_string())), "x.layout");
    assert_eq!(choose_layout_path(Some("   ".to_string()), Some("a.layout".to_string())), "a.layout");
    assert_eq!(choose_layout_path(None, None), "assets/layouts/l1_basic_small.layout");
}
