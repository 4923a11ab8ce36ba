use launchpad::entries::{
    check_deletable, display_name, is_listed, make_entry, shortcut_base_name, sort_entries,
    next_lnk_step, unique_lnk_path, Entry, LnkStep,
};
use launchpad::metadata::{meta_file_path, FolderMeta, ItemMeta};

fn entry(meta: &FolderMeta, file_name: &str, is_dir: bool) -> Entry {
    make_entry(meta, file_name.to_string(), is_dir, format!("C:\\Root\\{}", file_name), None)
}

#[test]
fn hidden_files_are_not_listed() {
    assert!(!is_listed(".launchpad.json"));
    assert!(!is_listed(".git"));
    assert!(is_listed("App.lnk"));
    assert!(is_listed("Games"));
}

#[test]
fn entry_kinds_and_names() {
    let meta = FolderMeta::new();
    let f = entry(&meta, "Tool.LNK", false);
    assert_eq!(f.kind, "file");
    assert_eq!(f.name, "Tool");
    assert!(f.is_lnk);
    assert!(!f.is_url);
    let d = entry(&meta, "Games.v2", true);
    assert_eq!(d.kind, "folder");
    assert_eq!(d.name, "Games.v2");
    let u = entry(&meta, "Site.url", false);
    assert!(u.is_url);
    assert_eq!(u.path, "C:\\Root\\Site.url");
}

#[test]
fn custom_name_wins() {
    let mut meta = FolderMeta::new();
    meta.set_item("Tool.lnk".to_string(), Some("My Tool".to_string()), None);
    assert_eq!(display_name(&meta, &"Tool.lnk".to_string(), "C:\\Root\\Tool.lnk", false), "My Tool");
    assert_eq!(display_name(&meta, &"Other.lnk".to_string(), "C:\\Root\\Other.lnk", false), "Other");
}

#[test]
fn ordered_entries_first_then_by_file_name() {
    let mut meta = FolderMeta::new();
    meta.set_item("c.lnk".to_string(), None, Some(2));
    meta.set_item("z.lnk".to_string(), None, Some(1));
    meta.set_item("y.lnk".to_string(), None, Some(2));
    let input: Vec<Entry> = ["b.lnk", "c.lnk", "a.lnk", "y.lnk", "z.lnk"]
        .iter()
        .map(|n| entry(&meta, n, false))
        .collect();
    let sorted = sort_entries(input, &meta);
    let names: Vec<&str> = sorted.iter().map(|e| e.file_name.as_str()).collect();
    // order 1, then order 2 in listed order (c before y), then the rest by name
    assert_eq!(names, vec!["z.lnk", "c.lnk", "y.lnk", "a.lnk", "b.lnk"]);
}

#[test]
fn set_item_keeps_other_fields_and_entries() {
    let mut meta = FolderMeta::new();
    meta.insert(
        "a.lnk".to_string(),
        ItemMeta { order: Some(5), name: None, color: Some("#fff".to_string()), icon: None },
    );
    meta.set_item("a.lnk".to_string(), Some("A".to_string()), None);
    meta.set_item("b.lnk".to_string(), None, Some(3));
    let a = meta.get(&"a.lnk".to_string()).unwrap();
    assert_eq!(a.order, Some(5));
    assert_eq!(a.name.as_deref(), Some("A"));
    assert_eq!(a.color.as_deref(), Some("#fff"));
    let b = meta.get(&"b.lnk".to_string()).unwrap();
    assert_eq!(b.order, Some(3));
    assert_eq!(b.name, None);
    assert_eq!(meta.entries().len(), 2);
    meta.set_item("b.lnk".to_string(), None, Some(4));
    assert_eq!(meta.entries().len(), 2);
    assert_eq!(meta.get(&"b.lnk".to_string()).unwrap().order, Some(4));
    assert!(meta.get(&"c.lnk".to_string()).is_none());
}

#[test]
fn metadata_file_location() {
    assert_eq!(meta_file_path("C:\\Root\\Games"), "C:\\Root\\Games\\.launchpad.json");
}

#[test]
fn only_shortcuts_can_be_deleted() {
    assert_eq!(check_deletable("C:\\Root\\App.lnk"), Ok(()));
    assert_eq!(check_deletable("C:\\Root\\App.LnK"), Ok(()));
    assert_eq!(check_deletable("C:\\Root\\App.exe"), Err("只允许删除快捷方式(.lnk)".to_string()));
    assert_eq!(check_deletable("C:\\Root\\folder"), Err("只允许删除快捷方式(.lnk)".to_string()));
}

#[test]
fn shortcut_names() {
    assert_eq!(shortcut_base_name("C:\\Apps\\Editor.exe", None), "Editor");
    assert_eq!(shortcut_base_name("C:\\Apps\\Editor.exe", Some("Mine".to_string())), "Mine");
    assert_eq!(shortcut_base_name("C:\\", None), "shortcut");
}

#[test]
fn new_shortcut_path_in_missing_folder_is_direct() {
    let p = unique_lnk_path("Z:\\no\\such\\folder\\anywhere", "Editor");
    assert_eq!(p, "Z:\\no\\such\\folder\\anywhere\\Editor.lnk");
}

#[test]
fn shortcut_name_search_steps() {
    // a free candidate is used
    assert_eq!(next_lnk_step(0, false), LnkStep::Use(0));
    assert_eq!(next_lnk_step(7, false), LnkStep::Use(7));
    // a taken one sends the search to the next
    assert_eq!(next_lnk_step(0, true), LnkStep::Try(1));
    assert_eq!(next_lnk_step(998, true), LnkStep::Try(999));
    // when the last is taken too, the plain name is used
    assert_eq!(next_lnk_step(999, true), LnkStep::Use(0));
    assert_eq!(next_lnk_step(999, false), LnkStep::Use(999));
}
