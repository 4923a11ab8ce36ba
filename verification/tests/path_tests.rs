use launchpad::text::chars_of;
use launchpad::winpath::{
    ext_lower, extension_of, file_name_of, file_stem_of, is_absolute_path, join_str, parent_of,
};

fn s(v: Option<Vec<char>>) -> Option<String> {
    v.map(|c| c.into_iter().collect())
}

fn name(p: &str) -> Option<String> {
    s(file_name_of(&chars_of(p)))
}
fn ext(p: &str) -> Option<String> {
    s(extension_of(&chars_of(p)))
}
fn stem(p: &str) -> Option<String> {
    s(file_stem_of(&chars_of(p)))
}
fn parent(p: &str) -> Option<String> {
    s(parent_of(&chars_of(p)))
}

#[test]
fn file_names() {
    assert_eq!(name("C:\\a\\b.txt"), Some("b.txt".to_string()));
    assert_eq!(name("C:/a/b.txt/"), Some("b.txt".to_string()));
    assert_eq!(name("foo.txt/."), Some("foo.txt".to_string()));
    assert_eq!(name("foo/.."), None);
    assert_eq!(name("C:\\"), None);
    assert_eq!(name("C:"), None);
    assert_eq!(name("C:foo"), Some("foo".to_string()));
    assert_eq!(name("."), None);
    assert_eq!(name(""), None);
    assert_eq!(name("\\\\server\\share"), None);
    assert_eq!(name("\\\\server\\share\\x.ico"), Some("x.ico".to_string()));
}

#[test]
fn extensions_and_stems() {
    assert_eq!(ext("C:\\App.EXE"), Some("EXE".to_string()));
    assert_eq!(ext("archive.tar.gz"), Some("gz".to_string()));
    assert_eq!(ext(".hidden"), None);
    assert_eq!(ext("noext"), None);
    assert_eq!(ext("trailing."), Some("".to_string()));
    assert_eq!(stem("C:\\dir\\App.exe"), Some("App".to_string()));
    assert_eq!(stem(".hidden"), Some(".hidden".to_string()));
    assert_eq!(stem("archive.tar.gz"), Some("archive.tar".to_string()));
    assert_eq!(stem("C:\\"), None);
}

#[test]
fn ext_lower_lowercases_ascii() {
    assert_eq!(ext_lower("C:\\Links\\Tool.LNK"), "lnk");
    assert_eq!(ext_lower("C:\\Links\\Site.Url"), "url");
    assert_eq!(ext_lower("C:\\Links\\folder"), "");
}

#[test]
fn parents() {
    assert_eq!(parent("C:\\a\\b.lnk"), Some("C:\\a".to_string()));
    assert_eq!(parent("C:\\b.lnk"), Some("C:\\".to_string()));
    assert_eq!(parent("b.lnk"), Some("".to_string()));
    assert_eq!(parent("C:\\"), None);
    assert_eq!(parent("./a"), Some(".".to_string()));
    assert_eq!(parent("a\\.\\b"), Some("a".to_string()));
    assert_eq!(parent("a\\\\b\\\\"), Some("a".to_string()));
}

#[test]
fn joins() {
    assert_eq!(join_str("C:\\dir", "x.lnk"), "C:\\dir\\x.lnk");
    assert_eq!(join_str("C:\\dir/", "x.lnk"), "C:\\dir/x.lnk");
    assert_eq!(join_str("C:\\dir", "D:\\abs.ico"), "D:\\abs.ico");
    assert_eq!(join_str("C:\\dir\\sub", "\\rooted.ico"), "C:\\rooted.ico");
    assert_eq!(join_str("", "rel"), "rel");
    assert_eq!(join_str("C:", "rel"), "C:rel");
}

#[test]
fn absolute_paths() {
    assert!(is_absolute_path(&chars_of("C:\\x")));
    assert!(is_absolute_path(&chars_of("c:/x")));
    assert!(!is_absolute_path(&chars_of("C:x")));
    assert!(!is_absolute_path(&chars_of("\\x")));
    assert!(is_absolute_path(&chars_of("\\\\server\\share\\x")));
    assert!(!is_absolute_path(&chars_of("icons\\a.ico")));
}

#[test]
fn verbatim_paths_separate_only_at_backslashes() {
    assert_eq!(name("\\\\?\\C:\\a/b.LNK"), Some("a/b.LNK".to_string()));
    assert_eq!(ext("\\\\?\\C:\\a/b.LNK"), Some("LNK".to_string()));
    assert_eq!(stem("\\\\?\\C:\\a/b.LNK"), Some("a/b".to_string()));
    assert_eq!(parent("\\\\?\\C:\\a/b"), Some("\\\\?\\C:\\".to_string()));
    // `.` is a component of its own in a verbatim path
    assert_eq!(name("\\\\?\\C:\\a\\."), None);
    assert_eq!(parent("\\\\?\\C:\\a\\."), Some("\\\\?\\C:\\a".to_string()));
    assert_eq!(name("C:\\a\\."), Some("a".to_string()));
}

#[test]
fn verbatim_and_device_prefixes() {
    let unc = "\\\\?\\UNC\\srv\\share\\dir\\f.txt";
    assert_eq!(name(unc), Some("f.txt".to_string()));
    assert_eq!(parent(unc), Some("\\\\?\\UNC\\srv\\share\\dir".to_string()));
    assert_eq!(parent("\\\\?\\UNC\\srv\\share\\f"), Some("\\\\?\\UNC\\srv\\share\\".to_string()));
    assert_eq!(name("\\\\?\\UNC\\srv\\share"), None);
    assert!(is_absolute_path(&chars_of("\\\\?\\x")));
    assert!(is_absolute_path(&chars_of("\\\\.\\COM1")));
    assert!(is_absolute_path(&chars_of("\\\\.\\")));
    assert!(!is_absolute_path(&chars_of("\\\\server")));
}

#[test]
fn joins_onto_verbatim_paths() {
    assert_eq!(join_str("\\\\?\\C:\\dir", "x.lnk"), "\\\\?\\C:\\dir\\x.lnk");
    assert_eq!(join_str("\\\\?\\C:\\dir\\", "..\\icons\\.\\a.ico"), "\\\\?\\C:\\icons\\a.ico");
    assert_eq!(join_str("\\\\?\\C:\\dir", "\\root.ico"), "\\\\?\\C:\\root.ico");
    assert_eq!(join_str("\\\\?\\C:", "a"), "\\\\?\\C:\\a");
    assert_eq!(join_str("\\\\?\\C:\\dir", "a/b"), "\\\\?\\C:\\dir\\a\\b");
    assert_eq!(join_str("\\\\?\\C:\\dir", "D:\\x"), "D:\\x");
}
