use launchpad::config::{
    default_accent, default_columns, default_folder_blur, default_hotkey, default_main_blur,
    default_root, default_theme, default_true, hotkey_to_bind, mica_dark, AppConfig,
};

#[test]
fn defaults_have_documented_values() {
    let c = AppConfig::defaults(Some("C:\\Users\\me\\Desktop"));
    assert_eq!(c.root_path, "C:\\Users\\me\\Desktop\\启动台");
    assert_eq!(c.hotkey, "Ctrl+Alt+Space");
    assert_eq!(c.theme, "auto");
    assert_eq!(c.accent_color, "#007aff");
    assert_eq!(c.main_blur, 30);
    assert_eq!(c.folder_blur, 50);
    assert_eq!(c.columns, 7);
    assert!(c.hide_after_launch);
    assert!(c.auto_start);
}

#[test]
fn default_root_without_desktop_uses_fallback() {
    assert_eq!(default_root(None), "D:\\Ticea\\启动台");
    assert_eq!(default_root(Some("C:\\Desktop\\")), "C:\\Desktop\\启动台");
}

#[test]
fn default_field_values() {
    assert_eq!(default_hotkey(), "Ctrl+Alt+Space");
    assert_eq!(default_theme(), "auto");
    assert_eq!(default_accent(), "#007aff");
    assert_eq!(default_main_blur(), 30);
    assert_eq!(default_folder_blur(), 50);
    assert_eq!(default_columns(), 7);
    assert!(default_true());
}

#[test]
fn config_file_is_inside_dir() {
    assert_eq!(AppConfig::config_file("C:\\cfg"), "C:\\cfg\\config.json");
    assert_eq!(AppConfig::config_file("C:\\cfg\\"), "C:\\cfg\\config.json");
    assert_eq!(AppConfig::config_file(""), "config.json");
    assert_eq!(AppConfig::config_file("C:"), "C:config.json");
}

#[test]
fn mica_dark_above_thirty() {
    assert_eq!(mica_dark(0), Some(false));
    assert_eq!(mica_dark(30), Some(false));
    assert_eq!(mica_dark(31), Some(true));
    assert_eq!(mica_dark(60), Some(true));
}

#[test]
fn hotkey_to_bind_prefers_requested() {
    let c = AppConfig::defaults(None);
    assert_eq!(hotkey_to_bind(Some("Alt+Space".to_string()), &c), "Alt+Space");
    assert_eq!(hotkey_to_bind(None, &c), "Ctrl+Alt+Space");
}

#[test]
fn loaded_or_default_falls_back() {
    let mut custom = AppConfig::defaults(None);
    custom.columns = 9;
    assert_eq!(AppConfig::loaded_or_default(Some(custom.clone()), None), custom);
    assert_eq!(AppConfig::loaded_or_default(None, None), AppConfig::defaults(None));
}
