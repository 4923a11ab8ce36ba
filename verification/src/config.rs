//! Application-wide settings and their default values.
use vstd::prelude::*;
use crate::winpath::{join, join_str};

verus! {

/// Global settings, stored as `config.json` in the application's config directory.
#[derive(Debug, Clone, PartialEq, Eq)]
pub struct AppConfig {
    /// Folder whose files are the launcher's items and whose sub-folders are its groups.
    pub root_path: String,
    /// Global shortcut that shows or hides the launcher.
    pub hotkey: String,
    /// `auto`, `light` or `dark`.
    pub theme: String,
    pub accent_color: String,
    /// Backdrop strength of the main view.
    pub main_blur: u32,
    /// Backdrop strength of the folder pop-up.
    pub folder_blur: u32,
    pub columns: u32,
    pub hide_after_launch: bool,
    pub auto_start: bool,
}

/// Name of the launcher's folder on the desktop.
pub open spec fn launcher_folder_name() -> Seq<char> {
    "启动台"@
}

/// Root folder used when no desktop folder is known.
pub open spec fn fallback_root() -> Seq<char> {
    "D:\\Ticea\\启动台"@
}

/// Default root folder: the launcher's folder inside the desktop folder when
/// that is known, else a fixed fallback.
pub open spec fn default_root_spec(desktop: Option<Seq<char>>) -> Seq<char> {
    match desktop {
        Some(d) => join(d, launcher_folder_name()),
        None => fallback_root(),
    }
}

/// Default root folder for a given desktop folder (or none).
pub fn default_root(desktop: Option<&str>) -> (r: String)
    ensures
        r@ == default_root_spec(opt_str_view(desktop)),
{
    match desktop {
        Some(d) => join_str(d, "启动台"),
        None => String::from_str("D:\\Ticea\\启动台"),
    }
}

pub open spec fn opt_str_view(o: Option<&str>) -> Option<Seq<char>> {
    match o {
        Some(d) => Some(d@),
        None => None,
    }
}

/// `c` holds the default settings for the given desktop folder.
pub open spec fn is_default_config(c: AppConfig, desktop: Option<Seq<char>>) -> bool {
    &&& c.root_path@ == default_root_spec(desktop)
    &&& c.hotkey@ == "Ctrl+Alt+Space"@
    &&& c.theme@ == "auto"@
    &&& c.accent_color@ == "#007aff"@
    &&& c.main_blur == 30
    &&& c.folder_blur == 50
    &&& c.columns == 7
    &&& c.hide_after_launch
    &&& c.auto_start
}

pub fn default_hotkey() -> (r: String)
    ensures
        r@ == "Ctrl+Alt+Space"@,
{
    String::from_str("Ctrl+Alt+Space")
}

pub fn default_theme() -> (r: String)
    ensures
        r@ == "auto"@,
{
    String::from_str("auto")
}

pub fn default_accent() -> (r: String)
    ensures
        r@ == "#007aff"@,
{
    String::from_str("#007aff")
}

pub fn default_main_blur() -> (r: u32)
    ensures
        r == 30,
{
    30
}

pub fn default_folder_blur() -> (r: u32)
    ensures
        r == 50,
{
    50
}

pub fn default_columns() -> (r: u32)
    ensures
        r == 7,
{
    7
}

pub fn default_true() -> (r: bool)
    ensures
        r,
{
    true
}

impl AppConfig {
    /// The default settings, with the root folder placed for the given desktop
    /// folder (or the fallback when there is none).
    pub fn defaults(desktop: Option<&str>) -> (c: AppConfig)
        ensures
            is_default_config(c, opt_str_view(desktop)),
    {
        AppConfig {
            root_path: default_root(desktop),
            hotkey: default_hotkey(),
            theme: default_theme(),
            accent_color: default_accent(),
            main_blur: default_main_blur(),
            folder_blur: default_folder_blur(),
            columns: default_columns(),
            hide_after_launch: true,
            auto_start: true,
        }
    }

    /// Path of the settings file inside the config directory `dir`.
    pub fn config_file(dir: &str) -> (r: String)
        ensures
            r@ == join(dir@, "config.json"@),
    {
        join_str(dir, "config.json")
    }

    /// Settings as loaded: the parsed file when it could be read and parsed,
    /// else the defaults for the given desktop folder.
    pub fn loaded_or_default(parsed: Option<AppConfig>, desktop: Option<&str>) -> (c: AppConfig)
        ensures
            parsed matches Some(p) ==> c == p,
            parsed is None ==> is_default_config(c, opt_str_view(desktop)),
    {
        match parsed {
            Some(p) => p,
            None => AppConfig::defaults(desktop),
        }
    }
}

/// Whether the main window's Mica backdrop is dark for a given blur level:
/// levels above 30 select the dark variant.
pub fn mica_dark(blur: u32) -> (r: Option<bool>)
    ensures
        r == Some(blur > 30),
{
    Some(blur > 30)
}

/// The shortcut to register: the one asked for, else the saved one.
pub fn hotkey_to_bind(requested: Option<String>, config: &AppConfig) -> (r: String)
    ensures
        r@ == match requested {
            Some(h) => h@,
            None => config.hotkey@,
        },
{
    match requested {
        Some(h) => h,
        None => config.hotkey.clone(),
    }
}

} // verus!
