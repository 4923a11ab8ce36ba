use launchpad::icon::{
    icon_bitmap_size, icon_cache_path, icon_convert_order, icon_fetch_plan, icon_file_value, icon_methods, icons_dir,
    is_exe_path, is_lnk_path, is_url_path, mask_row_bytes, normalize, normalize_join,
    normalize_with, private_extract_outcome,
    private_extract_sizes, resolve_target_path, to_hex_lower, url_icon_file, ExtractOutcome,
    IconConvert, IconFetch, IconMethod,
};
use launchpad::lnk::LnkInfo;

fn info(target: Option<&str>, icon: Option<&str>) -> LnkInfo {
    LnkInfo {
        target: target.map(String::from),
        arguments: None,
        working_dir: None,
        icon_location: icon.map(String::from),
    }
}

#[test]
fn cache_path_is_blake3_hex_png() {
    let p = icon_cache_path("C:\\Root\\App.lnk", "C:\\Cache");
    let hex = blake3::hash("C:\\Root\\App.lnk".as_bytes()).to_hex().to_string();
    assert_eq!(p, format!("C:\\Cache\\launchpad_icons\\{}.png", hex));
    assert_eq!(icon_cache_path("C:\\Root\\App.lnk", "C:\\Cache"), p);
    assert_ne!(icon_cache_path("C:\\Root\\Other.lnk", "C:\\Cache"), p);
    assert_eq!(icons_dir("C:\\Cache"), "C:\\Cache\\launchpad_icons");
}

#[test]
fn hex_is_lower_case_two_digits_per_byte() {
    let h: String = to_hex_lower(&vec![0x00, 0x0f, 0xab, 0xff]).into_iter().collect();
    assert_eq!(h, "000fabff");
}

#[test]
fn file_kinds() {
    assert!(is_exe_path("C:\\A\\B.EXE"));
    assert!(!is_exe_path("C:\\A\\B.exe.lnk"));
    assert!(is_lnk_path("C:\\A\\B.LNK"));
    assert!(is_url_path("C:\\A\\site.Url"));
    assert!(!is_url_path("C:\\A\\url"));
}

#[test]
fn shortcut_target_is_preferred() {
    let lnk = Some(info(Some("C:\\Apps\\app.exe"), Some("C:\\Apps\\app.ico")));
    assert_eq!(resolve_target_path("C:\\Root\\App.lnk", lnk, None), "C:\\Apps\\app.exe");
}

#[test]
fn shortcut_icon_used_without_target() {
    let lnk = Some(info(None, Some("D:\\Icons\\app.ico")));
    assert_eq!(resolve_target_path("C:\\Root\\App.lnk", lnk, None), "D:\\Icons\\app.ico");
    let lnk = Some(info(Some(""), Some("D:\\Icons\\app.ico,3")));
    assert_eq!(resolve_target_path("C:\\Root\\App.lnk", lnk, None), "D:\\Icons\\app.ico");
}

#[test]
fn unreadable_shortcut_stands_for_itself() {
    assert_eq!(resolve_target_path("C:\\Root\\App.lnk", None, None), "C:\\Root\\App.lnk");
    assert_eq!(resolve_target_path("C:\\Root\\App.lnk", Some(info(None, None)), None), "C:\\Root\\App.lnk");
    assert_eq!(resolve_target_path("C:\\Root\\App.exe", None, None), "C:\\Root\\App.exe");
}

#[test]
fn internet_shortcut_icon_file() {
    assert_eq!(
        resolve_target_path("C:\\Root\\Site.url", None, Some("C:\\Icons\\site.ico,0".to_string())),
        "C:\\Icons\\site.ico"
    );
    assert_eq!(
        resolve_target_path("C:\\Root\\Site.url", None, Some("Q:site.ico,0".to_string())),
        "Q:site.ico"
    );
    assert_eq!(resolve_target_path("C:\\Root\\Site.url", None, None), "C:\\Root\\Site.url");
}

#[test]
fn relative_icon_is_joined_to_the_folder() {
    // The joined path does not exist, so canonicalization fails and the join stays.
    assert_eq!(
        normalize("icons\\site.ico,2", Some("Q:\\nowhere\\Root")),
        "Q:\\nowhere\\Root\\icons\\site.ico"
    );
    assert_eq!(normalize("icons\\site.ico", None), "icons\\site.ico");
    // an existing joined path comes back in canonical form
    assert_eq!(normalize("../bin,0", Some("/usr/lib/")), "/usr/bin");
    // a trailing ",index" is dropped from absolute locations too
    assert_eq!(normalize("C:\\x.ico,0", None), "C:\\x.ico");
    assert_eq!(normalize("C:\\x.ico,1", Some("D:\\y")), "C:\\x.ico");
    assert_eq!(normalize("C:\\x.ico", None), "C:\\x.ico");
}

#[test]
fn normalization_asks_about_the_joined_path() {
    assert_eq!(
        normalize_join("icons\\site.ico,2", Some("Q:\\Root")),
        Some("Q:\\Root\\icons\\site.ico".to_string())
    );
    assert_eq!(normalize_join("C:\\x.ico,0", Some("Q:\\Root")), None);
    assert_eq!(normalize_join("icons\\site.ico", None), None);
    assert_eq!(
        normalize_with("icons\\site.ico,2", Some("Q:\\Root"), Some("Q:\\Real\\site.ico".to_string())),
        "Q:\\Real\\site.ico"
    );
    assert_eq!(
        normalize_with("icons\\site.ico,2", Some("Q:\\Root"), None),
        "Q:\\Root\\icons\\site.ico"
    );
    assert_eq!(normalize_with("C:\\x.ico,0", Some("Q:\\Root"), Some("Z:\\z".to_string())), "C:\\x.ico");
    assert_eq!(normalize_with("site.ico", None, None), "site.ico");
}

#[test]
fn url_files() {
    let content = "[InternetShortcut]\nURL=https://example.com/\nIconFile=  C:\\\\Icons\\\\e.ico  \nIconIndex=0\n";
    assert_eq!(url_icon_file(content), Some("C:\\Icons\\e.ico".to_string()));
    // the INI reader treats a single backslash as an escape character
    assert_eq!(url_icon_file("[InternetShortcut]\nIconFile=C:\\Icons\\e.ico\n"), Some("C:Iconse.ico".to_string()));
    assert_eq!(url_icon_file("[InternetShortcut]\nURL=https://example.com/\n"), None);
    assert_eq!(url_icon_file("[InternetShortcut]\nIconFile=   \n"), None);
    assert_eq!(url_icon_file("[Other]\nIconFile=C:\\a.ico\n"), None);
    assert_eq!(url_icon_file("[InternetShortcut]\nIconFile=first.ico\nIconFile=second.ico\n"), Some("first.ico".to_string()));
    assert_eq!(icon_file_value(Some(" a.ico ".to_string())), Some("a.ico".to_string()));
    assert_eq!(icon_file_value(None), None);
}

#[test]
fn extraction_order() {
    assert_eq!(
        icon_methods("C:\\a\\b.exe"),
        vec![IconMethod::Jumbo, IconMethod::ExtraLarge, IconMethod::LargeIcon, IconMethod::PrivateExtract]
    );
    assert_eq!(
        icon_methods("C:\\a\\b.lnk"),
        vec![IconMethod::Jumbo, IconMethod::ExtraLarge, IconMethod::LargeIcon]
    );
    assert_eq!(private_extract_sizes(), vec![256, 128, 64, 48, 32]);
    assert_eq!(private_extract_outcome(1, true), ExtractOutcome::Found);
    assert_eq!(private_extract_outcome(1, false), ExtractOutcome::Next);
    assert_eq!(private_extract_outcome(u32::MAX, true), ExtractOutcome::Failed { release: true });
    assert_eq!(private_extract_outcome(0, true), ExtractOutcome::Next);
    assert_eq!(
        icon_fetch_plan("C:\\a.lnk", "C:\\b.exe"),
        vec![
            IconFetch::Extract("C:\\b.exe".to_string()),
            IconFetch::Extract("C:\\a.lnk".to_string()),
            IconFetch::Associated("C:\\b.exe".to_string()),
            IconFetch::Associated("C:\\a.lnk".to_string()),
            IconFetch::DefaultApplication,
        ]
    );
}

#[test]
fn bitmap_sizes() {
    assert_eq!(icon_bitmap_size(32, 48, 48), Some((48, 48)));
    assert_eq!(icon_bitmap_size(0, 48, 48), None);
    assert_eq!(icon_bitmap_size(32, 0, 48), None);
    assert_eq!(icon_bitmap_size(32, 48, -1), None);
    assert_eq!(mask_row_bytes(1), 4);
    assert_eq!(mask_row_bytes(32), 4);
    assert_eq!(mask_row_bytes(33), 8);
    assert_eq!(mask_row_bytes(256), 32);
}

#[test]
fn shortcut_fields_from_buffers() {
    let mut target = [0u16; 260];
    for (i, u) in "C:\\app.exe".encode_utf16().enumerate() {
        target[i] = u;
    }
    let blank = [0u16; 260];
    let args: Vec<u16> = " --x ".encode_utf16().chain(std::iter::once(0)).collect();
    let info = LnkInfo::from_buffers(&target, &args, &blank, &blank);
    assert_eq!(info.target.as_deref(), Some("C:\\app.exe"));
    assert_eq!(info.arguments.as_deref(), Some("--x"));
    assert_eq!(info.working_dir, None);
    assert_eq!(info.icon_location, None);
}

#[test]
fn conversion_falls_back_to_the_generic_icon() {
    assert_eq!(icon_convert_order(), vec![IconConvert::Found, IconConvert::DefaultApplication]);
}
