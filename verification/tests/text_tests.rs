use launchpad::text::{chars_lt, chars_of, lower_chars, trim_str, upper_chars};
use launchpad::wide::{decode_utf16_lossy, from_wide, to_wide, to_wide_260};

#[test]
fn trims_unicode_whitespace() {
    let t: String = trim_str(" \t\u{3000}abc d\u{A0}\n").into_iter().collect();
    assert_eq!(t, "abc d");
    assert!(trim_str("   ").is_empty());
}

#[test]
fn ascii_case_mapping() {
    let l: String = lower_chars(&chars_of("AbC-Ä")).into_iter().collect();
    assert_eq!(l, "abc-Ä");
    let u: String = upper_chars(&chars_of("f5-ä")).into_iter().collect();
    assert_eq!(u, "F5-ä");
}

#[test]
fn code_point_order() {
    assert!(chars_lt(&chars_of("a"), &chars_of("b")));
    assert!(chars_lt(&chars_of("ab"), &chars_of("abc")));
    assert!(!chars_lt(&chars_of("abc"), &chars_of("abc")));
    assert!(chars_lt(&chars_of("Z"), &chars_of("a")));
}

#[test]
fn to_wide_is_nul_terminated_utf16() {
    assert_eq!(to_wide("ab"), vec![97, 98, 0]);
    assert_eq!(to_wide("😀"), vec![0xD83D, 0xDE00, 0]);
    assert_eq!(to_wide("启"), "启".encode_utf16().chain(std::iter::once(0)).collect::<Vec<u16>>());
}

#[test]
fn to_wide_260_limits_length() {
    let ok = "a".repeat(259);
    let buf = to_wide_260(&ok).unwrap();
    assert_eq!(buf[258], 97);
    assert_eq!(buf[259], 0);
    assert!(to_wide_260(&"a".repeat(260)).is_none());
    let short = to_wide_260("x").unwrap();
    assert_eq!(short[0], 120);
    assert!(short[1..].iter().all(|&u| u == 0));
}

#[test]
fn from_wide_reads_until_nul_and_trims() {
    let mut buf = [0u16; 16];
    for (i, u) in " C:\\a.exe ".encode_utf16().enumerate() {
        buf[i] = u;
    }
    assert_eq!(from_wide(&buf), Some("C:\\a.exe".to_string()));
    assert_eq!(from_wide(&[0u16; 8]), None);
    assert_eq!(from_wide(&[32u16, 32, 0, 65]), None);
    assert_eq!(from_wide(&[66u16, 67]), Some("BC".to_string()));
}

#[test]
fn lossy_decoding_replaces_lone_surrogates() {
    let d: String = decode_utf16_lossy(&[0x61, 0xD800, 0x62, 0xDC00, 0xD83D, 0xDE00], 6)
        .into_iter()
        .collect();
    assert_eq!(d, "a\u{FFFD}b\u{FFFD}😀");
    assert_eq!(d, String::from_utf16_lossy(&[0x61, 0xD800, 0x62, 0xDC00, 0xD83D, 0xDE00]));
}

#[test]
fn wide_round_trip() {
    for s in ["", "plain", "启动台", "mixed 😀 text", "C:\\Program Files\\App\\app.exe"] {
        let w = to_wide(s);
        let back = from_wide(&w);
        let expected = if s.trim().is_empty() { None } else { Some(s.trim().to_string()) };
        assert_eq!(back, expected);
    }
}
