use launchpad::launch::launch_outcome;
use launchpad::monitors::{monitors_bbox, span_rect, MonitorRect};
use launchpad::order::sort_order;
use launchpad::text::chars_of;
use launchpad::watch::{should_watch, Debouncer, FsEventKind};

#[test]
fn window_spans_all_monitors() {
    let ms = vec![
        MonitorRect { x: 0, y: 0, width: 1920, height: 1080 },
        MonitorRect { x: -1280, y: 200, width: 1280, height: 1024 },
    ];
    let b = monitors_bbox(&ms).unwrap();
    assert_eq!(b, (-1280, 0, 1920, 1224));
    assert_eq!(span_rect(b), (-1280, 0, 3200, 1224));
    assert_eq!(monitors_bbox(&Vec::new()), None);
}

#[test]
fn refreshes_are_debounced() {
    let ms = 1_000_000u64;
    let mut d = Debouncer::new(100_000 * ms);
    assert!(d.on_event(FsEventKind::Create, 100_000 * ms));
    assert!(!d.on_event(FsEventKind::Modify, 100_200 * ms));
    assert!(!d.on_event(FsEventKind::Remove, 100_300 * ms)); // exactly 300 ms is not enough
    assert!(d.on_event(FsEventKind::Remove, 100_301 * ms));
    assert!(!d.on_event(FsEventKind::Access, 200_000 * ms));
    assert!(!d.on_event(FsEventKind::Any, 200_000 * ms));
    assert!(!d.on_event(FsEventKind::Other, 200_000 * ms));
    assert!(d.on_event(FsEventKind::Modify, 200_000 * ms));
    assert_eq!(d.last_ns, 200_000 * ms);
}

#[test]
fn blank_root_is_not_watched() {
    assert!(!should_watch(""));
    assert!(!should_watch("  \t"));
    assert!(should_watch("C:\\Root"));
}

#[test]
fn launch_codes() {
    assert_eq!(launch_outcome(33), Ok(()));
    assert_eq!(launch_outcome(2), Err("ShellExecuteW 失败，错误码 2".to_string()));
    assert_eq!(launch_outcome(0), Err("ShellExecuteW 失败，错误码 0".to_string()));
    assert_eq!(launch_outcome(32), Err("ShellExecuteW 失败，错误码 32".to_string()));
}

#[test]
fn sort_order_is_stable() {
    let keys = vec![
        (None, chars_of("b")),
        (Some(2), chars_of("x")),
        (None, chars_of("a")),
        (Some(-1), chars_of("y")),
        (Some(2), chars_of("c")),
        (None, chars_of("a")),
    ];
    assert_eq!(sort_order(&keys), vec![3, 1, 4, 2, 5, 0]);
}
