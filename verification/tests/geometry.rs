use mini_wallpaper::geometry::{
    active_monitor, check_fullscreen, clean_ex_style, clean_style, compensate, final_placement,
    fit_round, is_shell_class, nul_terminated_len, select_strategy, EmbedRect, EmbedStrategyKind,
    ForegroundProbe, FullscreenDetector, MessageRoute, MonitorRect, NcOffset, SubclassTable, WinRect,
    BORDER_STYLE_BITS, EDGE_EX_STYLE_BITS, WIN11_24H2_BUILD, WM_NCCALCSIZE, WS_CHILD,
    WS_EX_LAYERED, WS_EX_TRANSPARENT, WS_VISIBLE,
};

fn monitor(name: &str, left: i32, top: i32, right: i32, bottom: i32) -> MonitorRect {
    MonitorRect {
        device_name: name.to_string(),
        left,
        top,
        right,
        bottom,
        work_left: left,
        work_top: top,
        work_right: right,
        work_bottom: bottom - 40,
    }
}

#[test]
fn monitor_sizes() {
    let m = monitor("D1", -1920, 0, 0, 1080);
    assert_eq!(m.width(), 1920);
    assert_eq!(m.height(), 1080);
    assert_eq!(m.work_width(), 1920);
    assert_eq!(m.work_height(), 1040);
}

#[test]
fn active_monitor_falls_back() {
    let a = monitor("A", 0, 0, 10, 10);
    let b = monitor("B", 10, 0, 20, 10);
    let c = monitor("C", 20, 0, 30, 10);
    assert_eq!(active_monitor(Some(a.clone()), Some(b.clone()), Some(c.clone())).unwrap().device_name, "A");
    assert_eq!(active_monitor(None, Some(b), Some(c.clone())).unwrap().device_name, "B");
    assert_eq!(active_monitor(None, None, Some(c)).unwrap().device_name, "C");
    assert!(active_monitor(None, None, None).is_none());
}

#[test]
fn fullscreen_needs_a_covering_non_shell_window() {
    let m = monitor("A", 0, 0, 1920, 1080);
    let full = WinRect { left: 0, top: 0, right: 1920, bottom: 1080 };
    let small = WinRect { left: 0, top: 0, right: 800, bottom: 600 };
    assert!(full.covers_monitor(&m));
    assert!(!small.covers_monitor(&m));
    let probe = |is_shell: bool, rect: Option<WinRect>| ForegroundProbe { is_shell, rect, monitor: Some(m.clone()) };
    assert!(check_fullscreen(Some(probe(false, Some(full)))));
    assert!(!check_fullscreen(Some(probe(true, Some(full)))));
    assert!(!check_fullscreen(Some(probe(false, Some(small)))));
    assert!(!check_fullscreen(Some(probe(false, None))));
    assert!(!check_fullscreen(None));
    assert!(is_shell_class("Progman"));
    assert!(is_shell_class("WorkerW"));
    assert!(is_shell_class("Shell_TrayWnd"));
    assert!(!is_shell_class("Chrome_WidgetWin_1"));
}

#[test]
fn detector_reports_changes_only() {
    let mut d = FullscreenDetector::new();
    assert!(d.observe(false).is_none());
    assert!(d.observe(true).unwrap().is_fullscreen);
    assert!(d.observe(true).is_none());
    assert!(!d.observe(false).unwrap().is_fullscreen);
}

#[test]
fn non_client_compensation() {
    let window = WinRect { left: 92, top: 70, right: 2018, bottom: 1157 };
    let client = WinRect { left: 0, top: 0, right: 1920, bottom: 1080 };
    let nc = NcOffset::measure(window, client, 99, 76);
    assert_eq!((nc.left, nc.top, nc.right, nc.bottom), (7, 6, -1, 1));
    assert!(nc.has_offset());
    let target = EmbedRect { x: 100, y: 80, width: 1920, height: 1080 };
    let c = compensate(target, nc);
    assert_eq!((c.x, c.y, c.width, c.height), (93, 74, 1926, 1087));
    let f = final_placement(target, nc);
    assert_eq!((f.x, f.y, f.width, f.height), (93, 74, 1926, 1087));
    assert!(fit_round(target, nc).is_some());
    let clean = NcOffset { left: 0, top: 0, right: 0, bottom: 0, client_w: 1920, client_h: 1080 };
    assert!(!clean.has_offset());
    assert!(fit_round(target, clean).is_none());
    let f = final_placement(target, clean);
    assert_eq!((f.x, f.y, f.width, f.height), (100, 80, 1920, 1080));
}

#[test]
fn strategy_by_build() {
    assert_eq!(select_strategy(Some(WIN11_24H2_BUILD)), EmbedStrategyKind::Modern);
    assert_eq!(select_strategy(Some(26200)), EmbedStrategyKind::Modern);
    assert_eq!(select_strategy(Some(22631)), EmbedStrategyKind::Legacy);
    assert_eq!(select_strategy(None), EmbedStrategyKind::Legacy);
}

#[test]
fn styles_lose_their_borders() {
    let style: u64 = 0x14CF_0000;
    let s = clean_style(style);
    assert_eq!(s & BORDER_STYLE_BITS, 0);
    assert_eq!(s & WS_CHILD, WS_CHILD);
    assert_eq!(s & WS_VISIBLE, WS_VISIBLE);
    assert_eq!(s, 0x540B_0000);
    let ex = clean_ex_style(0x0000_0301);
    assert_eq!(ex & EDGE_EX_STYLE_BITS, 0);
    assert_eq!(ex & WS_EX_LAYERED, WS_EX_LAYERED);
    assert_eq!(ex & WS_EX_TRANSPARENT, WS_EX_TRANSPARENT);
    assert_eq!(ex, 0x0008_0020);
}

#[test]
fn device_names_end_at_nul() {
    let mut buf: Vec<u16> = r"\\.\DISPLAY1".encode_utf16().collect();
    let n = buf.len();
    buf.resize(32, 0);
    assert_eq!(nul_terminated_len(&buf), n);
    assert_eq!(nul_terminated_len(&vec![65, 66, 67]), 3);
    assert_eq!(nul_terminated_len(&vec![0, 66]), 0);
}

#[test]
fn subclassed_windows_route_messages() {
    let mut t = SubclassTable::new();
    assert_eq!(t.route(5, 0x0010), MessageRoute::Default);
    t.register(5, 0x1234);
    assert_eq!(t.original_of(5), Some(0x1234));
    assert_eq!(t.route(5, 0x0010), MessageRoute::Original(0x1234));
    assert_eq!(t.route(5, WM_NCCALCSIZE), MessageRoute::NoFrame);
    assert_eq!(t.route(6, WM_NCCALCSIZE), MessageRoute::NoFrame);
    t.register(5, 0x9999);
    assert_eq!(t.original_of(5), Some(0x9999));
    assert_eq!(t.original_of(7), None);
}
