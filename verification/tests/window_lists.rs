use account_autofill::lsappinfo::parse_lsappinfo_windows;
use account_autofill::window_list::{
    after_source, parse_cg_windows, parse_foreground_window, parse_ps_windows, usable_window_list,
    windows_from_listing, SourceStep, WindowInfo, WindowSource,
};

fn summary(ws: &[WindowInfo]) -> Vec<(u64, String, String, Option<String>, i32)> {
    ws.iter()
        .map(|w| (w.id, w.app_name.clone(), w.title.clone(), w.bundle_id.clone(), w.pid))
        .collect()
}

#[test]
fn cg_listing_keeps_first_window_per_process() {
    let out = "Safari|Apple|123\nFinder||200\nSafari|Other|123\n  \nTerminal|zsh — 80x24|456\r\nbad|line\nDock|x|9\nNotes|n|abc\n";
    let ws = parse_cg_windows(out);
    assert_eq!(
        summary(&ws),
        vec![
            (1, "Safari".to_string(), "Apple".to_string(), None, 123),
            (2, "Terminal".to_string(), "zsh — 80x24".to_string(), None, 456),
            (3, "Notes".to_string(), "n".to_string(), None, 0),
        ]
    );
}

#[test]
fn cg_listing_trims_lines_and_skips_system_owners() {
    let out = "  Mail|Inbox|77  \nSpotlight|s|5\nControl Center|c|6\nloginwindow|l|7\nWindow Server|w|8\nSystemUIServer|u|10";
    let ws = parse_cg_windows(out);
    assert_eq!(summary(&ws), vec![(1, "Mail".to_string(), "Inbox".to_string(), None, 77)]);
}

#[test]
fn cg_listing_of_nothing() {
    assert!(parse_cg_windows("").is_empty());
    assert!(parse_cg_windows("\n\n").is_empty());
}

#[test]
fn cg_listing_pid_out_of_range_is_zero() {
    let ws = parse_cg_windows("A|t|99999999999\nB|t|-12\nC|t|+7\n");
    assert_eq!(ws[0].pid, 0);
    assert_eq!(ws[1].pid, -12);
    assert_eq!(ws[2].pid, 7);
}

#[test]
fn listing_failure_reports_stderr() {
    let r = windows_from_listing(false, "Safari|a|1\n", "oops");
    assert_eq!(r.unwrap_err(), "Swift 错误: oops");
    let ok = windows_from_listing(true, "Safari|a|1\n", "").unwrap();
    assert_eq!(ok.len(), 1);
}

#[test]
fn ps_listing_skips_header_and_system_processes() {
    let out = "  PID COMM\n    1 /sbin/launchd\n  500 /Applications/Safari.app/Contents/MacOS/Safari\n  501 /usr/libexec/trustd\n  600 zsh\n  700 /Applications/Slack.app/Contents/MacOS/Slack Helper\n  800 com.apple.foo\n    0 kernel\n  x\n  900 Code\n";
    let ws = parse_ps_windows(out);
    assert_eq!(
        summary(&ws),
        vec![
            (1, "Safari".to_string(), String::new(), None, 500),
            (2, "Slack".to_string(), String::new(), None, 700),
            (3, "Code".to_string(), String::new(), None, 900),
        ]
    );
}

#[test]
fn ps_listing_of_header_only() {
    assert!(parse_ps_windows("PID COMM\n").is_empty());
    assert!(parse_ps_windows("").is_empty());
}

const LSAPPINFO: &str = r#"1) "Google Chrome" ASN:0x0-0x1a01a:
    bundleID="com.google.Chrome"
    bundle path="/Applications/Google Chrome.app"
    pid = 1234 type="Foreground" flavor=3 Version="128.0"

2) "Finder" ASN:0x0-0x2002:
    bundleID="com.apple.finder"
    pid = 300 type="Foreground"

3) "Google Chrome" ASN:0x0-0x3003:
    bundleID="com.google.Chrome"
    pid = 1240 type="Foreground"

4) "Notes Helper" ASN:0x0-0x4004:
    pid = 500 type="UIElement"

5) "Slack" ASN:0x0-0x5005:
    bundleID="com.tinyspeck.slackmacgap"
    pid = 800 type="Foreground""#;

#[test]
fn lsappinfo_listing_keeps_foreground_apps_once() {
    let ws = parse_lsappinfo_windows(LSAPPINFO);
    assert_eq!(
        summary(&ws),
        vec![
            (
                1,
                "Google Chrome".to_string(),
                String::new(),
                Some("\"com.google.Chrome".to_string()),
                1234
            ),
            (
                2,
                "Slack".to_string(),
                String::new(),
                Some("\"com.tinyspeck.slackmacgap".to_string()),
                800
            ),
        ]
    );
}

#[test]
fn lsappinfo_listing_needs_pid_and_foreground() {
    let out = "1) \"Editor\" ASN:0x1:\n    pid = 0 type=\"Foreground\"\n\n2) \"Viewer\" ASN:0x2:\n    pid = 44\n\n3) \"Writer\" ASN:0x3:\n    pid = 45 type=\"Foreground\"\n\n";
    let ws = parse_lsappinfo_windows(out);
    assert_eq!(summary(&ws), vec![(1, "Writer".to_string(), String::new(), None, 45)]);
}

#[test]
fn lsappinfo_listing_skips_daemons_and_frameworks() {
    let out = "1) \"cloudd\" ASN:0x1:\n    pid = 10 type=\"Foreground\"\n\n2) \"Foo.framework\" ASN:0x2:\n    pid = 11 type=\"Foreground\"\n\n3) \"com.example.x\" ASN:0x3:\n    pid = 12 type=\"Foreground\"\n\n4) \"Bar\" ASN:0x4:\n    pid = 13 type=\"Foreground\"\n";
    let ws = parse_lsappinfo_windows(out);
    assert_eq!(summary(&ws), vec![(1, "Bar".to_string(), String::new(), None, 13)]);
}

#[test]
fn lsappinfo_last_block_uses_framework_without_dot() {
    // in the last block, a name holding "framework" anywhere is left out
    let out = "1) \"myframeworkapp\" ASN:0x1:\n    pid = 10 type=\"Foreground\"";
    assert!(parse_lsappinfo_windows(out).is_empty());
    let closed = "1) \"myframeworkapp\" ASN:0x1:\n    pid = 10 type=\"Foreground\"\n\n";
    assert_eq!(parse_lsappinfo_windows(closed).len(), 1);
}

#[test]
fn lsappinfo_dedups_by_name_without_bundle() {
    let out = "1) \"Zed\" ASN:0x1:\n    pid = 10 type=\"Foreground\"\n\n2) \"Zed\" ASN:0x2:\n    pid = 11 type=\"Foreground\"\n\n";
    let ws = parse_lsappinfo_windows(out);
    assert_eq!(summary(&ws), vec![(1, "Zed".to_string(), String::new(), None, 10)]);
}

#[test]
fn lsappinfo_null_bundle_is_ignored() {
    let out = "1) \"Tool\" ASN:0x1:\n    bundleID=[ NULL ]\n    pid = 10 type=\"Foreground\"\n\n";
    let ws = parse_lsappinfo_windows(out);
    assert_eq!(ws[0].bundle_id, None);
}

#[test]
fn foreground_query_reads_app_title_and_pid() {
    let w = parse_foreground_window("Safari|Apple – Start|321\n").unwrap();
    assert_eq!((w.id, w.app_name.as_str(), w.title.as_str(), w.pid), (0, "Safari", "Apple – Start", 321));
    assert_eq!(w.bundle_id, None);
}

#[test]
fn foreground_query_with_missing_fields() {
    let w = parse_foreground_window("Finder").unwrap();
    assert_eq!((w.app_name.as_str(), w.title.as_str(), w.pid), ("Finder", "", 0));
    let w = parse_foreground_window("Finder||x").unwrap();
    assert_eq!(w.pid, 0);
}

#[test]
fn foreground_query_empty_is_error() {
    assert_eq!(parse_foreground_window("  \n").unwrap_err(), "无法获取前台窗口");
}

#[test]
fn usable_list_needs_a_nonempty_ok() {
    assert!(usable_window_list(Ok(Vec::new())).is_none());
    assert!(usable_window_list(Err("x".to_string())).is_none());
    let ws = parse_cg_windows("A|b|1\n");
    assert_eq!(usable_window_list(Ok(ws)).unwrap().len(), 1);
}

#[test]
fn sources_are_tried_in_order() {
    match after_source(WindowSource::OnScreen, Ok(Vec::new())) {
        SourceStep::Try(next) => assert!(next == WindowSource::Applications),
        SourceStep::Done(_) => panic!("expected the next source"),
    }
    match after_source(WindowSource::Applications, Err("no lsappinfo".to_string())) {
        SourceStep::Try(next) => assert!(next == WindowSource::Processes),
        SourceStep::Done(_) => panic!("expected the next source"),
    }
    match after_source(WindowSource::Processes, Ok(Vec::new())) {
        SourceStep::Done(v) => assert!(v.is_empty()),
        SourceStep::Try(_) => panic!("expected the end"),
    }
    match after_source(WindowSource::Applications, Ok(parse_cg_windows("A|b|1\n"))) {
        SourceStep::Done(v) => assert_eq!(v.len(), 1),
        SourceStep::Try(_) => panic!("expected the windows"),
    }
}

#[test]
fn lsappinfo_blank_line_at_end_changes_nothing() {
    let closed = format!("{}\n\n", LSAPPINFO);
    assert_eq!(summary(&parse_lsappinfo_windows(LSAPPINFO)), summary(&parse_lsappinfo_windows(&closed)));
}
