use account_autofill::macos::{
    accessibility_from_output, activation_script_text, decimal_text, escape_for_script,
    keystroke_script_text, Autofill, AutofillAction, AutofillEvent, AutofillPhase, ScriptOutcome,
};
use account_autofill::win32::{
    check_accessibility_permission, foreground_entry, is_window_of, key_codes, keystrokes_for,
    window_entry,
};

const PERMISSION: &str = "需要辅助功能权限。请前往：系统设置 > 隐私与安全 > 辅助功能，添加并启用此应用";

fn ran(success: bool, stderr: &str) -> AutofillEvent {
    AutofillEvent::ScriptRan(ScriptOutcome { launch_error: None, success, stderr: stderr.to_string() })
}

fn finished_with(a: AutofillAction) -> Result<(), String> {
    match a {
        AutofillAction::Finish(r) => r,
        _ => panic!("expected the auto-fill to finish"),
    }
}

#[test]
fn accessibility_answer_true() {
    assert_eq!(accessibility_from_output(true, "true\n", ""), Ok(true));
    assert_eq!(accessibility_from_output(true, "  TRUE ", ""), Ok(true));
}

#[test]
fn accessibility_answer_false() {
    assert_eq!(accessibility_from_output(true, "false\n", ""), Ok(false));
    assert_eq!(accessibility_from_output(true, "truee", ""), Ok(false));
}

#[test]
fn accessibility_refused_means_no_permission() {
    assert_eq!(
        accessibility_from_output(false, "", "execution error: osascript is not allowed assistive access."),
        Ok(false)
    );
    assert_eq!(accessibility_from_output(false, "", "privilege violation (-10004)"), Ok(false));
}

#[test]
fn accessibility_other_failure_is_error() {
    assert_eq!(
        accessibility_from_output(false, "", "boom"),
        Err("AppleScript 错误: boom".to_string())
    );
}

#[test]
fn decimal_text_of_numbers() {
    assert_eq!(decimal_text(0), "0");
    assert_eq!(decimal_text(42), "42");
    assert_eq!(decimal_text(-7), "-7");
    assert_eq!(decimal_text(i32::MIN), "-2147483648");
    assert_eq!(decimal_text(i32::MAX), "2147483647");
}

#[test]
fn activation_script_names_the_pid() {
    assert_eq!(
        activation_script_text(4242),
        "tell application \"System Events\" to set frontmost of first process whose unix id is 4242 to true"
    );
}

#[test]
fn escape_doubles_backslash_and_quotes_quote() {
    assert_eq!(escape_for_script(r#"a"b\c"#), r#"a\"b\\c"#);
    assert_eq!(escape_for_script("plain"), "plain");
}

#[test]
fn keystroke_script_quotes_password() {
    assert_eq!(
        keystroke_script_text(r#"p"w"#),
        r#"tell application "System Events" to keystroke "p\"w""#
    );
}

#[test]
fn autofill_runs_through_all_steps() {
    let (mut f, first) = Autofill::start(4242, "pa\"ss".to_string());
    assert!(matches!(first, AutofillAction::CheckPermission));
    match f.step(AutofillEvent::Permission(Ok(true))) {
        AutofillAction::RunScript(s) => assert_eq!(s, activation_script_text(4242)),
        _ => panic!("expected the activation script"),
    }
    assert!(matches!(f.step(ran(true, "")), AutofillAction::Wait(1500)));
    match f.step(AutofillEvent::Waited) {
        AutofillAction::RunScript(s) => assert_eq!(s, keystroke_script_text("pa\"ss")),
        _ => panic!("expected the keystroke script"),
    }
    assert_eq!(finished_with(f.step(ran(true, ""))), Ok(()));
    assert!(f.phase == AutofillPhase::Finished);
}

#[test]
fn autofill_stops_without_permission() {
    let (mut f, _) = Autofill::start(1, "x".to_string());
    assert_eq!(finished_with(f.step(AutofillEvent::Permission(Ok(false)))), Err(PERMISSION.to_string()));
}

#[test]
fn autofill_goes_on_when_check_fails() {
    let (mut f, _) = Autofill::start(1, "x".to_string());
    assert!(matches!(
        f.step(AutofillEvent::Permission(Err("检查权限失败".to_string()))),
        AutofillAction::RunScript(_)
    ));
}

#[test]
fn autofill_activation_failures() {
    let (mut f, _) = Autofill::start(1, "x".to_string());
    f.step(AutofillEvent::Permission(Ok(true)));
    assert_eq!(finished_with(f.step(ran(false, "no process"))), Err("PID 激活失败: no process".to_string()));
    let (mut g, _) = Autofill::start(1, "x".to_string());
    g.step(AutofillEvent::Permission(Ok(true)));
    let launch = AutofillEvent::ScriptRan(ScriptOutcome {
        launch_error: Some("not found".to_string()),
        success: false,
        stderr: String::new(),
    });
    assert_eq!(finished_with(g.step(launch)), Err("PID 激活失败: not found".to_string()));
}

#[test]
fn autofill_typing_failures() {
    let start = || {
        let (mut f, _) = Autofill::start(1, "x".to_string());
        f.step(AutofillEvent::Permission(Ok(true)));
        f.step(ran(true, ""));
        f.step(AutofillEvent::Waited);
        f
    };
    let mut f = start();
    assert_eq!(finished_with(f.step(ran(false, "is not allowed to send keystrokes"))), Err(PERMISSION.to_string()));
    let mut g = start();
    assert_eq!(finished_with(g.step(ran(false, "syntax"))), Err("AppleScript 错误: syntax".to_string()));
    let mut h = start();
    let launch = AutofillEvent::ScriptRan(ScriptOutcome {
        launch_error: Some("no osascript".to_string()),
        success: false,
        stderr: String::new(),
    });
    assert_eq!(finished_with(h.step(launch)), Err("启动失败: no osascript".to_string()));
}

#[test]
fn windows_has_permission() {
    assert_eq!(check_accessibility_permission(), Ok(true));
}

#[test]
fn windows_listed_entries() {
    let w = window_entry(true, 7, "Notepad".to_string(), 0x1234, 77).unwrap();
    assert_eq!((w.id, w.title.as_str(), w.app_name.as_str(), w.pid), (0x1234, "Notepad", "Notepad", 77));
    assert!(window_entry(false, 7, "Notepad".to_string(), 1, 1).is_none());
    assert!(window_entry(true, 0, String::new(), 1, 1).is_none());
    assert!(window_entry(true, 8, "Settings".to_string(), 1, 1).is_none());
    assert!(window_entry(true, 15, "Program Manager".to_string(), 1, 1).is_none());
}

#[test]
fn windows_foreground_entry() {
    assert_eq!(foreground_entry(0, String::new(), 0).unwrap_err(), "无法获取当前窗口");
    let w = foreground_entry(99, "Doc".to_string(), 5).unwrap();
    assert_eq!((w.id, w.app_name.as_str(), w.pid), (99, "Doc", 5));
}

#[test]
fn windows_process_match() {
    assert!(is_window_of(3, 3, true));
    assert!(!is_window_of(3, 3, false));
    assert!(!is_window_of(3, 4, true));
}

#[test]
fn windows_key_codes() {
    assert_eq!(key_codes("aé😀"), vec![0x61, 0xe9, 0xd83d, 0xde00]);
    assert_eq!(key_codes("a\u{10ffff}\u{ffff}"), "a\u{10ffff}\u{ffff}".encode_utf16().collect::<Vec<u16>>());
    assert_eq!(keystrokes_for(0, "a").unwrap_err(), "找不到窗口");
    assert_eq!(keystrokes_for(1, "ab").unwrap(), vec![0x61, 0x62]);
    assert_eq!(keystrokes_for(1, "\u{1f600}").unwrap(), vec![0xd83d, 0xde00]);
}

#[test]
fn accessibility_answer_agrees_with_lowercasing() {
    for s in ["true", "True", "TRUE", " tRuE\n", "truE ", "false", "", "ture", "true true", "\u{130}", "tru\u{0130}", "TRUE\u{200b}"] {
        assert_eq!(
            accessibility_from_output(true, s, ""),
            Ok(s.trim().to_lowercase() == "true"),
            "{:?}",
            s
        );
    }
}

#[test]
fn key_codes_agree_with_encode_utf16() {
    for s in ["", "plain", "密码", "\u{10000}", "x\u{1f511}y", "\u{d7ff}\u{e000}\u{fffd}"] {
        assert_eq!(key_codes(s), s.encode_utf16().collect::<Vec<u16>>(), "{:?}", s);
    }
}
