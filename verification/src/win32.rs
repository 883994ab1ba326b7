//! The decisions of the Windows side: which top-level windows are listed, the front
//! window, and the key codes that type a password.

use vstd::prelude::*;
use vstd::string::StringExecFns;
use crate::text::chars_of;
use crate::window_list::{WindowInfo, WindowRecord};

verus! {

/// Windows asks no permission for typing into other windows: the check always passes.
pub fn check_accessibility_permission() -> (res: Result<bool, String>)
    ensures
        res matches Ok(b) && b,
{
    Ok(true)
}

/// Window titles that are never listed.
pub open spec fn hidden_title(title: Seq<char>) -> bool {
    ||| title == "Settings"@
    ||| title == "Microsoft Store"@
    ||| title == "Program Manager"@
    ||| title == "Calculators"@
}

/// The record of the window with handle `handle`, owned by process `pid`, titled `title`.
pub open spec fn handle_record(handle: isize, title: Seq<char>, pid: u32) -> WindowRecord {
    WindowRecord { id: handle as u64, title, app_name: title, bundle_id: None, pid: pid as i32 }
}

/// The entry for a top-level window, if it is listed: it must be visible, have a title
/// (`text_len` UTF-16 units long) and not be one of the hidden ones.
pub open spec fn listed_window(visible: bool, text_len: i32, title: Seq<char>, handle: isize, pid: u32) -> Option<WindowRecord> {
    if visible && text_len > 0 && !hidden_title(title) {
        Some(handle_record(handle, title, pid))
    } else {
        None
    }
}

fn is_hidden_title(title: &String) -> (res: bool)
    ensures
        res == hidden_title(title@),
{
    let t = chars_of(title.as_str());
    crate::text::is_text(t.as_slice(), "Settings") || crate::text::is_text(
        t.as_slice(),
        "Microsoft Store",
    ) || crate::text::is_text(t.as_slice(), "Program Manager") || crate::text::is_text(
        t.as_slice(),
        "Calculators",
    )
}

/// Decides whether a top-level window found while enumerating is listed, and with what.
pub fn window_entry(visible: bool, text_len: i32, title: String, handle: isize, pid: u32) -> (res: Option<WindowInfo>)
    ensures
        match (res, listed_window(visible, text_len, title@, handle, pid)) {
            (Some(w), Some(r)) => w@ == r,
            (None, None) => true,
            _ => false,
        },
{
    if visible && text_len > 0 && !is_hidden_title(&title) {
        Some(WindowInfo {
            id: handle as u64,
            title: title.clone(),
            app_name: title,
            bundle_id: None,
            pid: pid as i32,
        })
    } else {
        None
    }
}

/// The front window, from its handle (0 when there is none), title and process id.
pub fn foreground_entry(handle: isize, title: String, pid: u32) -> (res: Result<WindowInfo, String>)
    ensures
        match res {
            Ok(w) => handle != 0 && w@ == handle_record(handle, title@, pid),
            Err(e) => handle == 0 && e@ == "无法获取当前窗口"@,
        },
{
    if handle == 0 {
        return Err(String::from_str("无法获取当前窗口"));
    }
    Ok(WindowInfo { id: handle as u64, title: title.clone(), app_name: title, bundle_id: None, pid: pid as i32 })
}

/// The window being searched for: visible and owned by the process sought.
pub fn is_window_of(window_pid: u32, target_pid: u32, visible: bool) -> (res: bool)
    ensures
        res == (window_pid == target_pid && visible),
{
    window_pid == target_pid && visible
}

/// The UTF-16 code units of `c`, as `char::encode_utf16` gives them: the character itself
/// below U+10000, else a high surrogate for its upper ten bits (after subtracting
/// 0x10000) followed by a low surrogate for its lower ten bits.
pub open spec fn utf16_units(c: char) -> Seq<u16> {
    let u = c as u32;
    if u < 0x10000 {
        seq![u as u16]
    } else {
        seq![(0xD800 + (u - 0x10000) / 0x400) as u16, (0xDC00 + (u - 0x10000) % 0x400) as u16]
    }
}

/// The UTF-16 code units of `s`, as `str::encode_utf16` gives them: the key events that
/// type `s`, one unit each.
pub open spec fn key_units(s: Seq<char>) -> Seq<u16>
    decreases s.len(),
{
    if s.len() == 0 {
        seq![]
    } else {
        key_units(s.drop_last()) + utf16_units(s.last())
    }
}

/// The UTF-16 code units that type `password`, in order.
pub fn key_codes(password: &str) -> (res: Vec<u16>)
    ensures
        res@ == key_units(password@),
{
    let cs = chars_of(password);
    let mut units: Vec<u16> = Vec::new();
    let mut i: usize = 0;
    assert(cs@.take(0) =~= Seq::<char>::empty());
    while i < cs.len()
        invariant
            i <= cs@.len(),
            units@ == key_units(cs@.take(i as int)),
        decreases cs@.len() - i,
    {
        let c = cs[i];
        let u = c as u32;
        let ghost before = units@;
        if u < 0x10000 {
            units.push(u as u16);
        } else {
            let v = u - 0x10000;
            units.push((0xD800 + v / 0x400) as u16);
            units.push((0xDC00 + v % 0x400) as u16);
        }
        proof {
            assert(cs@.take(i + 1).drop_last() =~= cs@.take(i as int));
            assert(cs@.take(i + 1).last() == c);
            assert(units@ =~= before + utf16_units(c));
        }
        i = i + 1;
    }
    assert(cs@.take(i as int) =~= cs@);
    units
}

/// What typing `password` into the window with handle `handle` sends: the UTF-16 code
/// units of the password, or an error where no window was found (handle 0).
pub fn keystrokes_for(handle: isize, password: &str) -> (res: Result<Vec<u16>, String>)
    ensures
        match res {
            Ok(v) => handle != 0 && v@ == key_units(password@),
            Err(e) => handle == 0 && e@ == "找不到窗口"@,
        },
{
    if handle == 0 {
        return Err(String::from_str("找不到窗口"));
    }
    Ok(key_codes(password))
}

} // verus!
