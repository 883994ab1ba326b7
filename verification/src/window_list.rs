//! Descriptions of the windows a password can be typed into, and the parsers that read
//! them from the text that the system tools print.

use vstd::prelude::*;
use vstd::string::StringExecFns;
use crate::text::{
    chars_of, deep, is_text, lines, parse_i32_or_zero, parse_i32_or_zero_chars, split_chars,
    split_lines, split_on, string_of, trim, trim_chars, contains, contains_pattern, is_ascii_lower,
    split_words, words, contains_text, starts_with_text, has_char, lemma_contains_first_char,
    lemma_starts_with_char,
};

verus! {

/// A window (or an application that owns windows) that a password can be typed into.
#[derive(Debug, Clone)]
pub struct WindowInfo {
    pub id: u64,
    pub title: String,
    pub app_name: String,
    pub bundle_id: Option<String>,
    pub pid: i32,
}

/// What a `WindowInfo` holds, with its texts as character sequences.
pub struct WindowRecord {
    pub id: u64,
    pub title: Seq<char>,
    pub app_name: Seq<char>,
    pub bundle_id: Option<Seq<char>>,
    pub pid: i32,
}

pub open spec fn text_option(o: Option<String>) -> Option<Seq<char>> {
    match o {
        Some(s) => Some(s@),
        None => None,
    }
}

impl View for WindowInfo {
    type V = WindowRecord;

    open spec fn view(&self) -> WindowRecord {
        WindowRecord {
            id: self.id,
            title: self.title@,
            app_name: self.app_name@,
            bundle_id: text_option(self.bundle_id),
            pid: self.pid,
        }
    }
}

/// The records of a list of windows.
pub open spec fn records(v: Seq<WindowInfo>) -> Seq<WindowRecord> {
    v.map_values(|w: WindowInfo| w@)
}

pub proof fn lemma_records_push(v: Seq<WindowInfo>, w: WindowInfo)
    ensures
        records(v.push(w)) == records(v).push(w@),
{
    assert(records(v.push(w)) =~= records(v).push(w@));
}

/// Some record of `ws` has process id `pid`.
pub open spec fn has_pid(ws: Seq<WindowRecord>, pid: i32) -> bool {
    exists|i: int| 0 <= i < ws.len() && (#[trigger] ws[i]).pid == pid
}

/// The record of a window numbered `id` with no bundle id.
pub open spec fn plain_record(id: int, title: Seq<char>, app_name: Seq<char>, pid: i32) -> WindowRecord {
    WindowRecord { id: id as u64, title, app_name, bundle_id: None, pid }
}

/// The owners that are left out of the on-screen window list.
pub open spec fn cg_skipped(name: Seq<char>) -> bool {
    ||| name == "Window Server"@
    ||| name == "Dock"@
    ||| name == "SystemUIServer"@
    ||| name == "Control Center"@
    ||| name == "loginwindow"@
    ||| name == "Finder"@
    ||| name == "Spotlight"@
}

/// One line of the `owner|title|pid` listing applied to the windows found so far: the
/// first window of each process whose owner is not left out is kept, numbered from 1.
pub open spec fn cg_step(ws: Seq<WindowRecord>, line: Seq<char>) -> Seq<WindowRecord> {
    let t = trim(line);
    let parts = split_on(t, '|');
    if t.len() == 0 || parts.len() < 3 {
        ws
    } else {
        let pid = parse_i32_or_zero(parts[2]);
        if cg_skipped(parts[0]) || has_pid(ws, pid) {
            ws
        } else {
            ws.push(plain_record(ws.len() + 1 as int, parts[1], parts[0], pid))
        }
    }
}

pub open spec fn cg_fold(ls: Seq<Seq<char>>) -> Seq<WindowRecord>
    decreases ls.len(),
{
    if ls.len() == 0 {
        seq![]
    } else {
        cg_step(cg_fold(ls.drop_last()), ls.last())
    }
}

/// The windows that the on-screen window listing `out` describes.
pub open spec fn cg_windows(out: Seq<char>) -> Seq<WindowRecord> {
    cg_fold(lines(out))
}

fn cg_is_skipped(name: &[char]) -> (res: bool)
    ensures
        res == cg_skipped(name@),
{
    is_text(name, "Window Server") || is_text(name, "Dock") || is_text(name, "SystemUIServer")
        || is_text(name, "Control Center") || is_text(name, "loginwindow") || is_text(
        name,
        "Finder",
    ) || is_text(name, "Spotlight")
}

fn list_has_pid(ws: &Vec<WindowInfo>, pid: i32) -> (res: bool)
    ensures
        res == has_pid(records(ws@), pid),
{
    let mut i: usize = 0;
    while i < ws.len()
        invariant
            i <= ws@.len(),
            forall|k: int| 0 <= k < i ==> (#[trigger] records(ws@)[k]).pid != pid,
        decreases ws@.len() - i,
    {
        if ws[i].pid == pid {
            proof {
                assert(records(ws@)[i as int].pid == pid);
            }
            return true;
        }
        i = i + 1;
    }
    false
}

/// Parses the `owner|title|pid` lines that the on-screen window listing prints.
pub fn parse_cg_windows(out: &str) -> (res: Vec<WindowInfo>)
    ensures
        records(res@) == cg_windows(out@),
{
    let chars = chars_of(out);
    let ls = split_lines(chars.as_slice());
    let mut windows: Vec<WindowInfo> = Vec::new();
    let mut i: usize = 0;
    while i < ls.len()
        invariant
            i <= ls@.len(),
            deep(ls@) == lines(out@),
            records(windows@) == cg_fold(deep(ls@).take(i as int)),
            windows@.len() <= i,
        decreases ls@.len() - i,
    {
        let ghost before = records(windows@);
        proof {
            assert(deep(ls@).take(i + 1).drop_last() =~= deep(ls@).take(i as int));
            assert(deep(ls@).take(i + 1).last() == ls@[i as int]@);
        }
        let t = trim_chars(ls[i].as_slice());
        let parts = split_chars(t.as_slice(), '|');
        if t.len() > 0 && parts.len() >= 3 {
            let pid = parse_i32_or_zero_chars(parts[2].as_slice());
            proof {
                assert(deep(parts@)[2] == parts@[2]@);
                assert(deep(parts@)[0] == parts@[0]@);
                assert(deep(parts@)[1] == parts@[1]@);
            }
            if !cg_is_skipped(parts[0].as_slice()) && !list_has_pid(&windows, pid) {
                let w = WindowInfo {
                    id: windows.len() as u64 + 1,
                    title: string_of(parts[1].as_slice()),
                    app_name: string_of(parts[0].as_slice()),
                    bundle_id: None,
                    pid,
                };
                proof {
                    lemma_records_push(windows@, w);
                }
                windows.push(w);
            }
        }
        i = i + 1;
    }
    proof {
        assert(deep(ls@).take(ls@.len() as int) =~= deep(ls@));
    }
    windows
}


/// Every window read from the on-screen listing is numbered by its place in the list,
/// starting at 1, has an owner that is not left out and no bundle id, and no two of them
/// belong to the same process.
pub proof fn lemma_cg_windows_distinct(out: Seq<char>)
    ensures
        forall|i: int|
            0 <= i < cg_windows(out).len() ==> {
                &&& (#[trigger] cg_windows(out)[i]).id == (i + 1) as u64
                &&& !cg_skipped(cg_windows(out)[i].app_name)
                &&& cg_windows(out)[i].bundle_id is None
            },
        forall|i: int, j: int|
            0 <= i < j < cg_windows(out).len() ==> #[trigger] cg_windows(out)[i].pid
                != #[trigger] cg_windows(out)[j].pid,
{
    lemma_cg_fold_distinct(lines(out));
}

proof fn lemma_cg_fold_distinct(ls: Seq<Seq<char>>)
    ensures
        forall|i: int|
            0 <= i < cg_fold(ls).len() ==> {
                &&& (#[trigger] cg_fold(ls)[i]).id == (i + 1) as u64
                &&& !cg_skipped(cg_fold(ls)[i].app_name)
                &&& cg_fold(ls)[i].bundle_id is None
            },
        forall|i: int, j: int|
            0 <= i < j < cg_fold(ls).len() ==> #[trigger] cg_fold(ls)[i].pid
                != #[trigger] cg_fold(ls)[j].pid,
    decreases ls.len(),
{
    if ls.len() > 0 {
        lemma_cg_fold_distinct(ls.drop_last());
        let ws = cg_fold(ls.drop_last());
        let nw = cg_fold(ls);
        assert(nw == cg_step(ws, ls.last()));
        if nw.len() != ws.len() {
            assert forall|i: int, j: int|
                0 <= i < j < nw.len() implies #[trigger] nw[i].pid != #[trigger] nw[j].pid by {
                if j == ws.len() {
                    assert(!has_pid(ws, nw[j].pid));
                    assert(nw[i] == ws[i]);
                }
            }
        }
    }
}

/// The names that the process listing leaves out.
pub open spec fn ps_skipped(name: Seq<char>) -> bool {
    ||| name == "loginwindow"@
    ||| name == "SystemUIServer"@
    ||| name == "Dock"@
    ||| name == "Window Server"@
    ||| name == "universalaccessd"@
    ||| name == "Control Center"@
    ||| name == "Finder"@
    ||| name == "CoreServicesUIAgent"@
    ||| name == "WindowManager"@
    ||| name == "BackgroundTaskManagementAgent"@
    ||| name == "ViewBridgeAuxiliary"@
    ||| name == "bash"@
    ||| name == "zsh"@
    ||| name == "sh"@
    ||| name == "ssh"@
    ||| name == "tmux"@
    ||| name == "node"@
    ||| name == "python"@
    ||| name == "python3"@
    ||| name == "ruby"@
    ||| name == "perl"@
    ||| name == "mdworker"@
    ||| name == "mdworker_shared"@
    ||| name == "syspolicyd"@
    ||| name == "trustd"@
    ||| name == "securityd"@
    ||| name == "kernel_task"@
    ||| name == "launchd"@
    ||| name == "WindowServer"@
    ||| name == "coreauthd"@
    ||| name == "configd"@
    ||| name == "powerd"@
    ||| name == "diskarbitrationd"@
    ||| name == "fseventsd"@
    ||| name == "logd"@
    ||| name == "notifyd"@
    ||| name == "opendirectoryd"@
    ||| name == "syslogd"@
    ||| name == "coreservicesd"@
    ||| name == "distnoted"@
    ||| name == "gpsd"@
    ||| name == "wifid"@
    ||| name == "bluetoothd"@
    ||| name == "sharingd"@
    ||| name == "airplayd"@
    ||| name == "appleeventsd"@
    ||| name == "cfprefsd"@
    ||| name == "containermanagerd"@
    ||| name == "talagentd"@
}

/// A name of the form of a daemon: it ends in `d` and starts with a lowercase ASCII letter.
pub open spec fn daemon_like(name: Seq<char>) -> bool {
    name.len() > 0 && name.last() == 'd' && is_ascii_lower(name[0])
}

/// A process that the process listing counts as part of the system.
pub open spec fn ps_system(name: Seq<char>) -> bool {
    ||| starts_with_com(name)
    ||| contains(name, ".framework"@)
    ||| contains(name, "/System/Library/"@)
    ||| contains(name, "/usr/libexec/"@)
    ||| contains(name, "/usr/sbin/"@)
    ||| daemon_like(name)
    ||| ps_skipped(name)
}

/// `name` starts with `com.`.
pub open spec fn starts_with_com(name: Seq<char>) -> bool {
    crate::text::starts_with(name, "com."@)
}

/// The program name of a command: its part after the last `/`.
pub open spec fn command_name(command: Seq<char>) -> Seq<char> {
    if contains(command, "/"@) {
        split_on(command, '/').last()
    } else {
        command
    }
}

/// One line of the `pid command` process listing applied to the windows found so far.
pub open spec fn ps_step(ws: Seq<WindowRecord>, line: Seq<char>) -> Seq<WindowRecord> {
    let parts = words(trim(line));
    if parts.len() >= 2 {
        let pid = parse_i32_or_zero(parts[0]);
        let app = command_name(parts[1]);
        if !ps_system(app) && app.len() > 0 && pid > 0 {
            ws.push(plain_record(ws.len() + 1 as int, Seq::empty(), app, pid))
        } else {
            ws
        }
    } else {
        ws
    }
}

pub open spec fn ps_fold(ls: Seq<Seq<char>>) -> Seq<WindowRecord>
    decreases ls.len(),
{
    if ls.len() == 0 {
        seq![]
    } else {
        ps_step(ps_fold(ls.drop_last()), ls.last())
    }
}

/// The applications that the process listing `out` describes: its lines after the header.
pub open spec fn ps_windows(out: Seq<char>) -> Seq<WindowRecord> {
    let ls = lines(out);
    if ls.len() == 0 {
        seq![]
    } else {
        ps_fold(ls.drop_first())
    }
}

pub(crate) fn is_daemon_like(name: &[char]) -> (res: bool)
    ensures
        res == daemon_like(name@),
{
    name.len() > 0 && name[name.len() - 1] == 'd' && 'a' <= name[0] && name[0] <= 'z'
}

fn ps_is_skipped(name: &[char]) -> (res: bool)
    ensures
        res == ps_skipped(name@),
{
    is_text(name, "loginwindow") || is_text(name, "SystemUIServer") || is_text(name, "Dock")
        || is_text(name, "Window Server") || is_text(name, "universalaccessd") || is_text(
        name,
        "Control Center",
    ) || is_text(name, "Finder") || is_text(name, "CoreServicesUIAgent") || is_text(
        name,
        "WindowManager",
    ) || is_text(name, "BackgroundTaskManagementAgent") || is_text(name, "ViewBridgeAuxiliary")
        || is_text(name, "bash") || is_text(name, "zsh") || is_text(name, "sh") || is_text(
        name,
        "ssh",
    ) || is_text(name, "tmux") || is_text(name, "node") || is_text(name, "python") || is_text(
        name,
        "python3",
    ) || is_text(name, "ruby") || is_text(name, "perl") || is_text(name, "mdworker") || is_text(
        name,
        "mdworker_shared",
    ) || is_text(name, "syspolicyd") || is_text(name, "trustd") || is_text(name, "securityd")
        || is_text(name, "kernel_task") || is_text(name, "launchd") || is_text(
        name,
        "WindowServer",
    ) || is_text(name, "coreauthd") || is_text(name, "configd") || is_text(name, "powerd")
        || is_text(name, "diskarbitrationd") || is_text(name, "fseventsd") || is_text(
        name,
        "logd",
    ) || is_text(name, "notifyd") || is_text(name, "opendirectoryd") || is_text(
        name,
        "syslogd",
    ) || is_text(name, "coreservicesd") || is_text(name, "distnoted") || is_text(name, "gpsd")
        || is_text(name, "wifid") || is_text(name, "bluetoothd") || is_text(name, "sharingd")
        || is_text(name, "airplayd") || is_text(name, "appleeventsd") || is_text(
        name,
        "cfprefsd",
    ) || is_text(name, "containermanagerd") || is_text(name, "talagentd")
}

fn ps_is_system(name: &[char]) -> (res: bool)
    ensures
        res == ps_system(name@),
{
    starts_with_text(name, "com.") || contains_text(name, ".framework") || contains_text(
        name,
        "/System/Library/",
    ) || contains_text(name, "/usr/libexec/") || contains_text(name, "/usr/sbin/") || is_daemon_like(
        name,
    ) || ps_is_skipped(name)
}

fn command_name_chars(command: &[char]) -> (res: Vec<char>)
    ensures
        res@ == command_name(command@),
{
    if contains_text(command, "/") {
        let pieces = split_chars(command, '/');
        assert(deep(pieces@).len() > 0);
        let k = pieces.len() - 1;
        assert(deep(pieces@)[k as int] == pieces@[k as int]@);
        crate::text::copy_range(pieces[k].as_slice(), 0, pieces[k].len())
    } else {
        crate::text::copy_range(command, 0, command.len())
    }
}


/// Parses the `pid command` lines that the process listing prints after its header.
pub fn parse_ps_windows(out: &str) -> (res: Vec<WindowInfo>)
    ensures
        records(res@) == ps_windows(out@),
{
    let chars = chars_of(out);
    let ls = split_lines(chars.as_slice());
    let mut windows: Vec<WindowInfo> = Vec::new();
    if ls.len() == 0 {
        return windows;
    }
    let ghost body = deep(ls@).drop_first();
    let mut i: usize = 1;
    assert(body.take(0) =~= Seq::<Seq<char>>::empty());
    while i < ls.len()
        invariant
            1 <= i <= ls@.len(),
            deep(ls@) == lines(out@),
            body == deep(ls@).drop_first(),
            records(windows@) == ps_fold(body.take(i - 1)),
            windows@.len() < i,
        decreases ls@.len() - i,
    {
        proof {
            assert(body.take(i as int).drop_last() =~= body.take(i - 1));
            assert(body.take(i as int).last() == ls@[i as int]@);
        }
        let t = trim_chars(ls[i].as_slice());
        let parts = split_words(t.as_slice());
        if parts.len() >= 2 {
            let pid = parse_i32_or_zero_chars(parts[0].as_slice());
            proof {
                assert(deep(parts@)[0] == parts@[0]@);
                assert(deep(parts@)[1] == parts@[1]@);
            }
            let app = command_name_chars(parts[1].as_slice());
            if !ps_is_system(app.as_slice()) && app.len() > 0 && pid > 0 {
                let w = WindowInfo {
                    id: windows.len() as u64 + 1,
                    title: String::new(),
                    app_name: string_of(app.as_slice()),
                    bundle_id: None,
                    pid,
                };
                proof {
                    lemma_records_push(windows@, w);
                }
                windows.push(w);
            }
        }
        i = i + 1;
    }
    proof {
        assert(body.take(ls@.len() - 1) =~= body);
    }
    windows
}

/// Every application read from the process listing is numbered by its place in the list,
/// starting at 1, has a positive process id and a nonempty name that the listing does not
/// count as part of the system, and has no title and no bundle id.
pub proof fn lemma_ps_windows_numbered(out: Seq<char>)
    ensures
        forall|i: int|
            0 <= i < ps_windows(out).len() ==> {
                &&& (#[trigger] ps_windows(out)[i]).id == (i + 1) as u64
                &&& ps_windows(out)[i].pid > 0
                &&& ps_windows(out)[i].app_name.len() > 0
                &&& !ps_system(ps_windows(out)[i].app_name)
                &&& ps_windows(out)[i].title.len() == 0
                &&& ps_windows(out)[i].bundle_id is None
            },
{
    let ls = lines(out);
    if ls.len() > 0 {
        lemma_ps_fold_numbered(ls.drop_first());
    }
}

proof fn lemma_ps_fold_numbered(ls: Seq<Seq<char>>)
    ensures
        forall|i: int|
            0 <= i < ps_fold(ls).len() ==> {
                &&& (#[trigger] ps_fold(ls)[i]).id == (i + 1) as u64
                &&& ps_fold(ls)[i].pid > 0
                &&& ps_fold(ls)[i].app_name.len() > 0
                &&& !ps_system(ps_fold(ls)[i].app_name)
                &&& ps_fold(ls)[i].title.len() == 0
                &&& ps_fold(ls)[i].bundle_id is None
            },
    decreases ls.len(),
{
    if ls.len() > 0 {
        lemma_ps_fold_numbered(ls.drop_last());
    }
}

/// What the front-most window query printed, `app|title|pid`, read as a window with
/// id 0; an empty answer is an error.
pub open spec fn foreground_from_output(out: Seq<char>) -> Result<WindowRecord, Seq<char>> {
    let t = trim(out);
    if t.len() == 0 {
        Err("无法获取前台窗口"@)
    } else {
        let parts = split_on(t, '|');
        let title = if parts.len() > 1 {
            parts[1]
        } else {
            Seq::empty()
        };
        let pid = if parts.len() > 2 {
            parse_i32_or_zero(parts[2])
        } else {
            0
        };
        Ok(plain_record(0, title, parts[0], pid))
    }
}

/// The front-most window that the query printed as `app|title|pid`.
pub fn parse_foreground_window(out: &str) -> (res: Result<WindowInfo, String>)
    ensures
        match (res, foreground_from_output(out@)) {
            (Ok(w), Ok(r)) => w@ == r,
            (Err(e), Err(m)) => e@ == m,
            _ => false,
        },
{
    let chars = chars_of(out);
    let t = trim_chars(chars.as_slice());
    if t.len() == 0 {
        return Err(String::from_str("无法获取前台窗口"));
    }
    let parts = split_chars(t.as_slice(), '|');
    assert(deep(parts@).len() > 0);
    assert(deep(parts@)[0] == parts@[0]@);
    let title = if parts.len() > 1 {
        assert(deep(parts@)[1] == parts@[1]@);
        string_of(parts[1].as_slice())
    } else {
        String::new()
    };
    let pid = if parts.len() > 2 {
        assert(deep(parts@)[2] == parts@[2]@);
        parse_i32_or_zero_chars(parts[2].as_slice())
    } else {
        0
    };
    Ok(WindowInfo { id: 0, title, app_name: string_of(parts[0].as_slice()), bundle_id: None, pid })
}


/// What the on-screen window listing gives: its windows where the listing succeeded,
/// else an error with what it wrote to standard error.
pub fn windows_from_listing(success: bool, out: &str, err: &str) -> (res: Result<Vec<WindowInfo>, String>)
    ensures
        match res {
            Ok(v) => success && records(v@) == cg_windows(out@),
            Err(e) => !success && e@ == "Swift 错误: "@ + err@,
        },
{
    if !success {
        let mut m = String::from_str("Swift 错误: ");
        m.append(err);
        return Err(m);
    }
    Ok(parse_cg_windows(out))
}

/// A window list that one of the listing methods produced is used when it was read and
/// is not empty; otherwise the next method is tried.
pub fn usable_window_list(r: Result<Vec<WindowInfo>, String>) -> (res: Option<Vec<WindowInfo>>)
    ensures
        match res {
            Some(v) => r matches Ok(w) && w@.len() > 0 && v@ == w@,
            None => !(r matches Ok(w) && w@.len() > 0),
        },
{
    match r {
        Ok(w) => if w.len() > 0 {
            Some(w)
        } else {
            None
        },
        Err(_) => None,
    }
}


/// The ways of listing windows, in the order they are tried.
#[derive(PartialEq, Eq, Structural, Clone, Copy)]
pub enum WindowSource {
    OnScreen,
    Applications,
    Processes,
}

/// What follows the result of one way of listing windows.
pub enum SourceStep {
    /// The windows to show.
    Done(Vec<WindowInfo>),
    /// The next way to try.
    Try(WindowSource),
}

/// Given what `source` produced: its windows when it read a nonempty list; else the next
/// way in the order on-screen list, application list, process list; after the last, no
/// windows.
pub fn after_source(source: WindowSource, r: Result<Vec<WindowInfo>, String>) -> (res: SourceStep)
    ensures
        match res {
            SourceStep::Done(v) => {
                ||| r matches Ok(w) && w@.len() > 0 && v@ == w@
                ||| !(r matches Ok(w) && w@.len() > 0) && source == WindowSource::Processes
                    && v@.len() == 0
            },
            SourceStep::Try(next) => !(r matches Ok(w) && w@.len() > 0) && (
            source == WindowSource::OnScreen && next == WindowSource::Applications || source
                == WindowSource::Applications && next == WindowSource::Processes),
        },
{
    match usable_window_list(r) {
        Some(v) => SourceStep::Done(v),
        None => match source {
            WindowSource::OnScreen => SourceStep::Try(WindowSource::Applications),
            WindowSource::Applications => SourceStep::Try(WindowSource::Processes),
            WindowSource::Processes => SourceStep::Done(Vec::new()),
        },
    }
}


/// For a program name with no `/` and no `.` that is not on the process listing's skip
/// list, counting as part of the system means exactly looking like a daemon: a first
/// character that is an ASCII lower-case letter and a final `d`. So a name that starts
/// with a digit or an upper-case letter, such as `1Password`, is listed.
pub proof fn lemma_ps_system_names(name: Seq<char>)
    requires
        !has_char(name, '/'),
        !has_char(name, '.'),
        !ps_skipped(name),
    ensures
        ps_system(name) <==> (name.len() > 0 && 'a' <= name[0] <= 'z' && name.last() == 'd'),
{
    reveal_strlit("com.");
    reveal_strlit(".framework");
    reveal_strlit("/System/Library/");
    reveal_strlit("/usr/libexec/");
    reveal_strlit("/usr/sbin/");
    if starts_with_com(name) {
        lemma_starts_with_char(name, "com."@, 3);
    }
    if contains(name, ".framework"@) {
        lemma_contains_first_char(name, ".framework"@);
    }
    if contains(name, "/System/Library/"@) {
        lemma_contains_first_char(name, "/System/Library/"@);
    }
    if contains(name, "/usr/libexec/"@) {
        lemma_contains_first_char(name, "/usr/libexec/"@);
    }
    if contains(name, "/usr/sbin/"@) {
        lemma_contains_first_char(name, "/usr/sbin/"@);
    }
}


/// A line of the on-screen listing that, trimmed, has at least three `|`-separated fields.
pub open spec fn cg_line_fields(line: Seq<char>) -> Seq<Seq<char>> {
    split_on(trim(line), '|')
}

proof fn lemma_cg_step_keeps(ws: Seq<WindowRecord>, line: Seq<char>, pid: i32)
    requires
        has_pid(ws, pid),
    ensures
        has_pid(cg_step(ws, line), pid),
{
    let k = choose|k: int| 0 <= k < ws.len() && (#[trigger] ws[k]).pid == pid;
    let nw = cg_step(ws, line);
    if nw != ws {
        assert(nw[k] == ws[k]);
    }
}

proof fn lemma_cg_fold_lists(ls: Seq<Seq<char>>, i: int)
    requires
        0 <= i < ls.len(),
        cg_line_fields(ls[i]).len() >= 3,
        !cg_skipped(cg_line_fields(ls[i])[0]),
    ensures
        has_pid(cg_fold(ls), parse_i32_or_zero(cg_line_fields(ls[i])[2])),
    decreases ls.len(),
{
    let pid = parse_i32_or_zero(cg_line_fields(ls[i])[2]);
    let ws = cg_fold(ls.drop_last());
    if i == ls.len() - 1 {
        let t = trim(ls[i]);
        if t.len() == 0 {
            assert(split_on(t, '|') == seq![t]);
        }
        let nw = cg_step(ws, ls.last());
        if !has_pid(ws, pid) {
            assert(nw[nw.len() - 1].pid == pid);
        }
    } else {
        assert(ls.drop_last()[i] == ls[i]);
        lemma_cg_fold_lists(ls.drop_last(), i);
        lemma_cg_step_keeps(ws, ls.last(), pid);
    }
}

/// Every line of the on-screen listing that, trimmed, has at least three `|`-separated
/// fields and an owner that is not left out puts its process on the list, whatever its
/// title (an empty one too).
pub proof fn lemma_cg_lists_every_process(out: Seq<char>, i: int)
    requires
        0 <= i < lines(out).len(),
        cg_line_fields(lines(out)[i]).len() >= 3,
        !cg_skipped(cg_line_fields(lines(out)[i])[0]),
    ensures
        has_pid(cg_windows(out), parse_i32_or_zero(cg_line_fields(lines(out)[i])[2])),
{
    lemma_cg_fold_lists(lines(out), i);
}


/// The entry `w` is read from the line `line` of the on-screen listing: the line has at
/// least three `|`-separated fields, its owner is not left out, and `w` holds its owner,
/// its title and its process id.
pub open spec fn cg_entry_of_line(w: WindowRecord, line: Seq<char>) -> bool {
    let f = cg_line_fields(line);
    &&& f.len() >= 3
    &&& !cg_skipped(f[0])
    &&& w.app_name == f[0]
    &&& w.title == f[1]
    &&& w.pid == parse_i32_or_zero(f[2])
    &&& w.bundle_id is None
}

proof fn lemma_cg_fold_sound(ls: Seq<Seq<char>>)
    ensures
        forall|k: int|
            0 <= k < cg_fold(ls).len() ==> exists|i: int|
                0 <= i < ls.len() && cg_entry_of_line(#[trigger] cg_fold(ls)[k], ls[i]),
    decreases ls.len(),
{
    if ls.len() > 0 {
        let d = ls.drop_last();
        lemma_cg_fold_sound(d);
        let ws = cg_fold(d);
        let nw = cg_fold(ls);
        assert forall|k: int| 0 <= k < nw.len() implies exists|i: int|
            0 <= i < ls.len() && cg_entry_of_line(#[trigger] nw[k], ls[i]) by {
            if k < ws.len() {
                assert(nw[k] == ws[k]);
                let i = choose|i: int| 0 <= i < d.len() && cg_entry_of_line(ws[k], d[i]);
                assert(ls[i] == d[i]);
            } else {
                let t = trim(ls.last());
                if t.len() == 0 {
                    assert(split_on(t, '|') == seq![t]);
                }
                assert(cg_entry_of_line(nw[k], ls[ls.len() - 1]));
            }
        }
    }
}

/// Every window read from the on-screen listing comes from one of its lines, with that
/// line's owner, title and process id: nothing is made up or changed.
pub proof fn lemma_cg_windows_from_lines(out: Seq<char>)
    ensures
        forall|k: int|
            0 <= k < cg_windows(out).len() ==> exists|i: int|
                0 <= i < lines(out).len() && cg_entry_of_line(
                    #[trigger] cg_windows(out)[k],
                    lines(out)[i],
                ),
{
    lemma_cg_fold_sound(lines(out));
}

/// A line of the process listing whose first two words are a positive process id and a
/// command whose program name is nonempty and not a system one.
pub open spec fn ps_listed_line(line: Seq<char>) -> bool {
    let parts = words(trim(line));
    &&& parts.len() >= 2
    &&& parse_i32_or_zero(parts[0]) > 0
    &&& command_name(parts[1]).len() > 0
    &&& !ps_system(command_name(parts[1]))
}

proof fn lemma_ps_fold_lists(ls: Seq<Seq<char>>, i: int)
    requires
        0 <= i < ls.len(),
        ps_listed_line(ls[i]),
    ensures
        has_pid(ps_fold(ls), parse_i32_or_zero(words(trim(ls[i]))[0])),
    decreases ls.len(),
{
    let pid = parse_i32_or_zero(words(trim(ls[i]))[0]);
    let ws = ps_fold(ls.drop_last());
    let nw = ps_fold(ls);
    if i == ls.len() - 1 {
        assert(nw[nw.len() - 1].pid == pid);
    } else {
        assert(ls.drop_last()[i] == ls[i]);
        lemma_ps_fold_lists(ls.drop_last(), i);
        let k = choose|k: int| 0 <= k < ws.len() && (#[trigger] ws[k]).pid == pid;
        if nw != ws {
            assert(nw[k] == ws[k]);
        }
    }
}

/// Every line after the header of the process listing whose process id is positive and
/// whose program is not a system one puts that process on the list.
pub proof fn lemma_ps_lists_every_process(out: Seq<char>, i: int)
    requires
        1 <= i < lines(out).len(),
        ps_listed_line(lines(out)[i]),
    ensures
        has_pid(ps_windows(out), parse_i32_or_zero(words(trim(lines(out)[i]))[0])),
{
    let ls = lines(out);
    assert(ls.drop_first()[i - 1] == ls[i]);
    lemma_ps_fold_lists(ls.drop_first(), i - 1);
}

} // verus!
