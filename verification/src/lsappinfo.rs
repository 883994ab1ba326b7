//! The parser for the application listing of `lsappinfo list -a`: blocks that start with a
//! `N) "Name" ASN:...` line, hold `bundleID=...` and `pid = ... type="..."` lines, and end
//! with an empty line.

use vstd::prelude::*;
use vstd::string::StringExecFns;
use crate::text::{
    chars_of, contains, contains_text, copy_range, deep, find, find_char_from, find_pattern,
    first_index, is_text, lemma_find_from, lemma_first_index, lines, parse_i32_or_zero,
    lemma_lines_then_blank, lemma_trim_strip_cr, strip_cr, lemma_contains_in_trim, matches_at,
    parse_i32_or_zero_chars, split_lines, split_words, starts_with, starts_with_text,
    string_of, strip_prefixes, strip_prefixes_chars, trim, trim_char, trim_char_chars,
    trim_chars, words,
};
use crate::window_list::{
    daemon_like, is_daemon_like, lemma_records_push, records, starts_with_com, WindowInfo,
    WindowRecord,
};

verus! {

/// The names that the application listing leaves out.
pub open spec fn ls_skipped(name: Seq<char>) -> bool {
    ||| name == "loginwindow"@
    ||| name == "SystemUIServer"@
    ||| name == "Dock"@
    ||| name == "Window Server"@
    ||| name == "Control Center"@
    ||| name == "Finder"@
    ||| name == "universalaccessd"@
    ||| name == "CoreServicesUIAgent"@
    ||| name == "WindowManager"@
    ||| name == "BackgroundTaskManagementAgent"@
    ||| name == "ViewBridgeAuxiliary"@
    ||| name == "talagentd"@
    ||| name == "cfprefsd"@
    ||| name == "containermanagerd"@
    ||| name == "trustd"@
    ||| name == "securityd"@
    ||| name == "kernel_task"@
    ||| name == "launchd"@
    ||| name == "WindowServer"@
    ||| name == "coreauthd"@
    ||| name == "configd"@
    ||| name == "powerd"@
    ||| name == "diskarbitrationd"@
    ||| name == "fseventsd"@
    ||| name == "logd"@
    ||| name == "notifyd"@
    ||| name == "opendirectoryd"@
    ||| name == "syslogd"@
    ||| name == "mdworker"@
    ||| name == "mdworker_shared"@
    ||| name == "syspolicyd"@
    ||| name == "coreservicesd"@
    ||| name == "distnoted"@
    ||| name == "gpsd"@
    ||| name == "wifid"@
    ||| name == "bluetoothd"@
    ||| name == "sharingd"@
    ||| name == "airplayd"@
    ||| name == "appleeventsd"@
    ||| name == "System Events"@
    ||| name == "Spotlight"@
}

/// An application that the listing counts as part of the system; `framework` is the text
/// whose presence in the name marks a framework (`.framework` for a block closed by an
/// empty line, `framework` for the last block of the listing).
pub open spec fn ls_system(app: Seq<char>, framework: Seq<char>) -> bool {
    ||| starts_with_com(app)
    ||| contains(app, framework)
    ||| contains(app, "/System/"@)
    ||| daemon_like(app)
    ||| ls_skipped(app)
}

/// The state of the listing's reader between two lines.
pub struct LsState {
    pub windows: Seq<WindowRecord>,
    pub app: Option<Seq<char>>,
    pub bundle: Option<Seq<char>>,
    pub pid: i32,
    pub kind: Option<Seq<char>>,
}

pub open spec fn ls_start() -> LsState {
    LsState { windows: seq![], app: None, bundle: None, pid: 0, kind: None }
}

/// The key by which listed applications are told apart: the bundle id, or else the name.
pub open spec fn record_key(r: WindowRecord) -> Seq<char> {
    match r.bundle_id {
        Some(b) => b,
        None => r.app_name,
    }
}

pub open spec fn has_key(ws: Seq<WindowRecord>, k: Seq<char>) -> bool {
    exists|i: int| 0 <= i < ws.len() && record_key(#[trigger] ws[i]) == k
}

/// The application `app` of the current block has a window to type into.
pub open spec fn ls_listed(st: LsState, app: Seq<char>, framework: Seq<char>) -> bool {
    !ls_system(app, framework) && app.len() > 0 && st.pid > 0 && st.kind == Some("Foreground"@)
}

/// The entry the current block adds for `app`.
pub open spec fn ls_entry(st: LsState, app: Seq<char>) -> WindowRecord {
    WindowRecord {
        id: (st.windows.len() + 1) as u64,
        title: Seq::empty(),
        app_name: app,
        bundle_id: st.bundle,
        pid: st.pid,
    }
}

/// A `N) "Name" ASN:...` line: a new block for the application named between the first
/// two double quotes.
pub open spec fn ls_header(st: LsState, t: Seq<char>) -> LsState {
    let q1 = first_index(t, '"') as int;
    let q2 = first_index(t.skip(q1 + 1), '"') as int;
    if q1 < t.len() && q2 < t.skip(q1 + 1).len() {
        LsState {
            app: Some(t.subrange(q1 + 1, q1 + 1 + q2)),
            bundle: None,
            pid: 0,
            kind: None,
            ..st
        }
    } else {
        st
    }
}

/// The bundle id that a `bundleID="..."` line gives.
pub open spec fn bundle_value(t: Seq<char>) -> Seq<char> {
    trim(strip_prefixes(trim_char(t, '"'), "bundleID="@))
}

/// A `bundleID=...` line: the bundle id, unless it is empty, `[ NULL ]` or Apple's own.
pub open spec fn ls_bundle(st: LsState, t: Seq<char>) -> LsState {
    let b = bundle_value(t);
    if b.len() > 0 && b != "[ NULL ]"@ && !starts_with(b, "com.apple"@) {
        LsState { bundle: Some(b), ..st }
    } else {
        st
    }
}

/// The kind that a `type="..."` field of `t` gives, if it has one.
pub open spec fn kind_value(t: Seq<char>, previous: Option<Seq<char>>) -> Option<Seq<char>> {
    match find(t, "type=\""@) {
        Some(ts) => {
            let b: int = (ts + "type=\""@.len()) as int;
            let te = first_index(t.skip(b), '"') as int;
            if te < t.skip(b).len() {
                Some(t.subrange(b, b + te))
            } else {
                previous
            }
        },
        None => previous,
    }
}

/// A `pid = N type="..."` line: the process id after the first `=` (0 where none is
/// readable) and the kind of application.
pub open spec fn ls_pid_line(st: LsState, t: Seq<char>) -> LsState {
    match find(t, "="@) {
        Some(start) => {
            let ws = words(trim(t.skip(start + 1 as int)));
            let pid = if ws.len() > 0 {
                parse_i32_or_zero(ws[0])
            } else {
                0
            };
            LsState { pid, kind: kind_value(t, st.kind), ..st }
        },
        None => st,
    }
}

/// An empty line ends a block: its application is listed when it has a window to type
/// into and its key is new.
pub open spec fn ls_blank(st: LsState) -> LsState {
    match st.app {
        None => LsState { bundle: None, pid: 0, ..st },
        Some(app) => {
            if ls_listed(st, app, ".framework"@) {
                if has_key(st.windows, record_key(ls_entry(st, app))) {
                    LsState { app: None, bundle: None, pid: 0, kind: None, ..st }
                } else {
                    LsState {
                        windows: st.windows.push(ls_entry(st, app)),
                        app: None,
                        bundle: None,
                        pid: 0,
                        ..st
                    }
                }
            } else {
                LsState { app: None, bundle: None, pid: 0, ..st }
            }
        },
    }
}

/// One line of the listing, trimmed, applied to the reader's state.
pub open spec fn ls_step(st: LsState, line: Seq<char>) -> LsState {
    let t = trim(line);
    if contains(t, ")"@) && contains(t, "ASN:"@) {
        ls_header(st, t)
    } else if starts_with(t, "bundleID="@) {
        ls_bundle(st, t)
    } else if starts_with(t, "pid"@) && contains(t, "="@) {
        ls_pid_line(st, t)
    } else if t.len() == 0 {
        ls_blank(st)
    } else {
        st
    }
}

pub open spec fn ls_fold(ls: Seq<Seq<char>>) -> LsState
    decreases ls.len(),
{
    if ls.len() == 0 {
        ls_start()
    } else {
        ls_step(ls_fold(ls.drop_last()), ls.last())
    }
}

/// The end of the listing closes its last block.
pub open spec fn ls_finish(st: LsState) -> Seq<WindowRecord> {
    match st.app {
        Some(app) => {
            if ls_listed(st, app, "framework"@) && !has_key(st.windows, record_key(ls_entry(st, app))) {
                st.windows.push(ls_entry(st, app))
            } else {
                st.windows
            }
        },
        None => st.windows,
    }
}

/// The applications that the listing `out` describes.
pub open spec fn ls_windows(out: Seq<char>) -> Seq<WindowRecord> {
    ls_finish(ls_fold(lines(out)))
}

pub open spec fn chars_option(o: Option<Vec<char>>) -> Option<Seq<char>> {
    match o {
        Some(v) => Some(v@),
        None => None,
    }
}

/// The reader's state as it runs.
struct LsReader {
    windows: Vec<WindowInfo>,
    app: Option<Vec<char>>,
    bundle: Option<Vec<char>>,
    pid: i32,
    kind: Option<Vec<char>>,
}

impl LsReader {
    spec fn state(&self) -> LsState {
        LsState {
            windows: records(self.windows@),
            app: chars_option(self.app),
            bundle: chars_option(self.bundle),
            pid: self.pid,
            kind: chars_option(self.kind),
        }
    }

    /// The number of entries, plus one for a block that is still open.
    spec fn open_entries(&self) -> nat {
        self.windows@.len() + if self.app is Some {
            1nat
        } else {
            0nat
        }
    }
}

fn ls_is_skipped(name: &[char]) -> (res: bool)
    ensures
        res == ls_skipped(name@),
{
    is_text(name, "loginwindow") || is_text(name, "SystemUIServer") || is_text(name, "Dock")
        || is_text(name, "Window Server") || is_text(name, "Control Center") || is_text(
        name,
        "Finder",
    ) || is_text(name, "universalaccessd") || is_text(name, "CoreServicesUIAgent") || is_text(
        name,
        "WindowManager",
    ) || is_text(name, "BackgroundTaskManagementAgent") || is_text(name, "ViewBridgeAuxiliary")
        || is_text(name, "talagentd") || is_text(name, "cfprefsd") || is_text(
        name,
        "containermanagerd",
    ) || is_text(name, "trustd") || is_text(name, "securityd") || is_text(name, "kernel_task")
        || is_text(name, "launchd") || is_text(name, "WindowServer") || is_text(
        name,
        "coreauthd",
    ) || is_text(name, "configd") || is_text(name, "powerd") || is_text(
        name,
        "diskarbitrationd",
    ) || is_text(name, "fseventsd") || is_text(name, "logd") || is_text(name, "notifyd")
        || is_text(name, "opendirectoryd") || is_text(name, "syslogd") || is_text(
        name,
        "mdworker",
    ) || is_text(name, "mdworker_shared") || is_text(name, "syspolicyd") || is_text(
        name,
        "coreservicesd",
    ) || is_text(name, "distnoted") || is_text(name, "gpsd") || is_text(name, "wifid")
        || is_text(name, "bluetoothd") || is_text(name, "sharingd") || is_text(name, "airplayd")
        || is_text(name, "appleeventsd") || is_text(name, "System Events") || is_text(
        name,
        "Spotlight",
    )
}

fn ls_is_system(app: &[char], framework: &str) -> (res: bool)
    ensures
        res == ls_system(app@, framework@),
{
    starts_with_text(app, "com.") || contains_text(app, framework) || contains_text(
        app,
        "/System/",
    ) || is_daemon_like(app) || ls_is_skipped(app)
}

fn kind_is_foreground(kind: &Option<Vec<char>>) -> (res: bool)
    ensures
        res == (chars_option(*kind) == Some("Foreground"@)),
{
    match kind {
        Some(k) => is_text(k.as_slice(), "Foreground"),
        None => false,
    }
}

fn list_has_key(ws: &Vec<WindowInfo>, key: &String) -> (res: bool)
    ensures
        res == has_key(records(ws@), key@),
{
    let mut i: usize = 0;
    while i < ws.len()
        invariant
            i <= ws@.len(),
            forall|k: int| 0 <= k < i ==> record_key(#[trigger] records(ws@)[k]) != key@,
        decreases ws@.len() - i,
    {
        let same = match &ws[i].bundle_id {
            Some(b) => *b == *key,
            None => ws[i].app_name == *key,
        };
        if same {
            proof {
                assert(record_key(records(ws@)[i as int]) == key@);
            }
            return true;
        }
        i = i + 1;
    }
    false
}

fn string_option(o: &Option<Vec<char>>) -> (res: Option<String>)
    ensures
        crate::window_list::text_option(res) == chars_option(*o),
{
    match o {
        Some(v) => Some(string_of(v.as_slice())),
        None => None,
    }
}

impl LsReader {
    /// Closes the current block; `framework` is the text that marks a framework name.
    fn close_block(&mut self, framework: &str, at_end: bool)
        requires
            old(self).open_entries() <= usize::MAX,
            framework@ == ".framework"@ || framework@ == "framework"@,
            at_end ==> framework@ == "framework"@,
            !at_end ==> framework@ == ".framework"@,
        ensures
            !at_end ==> final(self).state() == ls_blank(old(self).state()),
            at_end ==> final(self).state().windows == ls_finish(old(self).state()),
            final(self).app is None,
            final(self).open_entries() <= old(self).open_entries(),
    {
        let ghost st = self.state();
        match self.app.take() {
            None => {
                self.bundle = None;
                self.pid = 0;
                assert(self.state() =~= ls_blank(st));
            },
            Some(app) => {
                let listed = !ls_is_system(app.as_slice(), framework) && app.len() > 0
                    && self.pid > 0 && kind_is_foreground(&self.kind);
                if listed {
                    let key = match &self.bundle {
                        Some(b) => string_of(b.as_slice()),
                        None => string_of(app.as_slice()),
                    };
                    assert(key@ == record_key(ls_entry(st, app@)));
                    if list_has_key(&self.windows, &key) {
                        if !at_end {
                            self.kind = None;
                        }
                        self.bundle = None;
                        self.pid = 0;
                        proof {
                            if !at_end {
                                assert(self.state() =~= ls_blank(st));
                            }
                        }
                    } else {
                        let w = WindowInfo {
                            id: self.windows.len() as u64 + 1,
                            title: String::new(),
                            app_name: string_of(app.as_slice()),
                            bundle_id: string_option(&self.bundle),
                            pid: self.pid,
                        };
                        assert(w@ == ls_entry(st, app@));
                        proof {
                            lemma_records_push(self.windows@, w);
                        }
                        self.windows.push(w);
                        self.bundle = None;
                        self.pid = 0;
                        proof {
                            if !at_end {
                                assert(self.state() =~= ls_blank(st));
                            }
                        }
                    }
                } else {
                    self.bundle = None;
                    self.pid = 0;
                    proof {
                        if !at_end {
                            assert(self.state() =~= ls_blank(st));
                        }
                    }
                }
            },
        }
    }
}


impl LsReader {
    /// Applies one line of the listing.
    fn read_line(&mut self, line: &[char])
        requires
            old(self).open_entries() < usize::MAX,
        ensures
            final(self).state() == ls_step(old(self).state(), line@),
            final(self).open_entries() <= old(self).open_entries() + 1,
    {
        let ghost st = self.state();
        let t = trim_chars(line);
        if contains_text(t.as_slice(), ")") && contains_text(t.as_slice(), "ASN:") {
            let q1 = find_char_from(t.as_slice(), '"', 0);
            proof {
                assert(t@.skip(0) =~= t@);
                lemma_first_index(t@, '"');
            }
            if q1 < t.len() {
                let q2 = find_char_from(t.as_slice(), '"', q1 + 1);
                proof {
                    lemma_first_index(t@.skip(q1 + 1), '"');
                }
                if q2 < t.len() {
                    self.app = Some(copy_range(t.as_slice(), q1 + 1, q2));
                    self.bundle = None;
                    self.pid = 0;
                    self.kind = None;
                }
            }
            assert(self.state() =~= ls_header(st, t@));
        } else if starts_with_text(t.as_slice(), "bundleID=") {
            let unquoted = trim_char_chars(t.as_slice(), '"');
            let key = chars_of("bundleID=");
            let stripped = strip_prefixes_chars(unquoted.as_slice(), key.as_slice());
            let b = trim_chars(stripped.as_slice());
            if b.len() > 0 && !is_text(b.as_slice(), "[ NULL ]") && !starts_with_text(
                b.as_slice(),
                "com.apple",
            ) {
                self.bundle = Some(b);
            }
            assert(self.state() =~= ls_bundle(st, t@));
        } else if starts_with_text(t.as_slice(), "pid") && contains_text(t.as_slice(), "=") {
            let eq = chars_of("=");
            proof {
                reveal_strlit("=");
            }
            let found = find_pattern(t.as_slice(), eq.as_slice());
            match found {
                Some(start) => {
                    proof {
                        lemma_find_from(t@, eq@, 0);
                    }
                    let after = copy_range(t.as_slice(), start + 1, t.len());
                    let after_trimmed = trim_chars(after.as_slice());
                    let ws = split_words(after_trimmed.as_slice());
                    let pid = if ws.len() > 0 {
                        assert(deep(ws@)[0] == ws@[0]@);
                        parse_i32_or_zero_chars(ws[0].as_slice())
                    } else {
                        0
                    };
                    proof {
                        assert(after@ =~= t@.skip(start + 1));
                    }
                    let tp = chars_of("type=\"");
                    match find_pattern(t.as_slice(), tp.as_slice()) {
                        Some(ts) => {
                            proof {
                                lemma_find_from(t@, tp@, 0);
                            }
                            let b = ts + tp.len();
                            let te = find_char_from(t.as_slice(), '"', b);
                            proof {
                                lemma_first_index(t@.skip(b as int), '"');
                            }
                            if te < t.len() {
                                self.kind = Some(copy_range(t.as_slice(), b, te));
                            }
                        },
                        None => {},
                    }
                    self.pid = pid;
                    assert(self.state() =~= ls_pid_line(st, t@));
                },
                None => {
                    assert(self.state() =~= ls_pid_line(st, t@));
                },
            }
        } else if t.len() == 0 {
            self.close_block(".framework", false);
        }
    }
}

/// Parses the listing that `lsappinfo list -a` prints.
pub fn parse_lsappinfo_windows(out: &str) -> (res: Vec<WindowInfo>)
    ensures
        records(res@) == ls_windows(out@),
{
    let chars = chars_of(out);
    let ls = split_lines(chars.as_slice());
    let mut reader = LsReader {
        windows: Vec::new(),
        app: None,
        bundle: None,
        pid: 0,
        kind: None,
    };
    assert(records(reader.windows@) =~= Seq::<WindowRecord>::empty());
    assert(reader.state() =~= ls_start());
    let mut i: usize = 0;
    while i < ls.len()
        invariant
            i <= ls@.len(),
            deep(ls@) == lines(out@),
            reader.state() == ls_fold(deep(ls@).take(i as int)),
            reader.open_entries() <= i,
        decreases ls@.len() - i,
    {
        proof {
            assert(deep(ls@).take(i + 1).drop_last() =~= deep(ls@).take(i as int));
            assert(deep(ls@).take(i + 1).last() == ls@[i as int]@);
        }
        reader.read_line(ls[i].as_slice());
        i = i + 1;
    }
    proof {
        assert(deep(ls@).take(ls@.len() as int) =~= deep(ls@));
    }
    reader.close_block("framework", true);
    reader.windows
}


/// A list of applications numbered by place from 1, each with a positive process id, a
/// nonempty name and no title, no two with the same key.
pub open spec fn ls_well_formed(ws: Seq<WindowRecord>) -> bool {
    &&& forall|i: int|
        0 <= i < ws.len() ==> {
            &&& (#[trigger] ws[i]).id == (i + 1) as u64
            &&& ws[i].pid > 0
            &&& ws[i].app_name.len() > 0
            &&& ws[i].title.len() == 0
            &&& !ls_system(ws[i].app_name, ".framework"@)
        }
    &&& forall|i: int, j: int|
        0 <= i < j < ws.len() ==> record_key(#[trigger] ws[i]) != record_key(#[trigger] ws[j])
}

/// A name that holds `.framework` also holds `framework`.
proof fn lemma_dot_framework(s: Seq<char>)
    ensures
        contains(s, ".framework"@) ==> contains(s, "framework"@),
{
    reveal_strlit(".framework");
    reveal_strlit("framework");
    let p = ".framework"@;
    let q = "framework"@;
    lemma_find_from(s, p, 0);
    lemma_find_from(s, q, 0);
    if let Some(kn) = find(s, p) {
        let k = kn as int;
        assert(s.subrange(k + 1, k + 1 + q.len()) =~= s.subrange(k, k + p.len()).subrange(
            1,
            p.len() as int,
        ));
        assert(p.subrange(1, p.len() as int) =~= q);
        assert(crate::text::matches_at(s, q, k + 1));
    }
}

proof fn lemma_ls_push_keeps(ws: Seq<WindowRecord>, st: LsState, app: Seq<char>)
    requires
        ls_well_formed(ws),
        st.windows == ws,
        st.pid > 0,
        app.len() > 0,
        !ls_system(app, ".framework"@),
        !has_key(ws, record_key(ls_entry(st, app))),
    ensures
        ls_well_formed(ws.push(ls_entry(st, app))),
{
    let nw = ws.push(ls_entry(st, app));
    assert forall|i: int, j: int| 0 <= i < j < nw.len() implies record_key(#[trigger] nw[i])
        != record_key(#[trigger] nw[j]) by {
        if j == ws.len() {
            assert(nw[i] == ws[i]);
        }
    }
}

proof fn lemma_ls_fold_well_formed(ls: Seq<Seq<char>>)
    ensures
        ls_well_formed(ls_fold(ls).windows),
    decreases ls.len(),
{
    if ls.len() > 0 {
        lemma_ls_fold_well_formed(ls.drop_last());
        let st = ls_fold(ls.drop_last());
        let t = trim(ls.last());
        if !(contains(t, ")"@) && contains(t, "ASN:"@)) && !starts_with(t, "bundleID="@) && !(
        starts_with(t, "pid"@) && contains(t, "="@)) && t.len() == 0 {
            if let Some(app) = st.app {
                if ls_listed(st, app, ".framework"@) && !has_key(
                    st.windows,
                    record_key(ls_entry(st, app)),
                ) {
                    lemma_ls_push_keeps(st.windows, st, app);
                }
            }
        }
    }
}

/// Every application read from the listing is numbered by its place in the list, starting
/// at 1, has a positive process id, a nonempty name that the listing does not count as part
/// of the system, and no title, and no two of them have the same bundle id (or, without
/// one, the same name).
pub proof fn lemma_ls_windows_well_formed(out: Seq<char>)
    ensures
        ls_well_formed(ls_windows(out)),
{
    lemma_ls_fold_well_formed(lines(out));
    let st = ls_fold(lines(out));
    if let Some(app) = st.app {
        if ls_listed(st, app, "framework"@) && !has_key(st.windows, record_key(ls_entry(st, app))) {
            lemma_dot_framework(app);
            lemma_ls_push_keeps(st.windows, st, app);
        }
    }
}


/// The last block of a listing, where it is still open, is kept or left out alike whether
/// the listing ends there or an empty line closes it: the two framework tests (`framework`
/// at the end, `.framework` after an empty line) agree on it, or its key is taken already.
pub open spec fn ends_alike(st: LsState) -> bool {
    match st.app {
        None => true,
        Some(app) => ls_listed(st, app, "framework"@) == ls_listed(st, app, ".framework"@)
            || has_key(st.windows, record_key(ls_entry(st, app))),
    }
}

proof fn lemma_step_on_empty_line(st: LsState)
    ensures
        ls_step(st, Seq::empty()) == ls_blank(st),
{
    reveal_strlit(")");
    reveal_strlit("bundleID=");
    reveal_strlit("pid");
    let e = Seq::<char>::empty();
    assert(e.skip(0) =~= e);
    assert(trim(e) =~= e);
    assert(find(e, ")"@) is None);
    assert(!starts_with(e, "bundleID="@));
    assert(!starts_with(e, "pid"@));
}

proof fn lemma_step_same_trim(st: LsState, a: Seq<char>, b: Seq<char>)
    requires
        trim(a) == trim(b),
    ensures
        ls_step(st, a) == ls_step(st, b),
{
}

/// Whether a listing ends right after its last block or with an empty line after it
/// makes no difference to the applications read from it, as long as the two framework
/// tests agree on that last block (see `ends_alike`; they differ for a name that holds
/// `framework` but not `.framework`).
pub proof fn lemma_blank_line_at_end(s: Seq<char>)
    requires
        ends_alike(ls_fold(lines(s))),
    ensures
        ls_windows(s + seq!['\n', '\n']) == ls_windows(s),
{
    let e = Seq::<char>::empty();
    let l = lines(s);
    let st = ls_fold(l);
    let l2 = lines(s + seq!['\n', '\n']);
    lemma_lines_then_blank(s);
    lemma_step_on_empty_line(st);
    lemma_step_on_empty_line(ls_blank(st));
    if s.len() == 0 {
        assert(l == Seq::<Seq<char>>::empty());
        assert(l2 == seq![e, e]);
        assert(l2.drop_last() =~= seq![e]);
        assert(seq![e].drop_last() =~= Seq::<Seq<char>>::empty());
        assert(ls_fold(seq![e]) == ls_step(ls_start(), e));
        assert(ls_fold(l2) == ls_step(ls_fold(seq![e]), e));
        assert(st == ls_start());
    } else if s.last() == '\n' {
        assert(l2 == l + seq![e, e]);
        assert(l2.drop_last() =~= l.push(e));
        assert(l.push(e).drop_last() =~= l);
        assert(ls_fold(l.push(e)) == ls_step(st, e));
        assert(ls_fold(l2) == ls_step(ls_fold(l.push(e)), e));
    } else {
        let m = l.drop_last();
        assert(l.len() > 0);
        lemma_trim_strip_cr(l.last());
        lemma_step_same_trim(ls_fold(m), strip_cr(l.last()), l.last());
        assert(l2 == m.push(strip_cr(l.last())).push(e));
        assert(l2.drop_last() =~= m.push(strip_cr(l.last())));
        assert(m.push(strip_cr(l.last())).drop_last() =~= m);
        assert(ls_fold(m.push(strip_cr(l.last()))) == ls_step(ls_fold(m), strip_cr(l.last())));
        assert(st == ls_step(ls_fold(m), l.last()));
        assert(ls_fold(l2) == ls_step(st, e));
    }
}


/// The number of lines of `ls` that hold `type="Foreground"`.
pub open spec fn foreground_lines(ls: Seq<Seq<char>>) -> nat
    decreases ls.len(),
{
    if ls.len() == 0 {
        0
    } else {
        foreground_lines(ls.drop_last()) + if contains(ls.last(), "type=\"Foreground\""@) {
            1nat
        } else {
            0nat
        }
    }
}

/// 1 where the current block is open and its kind is `Foreground`.
spec fn open_foreground(st: LsState) -> nat {
    if st.app is Some && st.kind == Some("Foreground"@) {
        1
    } else {
        0
    }
}

/// A kind of `Foreground` read from a line comes from a `type="Foreground"` in it.
proof fn lemma_kind_from_line(t: Seq<char>, prev: Option<Seq<char>>)
    requires
        kind_value(t, prev) == Some("Foreground"@),
        prev != Some("Foreground"@),
    ensures
        contains(t, "type=\"Foreground\""@),
{
    reveal_strlit("type=\"");
    reveal_strlit("Foreground");
    reveal_strlit("type=\"Foreground\"");
    let tp = "type=\""@;
    let pat = "type=\"Foreground\""@;
    lemma_find_from(t, tp, 0);
    let ts = find(t, tp)->0 as int;
    let b = ts + 6;
    let te = first_index(t.skip(b), '"') as int;
    lemma_first_index(t.skip(b), '"');
    assert(t.subrange(b, b + te) == "Foreground"@);
    assert(te == 10);
    assert(t.skip(b)[10] == '"');
    assert(t[b + 10] == '"');
    assert(t.subrange(ts, ts + 6) == tp);
    assert(pat =~= tp + "Foreground"@ + seq!['"']);
    assert(t.subrange(ts, ts + 17) =~= t.subrange(ts, ts + 6) + t.subrange(b, b + 10) + seq![
        t[b + 10],
    ]);
    assert(matches_at(t, pat, ts));
    lemma_find_from(t, pat, 0);
}

proof fn lemma_step_foreground(st: LsState, line: Seq<char>)
    ensures
        ls_step(st, line).windows.len() + open_foreground(ls_step(st, line)) <= st.windows.len()
            + open_foreground(st) + if contains(line, "type=\"Foreground\""@) {
            1nat
        } else {
            0nat
        },
{
    let t = trim(line);
    let nst = ls_step(st, line);
    if !(contains(t, ")"@) && contains(t, "ASN:"@)) && !starts_with(t, "bundleID="@) && (
    starts_with(t, "pid"@) && contains(t, "="@)) {
        if let Some(start) = find(t, "="@) {
            if nst.kind == Some("Foreground"@) && st.kind != Some("Foreground"@) {
                lemma_kind_from_line(t, st.kind);
                lemma_contains_in_trim(line, "type=\"Foreground\""@);
            }
        }
    }
}

proof fn lemma_fold_foreground(ls: Seq<Seq<char>>)
    ensures
        ls_fold(ls).windows.len() + open_foreground(ls_fold(ls)) <= foreground_lines(ls),
    decreases ls.len(),
{
    if ls.len() > 0 {
        lemma_fold_foreground(ls.drop_last());
        lemma_step_foreground(ls_fold(ls.drop_last()), ls.last());
    }
}

/// Only `Foreground` applications are listed: the listing never yields more applications
/// than it has lines holding `type="Foreground"`, so a listing whose applications are all
/// `BackgroundOnly` or `UIElement` yields none.
pub proof fn lemma_ls_only_foreground(out: Seq<char>)
    ensures
        ls_windows(out).len() <= foreground_lines(lines(out)),
{
    lemma_fold_foreground(lines(out));
}

} // verus!
