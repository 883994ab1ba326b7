//! The decisions of the macOS side: reading the accessibility check, building the
//! AppleScript that activates a process and types a password, and the steps of an
//! auto-fill with what each outcome leads to.

use vstd::prelude::*;
use vstd::string::StringExecFns;
use crate::obfuscation::message_with;
use crate::text::{chars_of, contains, contains_text, has_char, string_of, trim, trim_chars};

verus! {

/// The message shown when the accessibility permission is missing.
pub open spec fn permission_message() -> Seq<char> {
    "需要辅助功能权限。请前往：系统设置 > 隐私与安全 > 辅助功能，添加并启用此应用"@
}

fn permission_text() -> (res: String)
    ensures
        res@ == permission_message(),
{
    String::from_str("需要辅助功能权限。请前往：系统设置 > 隐私与安全 > 辅助功能，添加并启用此应用")
}

/// `prefix` followed by `detail`.
fn joined_message(prefix: &str, detail: &str) -> (res: String)
    ensures
        res@ == prefix@ + detail@,
{
    let mut m = String::from_str(prefix);
    m.append(detail);
    m
}

/// ASCII letters in lower case; other characters unchanged.
pub open spec fn ascii_lower(c: char) -> char {
    if 'A' <= c <= 'Z' {
        ((c as u32) + 32) as char
    } else {
        c
    }
}

/// `t` reads `true` in any mix of letter cases.
pub open spec fn says_true(t: Seq<char>) -> bool {
    &&& t.len() == 4
    &&& ascii_lower(t[0]) == 't'
    &&& ascii_lower(t[1]) == 'r'
    &&& ascii_lower(t[2]) == 'u'
    &&& ascii_lower(t[3]) == 'e'
}

fn lower_is(c: char, want: char) -> (res: bool)
    requires
        'a' <= want <= 'z',
    ensures
        res == (ascii_lower(c) == want),
{
    if 'A' <= c && c <= 'Z' {
        assert((c as u32) + 32 == want as u32 ==> ((c as u32) + 32) as char == want);
        assert(((c as u32) + 32) as char == want ==> (c as u32) + 32 == want as u32);
        (c as u32) + 32 == want as u32
    } else {
        c == want
    }
}

/// What the accessibility check reports, from whether the query succeeded and what it
/// printed: a refused query means no permission when its error says so.
pub open spec fn accessibility_result(success: bool, out: Seq<char>, err: Seq<char>) -> Result<bool, Seq<char>> {
    if !success {
        if contains(err, "privilege violation"@) || contains(err, "not allowed"@) {
            Ok(false)
        } else {
            Err("AppleScript 错误: "@ + err)
        }
    } else {
        Ok(says_true(trim(out)))
    }
}

/// Reads the answer of the accessibility query.
pub fn accessibility_from_output(success: bool, out: &str, err: &str) -> (res: Result<bool, String>)
    ensures
        match (res, accessibility_result(success, out@, err@)) {
            (Ok(a), Ok(b)) => a == b,
            (Err(a), Err(b)) => a@ == b,
            _ => false,
        },
{
    if !success {
        let e = chars_of(err);
        if contains_text(e.as_slice(), "privilege violation") || contains_text(
            e.as_slice(),
            "not allowed",
        ) {
            return Ok(false);
        }
        return Err(joined_message("AppleScript 错误: ", err));
    }
    let o = chars_of(out);
    let t = trim_chars(o.as_slice());
    Ok(t.len() == 4 && lower_is(t[0], 't') && lower_is(t[1], 'r') && lower_is(t[2], 'u')
        && lower_is(t[3], 'e'))
}

/// The decimal digits of `n`.
pub open spec fn digits_of(n: nat) -> Seq<char>
    decreases n,
{
    if n < 10 {
        seq![((n + '0' as nat) as u32) as char]
    } else {
        digits_of(n / 10).push((((n % 10) + '0' as nat) as u32) as char)
    }
}

/// The text of `n` as `Display` writes it.
pub open spec fn decimal(n: i32) -> Seq<char> {
    if n < 0 {
        seq!['-'] + digits_of((-n) as nat)
    } else {
        digits_of(n as nat)
    }
}

fn digit_char(d: u64) -> (res: char)
    requires
        d < 10,
    ensures
        res == ((d + '0' as nat) as u32) as char,
{
    let r = ((d as u32) + 48) as u8;
    r as char
}

fn digits_chars(n: u64) -> (res: Vec<char>)
    ensures
        res@ == digits_of(n as nat),
    decreases n,
{
    if n < 10 {
        let mut v = Vec::new();
        v.push(digit_char(n));
        assert(v@ =~= digits_of(n as nat));
        v
    } else {
        let mut v = digits_chars(n / 10);
        v.push(digit_char(n % 10));
        v
    }
}

/// The text of `n`.
pub fn decimal_text(n: i32) -> (res: String)
    ensures
        res@ == decimal(n),
{
    if n < 0 {
        let m = (0 - (n as i64)) as u64;
        let d = digits_chars(m);
        let mut s = String::from_str("-");
        proof {
            reveal_strlit("-");
        }
        let ds = string_of(d.as_slice());
        s.append(ds.as_str());
        s
    } else {
        let d = digits_chars(n as u64);
        string_of(d.as_slice())
    }
}

/// The script that brings the process `pid` to the front.
pub open spec fn activation_script(pid: i32) -> Seq<char> {
    "tell application \"System Events\" to set frontmost of first process whose unix id is "@
        + decimal(pid) + " to true"@
}

/// Builds the script that brings the process `pid` to the front.
pub fn activation_script_text(pid: i32) -> (res: String)
    ensures
        res@ == activation_script(pid),
{
    let mut s = String::from_str(
        "tell application \"System Events\" to set frontmost of first process whose unix id is ",
    );
    let d = decimal_text(pid);
    s.append(d.as_str());
    s.append(" to true");
    s
}

/// `c` as it is written inside an AppleScript string literal.
pub open spec fn escape_char(c: char) -> Seq<char> {
    if c == '\\' {
        seq!['\\', '\\']
    } else if c == '"' {
        seq!['\\', '"']
    } else {
        seq![c]
    }
}

/// `s` with every `\` doubled and every `"` preceded by `\`, as the two `replace` calls
/// give it.
pub open spec fn escaped(s: Seq<char>) -> Seq<char>
    decreases s.len(),
{
    if s.len() == 0 {
        seq![]
    } else {
        escaped(s.drop_last()) + escape_char(s.last())
    }
}

/// Escapes `s` for an AppleScript string literal.
pub fn escape_for_script(s: &str) -> (res: String)
    ensures
        res@ == escaped(s@),
{
    let cs = chars_of(s);
    let mut out: Vec<char> = Vec::new();
    let mut i: usize = 0;
    assert(cs@.take(0) =~= Seq::<char>::empty());
    while i < cs.len()
        invariant
            i <= cs@.len(),
            out@ == escaped(cs@.take(i as int)),
        decreases cs@.len() - i,
    {
        let c = cs[i];
        if c == '\\' {
            out.push('\\');
            out.push('\\');
        } else if c == '"' {
            out.push('\\');
            out.push('"');
        } else {
            out.push(c);
        }
        proof {
            assert(cs@.take(i + 1).drop_last() =~= cs@.take(i as int));
            assert(out@ =~= escaped(cs@.take(i as int)) + escape_char(c));
        }
        i = i + 1;
    }
    assert(cs@.take(i as int) =~= cs@);
    string_of(out.as_slice())
}

/// The character that the escape `\c` stands for in an AppleScript string literal.
pub open spec fn escape_meaning(c: char) -> char {
    if c == 'n' {
        '\n'
    } else if c == 't' {
        '\t'
    } else if c == 'r' {
        '\r'
    } else {
        c
    }
}

/// `t` is the body of an AppleScript string literal: no bare `"`, and each `\` begins an
/// escape.
pub open spec fn literal_body(t: Seq<char>) -> bool
    decreases t.len(),
{
    if t.len() == 0 {
        true
    } else if t[0] == '\\' {
        t.len() >= 2 && literal_body(t.skip(2))
    } else {
        t[0] != '"' && literal_body(t.drop_first())
    }
}

/// The text that the literal body `t` stands for.
pub open spec fn literal_text(t: Seq<char>) -> Seq<char>
    decreases t.len(),
{
    if t.len() == 0 {
        seq![]
    } else if t[0] == '\\' && t.len() >= 2 {
        seq![escape_meaning(t[1])] + literal_text(t.skip(2))
    } else {
        seq![t[0]] + literal_text(t.drop_first())
    }
}

/// Escaping a password gives the body of a string literal that stands for exactly that
/// password, so the script types what was stored.
pub proof fn lemma_escape_round_trip(s: Seq<char>)
    ensures
        literal_body(escaped(s)),
        literal_text(escaped(s)) == s,
    decreases s.len(),
{
    if s.len() > 0 {
        lemma_escape_front(s);
        lemma_escape_round_trip(s.drop_first());
        let c = s[0];
        let e = escape_char(c);
        let rest = escaped(s.drop_first());
        let t = e + rest;
        if c == '\\' || c == '"' {
            assert(t.skip(2) =~= rest);
        } else {
            assert(t.drop_first() =~= rest);
        }
        assert(literal_text(t) =~= seq![c] + literal_text(rest));
        assert(seq![c] + s.drop_first() =~= s);
    }
}

/// Escaping works character by character from the front too.
proof fn lemma_escape_front(s: Seq<char>)
    requires
        s.len() > 0,
    ensures
        escaped(s) == escape_char(s[0]) + escaped(s.drop_first()),
    decreases s.len(),
{
    if s.len() == 1 {
        assert(s.drop_last() =~= Seq::<char>::empty());
        assert(s.drop_first() =~= Seq::<char>::empty());
        assert(escaped(s) =~= escape_char(s[0]));
    } else {
        lemma_escape_front(s.drop_last());
        assert(s.drop_last().drop_first() =~= s.drop_first().drop_last());
        assert(s.drop_first().last() == s.last());
        assert(escaped(s) =~= escape_char(s[0]) + escaped(s.drop_first()));
    }
}

/// The script that types `password` into the front-most application.
pub open spec fn keystroke_script(password: Seq<char>) -> Seq<char> {
    "tell application \"System Events\" to keystroke \""@ + escaped(password) + "\""@
}

/// Builds the script that types `password` into the front-most application.
pub fn keystroke_script_text(password: &str) -> (res: String)
    ensures
        res@ == keystroke_script(password@),
{
    let mut s = String::from_str("tell application \"System Events\" to keystroke \"");
    let e = escape_for_script(password);
    s.append(e.as_str());
    s.append("\"");
    s
}


/// Where an auto-fill stands.
#[derive(PartialEq, Eq, Structural, Clone, Copy)]
pub enum AutofillPhase {
    CheckingPermission,
    Activating,
    Waiting,
    Typing,
    Finished,
}

/// How a script run ended: the error that kept it from starting, or whether it succeeded
/// and what it wrote to standard error.
pub struct ScriptOutcome {
    pub launch_error: Option<String>,
    pub success: bool,
    pub stderr: String,
}

/// What the caller reports back to an auto-fill.
pub enum AutofillEvent {
    Permission(Result<bool, String>),
    ScriptRan(ScriptOutcome),
    Waited,
}

/// What the caller is to do next.
pub enum AutofillAction {
    CheckPermission,
    RunScript(String),
    Wait(u64),
    Finish(Result<(), String>),
}

pub struct OutcomeRecord {
    pub launch_error: Option<Seq<char>>,
    pub success: bool,
    pub stderr: Seq<char>,
}

pub enum EventRecord {
    Permission(Result<bool, Seq<char>>),
    ScriptRan(OutcomeRecord),
    Waited,
}

pub enum ActionRecord {
    CheckPermission,
    RunScript(Seq<char>),
    Wait(u64),
    Finish(Result<(), Seq<char>>),
}

impl View for AutofillEvent {
    type V = EventRecord;

    open spec fn view(&self) -> EventRecord {
        match self {
            AutofillEvent::Permission(Ok(b)) => EventRecord::Permission(Ok(*b)),
            AutofillEvent::Permission(Err(e)) => EventRecord::Permission(Err(e@)),
            AutofillEvent::ScriptRan(o) => EventRecord::ScriptRan(
                OutcomeRecord {
                    launch_error: match o.launch_error {
                        Some(e) => Some(e@),
                        None => None,
                    },
                    success: o.success,
                    stderr: o.stderr@,
                },
            ),
            AutofillEvent::Waited => EventRecord::Waited,
        }
    }
}

impl View for AutofillAction {
    type V = ActionRecord;

    open spec fn view(&self) -> ActionRecord {
        match self {
            AutofillAction::CheckPermission => ActionRecord::CheckPermission,
            AutofillAction::RunScript(s) => ActionRecord::RunScript(s@),
            AutofillAction::Wait(ms) => ActionRecord::Wait(*ms),
            AutofillAction::Finish(Ok(())) => ActionRecord::Finish(Ok(())),
            AutofillAction::Finish(Err(e)) => ActionRecord::Finish(Err(e@)),
        }
    }
}

/// The events that each phase waits for.
pub open spec fn event_fits(phase: AutofillPhase, ev: EventRecord) -> bool {
    match phase {
        AutofillPhase::CheckingPermission => ev is Permission,
        AutofillPhase::Activating => ev is ScriptRan,
        AutofillPhase::Waiting => ev is Waited,
        AutofillPhase::Typing => ev is ScriptRan,
        AutofillPhase::Finished => false,
    }
}

/// How the script that typed the password ended.
pub open spec fn typing_result(o: OutcomeRecord) -> Result<(), Seq<char>> {
    match o.launch_error {
        Some(e) => Err("启动失败: "@ + e),
        None => if o.success {
            Ok(())
        } else if contains(o.stderr, "not allowed"@) || contains(o.stderr, "assistive"@)
            || contains(o.stderr, "privilege violation"@) {
            Err(permission_message())
        } else {
            Err("AppleScript 错误: "@ + o.stderr)
        },
    }
}

/// The next phase and action of an auto-fill of `password` into process `pid`: check the
/// permission (only a definite "no" stops), bring the process to the front, wait 1.5 s,
/// type the password.
pub open spec fn autofill_next(pid: i32, password: Seq<char>, phase: AutofillPhase, ev: EventRecord) -> (AutofillPhase, ActionRecord) {
    match (phase, ev) {
        (AutofillPhase::CheckingPermission, EventRecord::Permission(r)) => {
            if r == Ok::<bool, Seq<char>>(false) {
                (AutofillPhase::Finished, ActionRecord::Finish(Err(permission_message())))
            } else {
                (AutofillPhase::Activating, ActionRecord::RunScript(activation_script(pid)))
            }
        },
        (AutofillPhase::Activating, EventRecord::ScriptRan(o)) => {
            match o.launch_error {
                Some(e) => (AutofillPhase::Finished, ActionRecord::Finish(Err("PID 激活失败: "@ + e))),
                None => if o.success {
                    (AutofillPhase::Waiting, ActionRecord::Wait(1500))
                } else {
                    (AutofillPhase::Finished, ActionRecord::Finish(Err("PID 激活失败: "@ + o.stderr)))
                },
            }
        },
        (AutofillPhase::Waiting, EventRecord::Waited) => {
            (AutofillPhase::Typing, ActionRecord::RunScript(keystroke_script(password)))
        },
        (AutofillPhase::Typing, EventRecord::ScriptRan(o)) => {
            (AutofillPhase::Finished, ActionRecord::Finish(typing_result(o)))
        },
        _ => (AutofillPhase::Finished, ActionRecord::Finish(Ok(()))),
    }
}

/// An auto-fill of a password into the front window of a process, driven by its caller:
/// each call says what to do next, and the caller reports how it went.
pub struct Autofill {
    pub pid: i32,
    pub password: String,
    pub phase: AutofillPhase,
}

impl Autofill {
    /// Begins an auto-fill of `password` into process `pid`: first check the permission.
    pub fn start(pid: i32, password: String) -> (res: (Autofill, AutofillAction))
        ensures
            res.0.pid == pid,
            res.0.password@ == password@,
            res.0.phase == AutofillPhase::CheckingPermission,
            res.1@ == ActionRecord::CheckPermission,
    {
        (Autofill { pid, password, phase: AutofillPhase::CheckingPermission }, AutofillAction::CheckPermission)
    }

    /// The report `ev` is one that the current phase waits for.
    pub fn accepts(&self, ev: &AutofillEvent) -> (res: bool)
        ensures
            res == event_fits(self.phase, ev@),
    {
        match (self.phase, ev) {
            (AutofillPhase::CheckingPermission, AutofillEvent::Permission(_)) => true,
            (AutofillPhase::Activating, AutofillEvent::ScriptRan(_)) => true,
            (AutofillPhase::Waiting, AutofillEvent::Waited) => true,
            (AutofillPhase::Typing, AutofillEvent::ScriptRan(_)) => true,
            _ => false,
        }
    }

    /// Takes the report `ev` of the last action and gives the next one.
    pub fn step(&mut self, ev: AutofillEvent) -> (res: AutofillAction)
        requires
            event_fits(old(self).phase, ev@),
        ensures
            final(self).pid == old(self).pid,
            final(self).password@ == old(self).password@,
            (final(self).phase, res@) == autofill_next(old(self).pid, old(self).password@, old(self).phase, ev@),
    {
        match ev {
            AutofillEvent::Permission(r) => {
                let denied = match r {
                    Ok(b) => !b,
                    Err(_) => false,
                };
                if denied {
                    self.phase = AutofillPhase::Finished;
                    AutofillAction::Finish(Err(permission_text()))
                } else {
                    self.phase = AutofillPhase::Activating;
                    AutofillAction::RunScript(activation_script_text(self.pid))
                }
            },
            AutofillEvent::ScriptRan(o) => {
                if self.phase == AutofillPhase::Activating {
                    self.phase = AutofillPhase::Finished;
                    match o.launch_error {
                        Some(e) => AutofillAction::Finish(Err(joined_message("PID 激活失败: ", e.as_str()))),
                        None => if o.success {
                            self.phase = AutofillPhase::Waiting;
                            AutofillAction::Wait(1500)
                        } else {
                            AutofillAction::Finish(Err(joined_message("PID 激活失败: ", o.stderr.as_str())))
                        },
                    }
                } else {
                    self.phase = AutofillPhase::Finished;
                    match o.launch_error {
                        Some(e) => AutofillAction::Finish(Err(joined_message("启动失败: ", e.as_str()))),
                        None => if o.success {
                            AutofillAction::Finish(Ok(()))
                        } else {
                            let err = chars_of(o.stderr.as_str());
                            if contains_text(err.as_slice(), "not allowed") || contains_text(
                                err.as_slice(),
                                "assistive",
                            ) || contains_text(err.as_slice(), "privilege violation") {
                                AutofillAction::Finish(Err(permission_text()))
                            } else {
                                AutofillAction::Finish(Err(joined_message("AppleScript 错误: ", o.stderr.as_str())))
                            }
                        },
                    }
                }
            },
            AutofillEvent::Waited => {
                self.phase = AutofillPhase::Typing;
                AutofillAction::RunScript(keystroke_script_text(self.password.as_str()))
            },
        }
    }
}


/// The number of `\` and `"` characters in `s`.
pub open spec fn quote_or_backslash_count(s: Seq<char>) -> nat
    decreases s.len(),
{
    if s.len() == 0 {
        0
    } else {
        quote_or_backslash_count(s.drop_last()) + if s.last() == '\\' || s.last() == '"' {
            1nat
        } else {
            0nat
        }
    }
}

/// Escaping adds exactly one character for each `\` and `"` and changes nothing else: a
/// text with neither is its own escape.
pub proof fn lemma_escape_changes_only_quotes(s: Seq<char>)
    ensures
        escaped(s).len() == s.len() + quote_or_backslash_count(s),
        !has_char(s, '\\') && !has_char(s, '"') ==> escaped(s) == s,
    decreases s.len(),
{
    if s.len() > 0 {
        let d = s.drop_last();
        lemma_escape_changes_only_quotes(d);
        if !has_char(s, '\\') && !has_char(s, '"') {
            assert(!has_char(d, '\\') && !has_char(d, '"')) by {
                if has_char(d, '\\') {
                    let k = choose|k: int| 0 <= k < d.len() && #[trigger] d[k] == '\\';
                    assert(s[k] == d[k]);
                }
                if has_char(d, '"') {
                    let k = choose|k: int| 0 <= k < d.len() && #[trigger] d[k] == '"';
                    assert(s[k] == d[k]);
                }
            }
            assert(s[s.len() - 1] == s.last());
            assert(escape_char(s.last()) == seq![s.last()]);
            assert(escaped(s) =~= d.push(s.last()));
            assert(d.push(s.last()) =~= s);
        }
    }
}

} // verus!
