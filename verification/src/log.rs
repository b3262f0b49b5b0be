//! Log lines and where they go.
use crate::chat::ThreadKey;
use crate::clock;
use crate::text;
use vstd::prelude::*;

verus! {

/// Where one log line goes.
#[derive(Debug)]
pub struct LogCtx {
    pub session_id: Option<String>,
    pub thread_key: Option<ThreadKey>,
}

impl Default for LogCtx {
    fn default() -> (r: Self)
        ensures
            r.session_id is None,
            r.thread_key is None,
    {
        LogCtx { session_id: None, thread_key: None }
    }
}

impl Clone for LogCtx {
    fn clone(&self) -> (r: Self)
        ensures
            r == *self,
    {
        LogCtx {
            session_id: self.session_id.clone(),
            thread_key: match &self.thread_key {
                Some(k) => Some(k.clone()),
                None => None,
            },
        }
    }
}

/// The cap of one record, in bytes.
pub const MAX_RECORD: usize = 16_384;

/// A log file is moved aside once it is larger than this.
pub const MAX_LOG_BYTES: u64 = 33_554_432;

/// A message on one line: line ends (`\r\n` or `\n`) written as `\n` in two characters.
pub open spec fn on_one_line(s: Seq<char>) -> Seq<char>
    decreases s.len(),
{
    if s.len() == 0 {
        s
    } else if s.last() == '\n' {
        if s.len() >= 2 && s[s.len() - 2] == '\r' {
            on_one_line(s.take(s.len() - 2)) + "\\n"@
        } else {
            on_one_line(s.drop_last()) + "\\n"@
        }
    } else {
        on_one_line(s.drop_last()).push(s.last())
    }
}

fn one_line(message: &str) -> (out: String)
    ensures
        out@ == on_one_line(message@),
{
    let chars: Vec<char> = text::chars_of(message);
    let mut done: String = String::new();
    let mut held: bool = false;
    let mut i: usize = 0;
    proof {
        assert(message@.take(0) =~= Seq::<char>::empty());
    }
    while i < chars.len()
        invariant
            i <= chars@.len(),
            chars@ == message@,
            held ==> i > 0 && message@[i - 1] == '\r' && done@ == on_one_line(message@.take(i - 1)),
            !held ==> done@ == on_one_line(message@.take(i as int)),
            !held && i > 0 ==> message@[i - 1] != '\r',
        decreases chars@.len() - i,
    {
        let c: char = chars[i];
        proof {
            let now = message@.take(i + 1);
            assert(now.drop_last() =~= message@.take(i as int));
            assert(now.last() == c);
            if held {
                let past = message@.take(i as int);
                assert(past.drop_last() =~= message@.take(i - 1));
                assert(now.take(now.len() - 2) =~= message@.take(i - 1));
                assert(on_one_line(past) == on_one_line(message@.take(i - 1)).push('\r'));
            }
        }
        if c == '\n' {
            done.append("\\n");
            held = false;
        } else {
            if held {
                done.push('\r');
            }
            if c == '\r' {
                held = true;
            } else {
                done.push(c);
                held = false;
            }
        }
        i = i + 1;
    }
    proof {
        assert(message@.take(message@.len() as int) =~= message@);
    }
    if held {
        proof {
            assert(message@.drop_last() =~= message@.take(message@.len() - 1));
        }
        done.push('\r');
    }
    done
}

/// No line end is left in a message on one line.
pub proof fn law_one_line(s: Seq<char>)
    ensures
        !on_one_line(s).contains('\n'),
    decreases s.len(),
{
    reveal_strlit("\\n");
    if s.len() > 0 {
        if s.last() == '\n' && s.len() >= 2 && s[s.len() - 2] == '\r' {
            law_one_line(s.take(s.len() - 2));
        } else {
            law_one_line(s.drop_last());
        }
        let out = on_one_line(s);
        assert forall|i: int| 0 <= i < out.len() implies out[i] != '\n' by {
            if s.last() == '\n' {
                let head = out.take(out.len() - 2);
                let before = if s.len() >= 2 && s[s.len() - 2] == '\r' {
                    on_one_line(s.take(s.len() - 2))
                } else {
                    on_one_line(s.drop_last())
                };
                assert(out == before + "\\n"@);
                if i < before.len() {
                    assert(out[i] == before[i]);
                    assert(before.contains(before[i]));
                }
            } else {
                let before = on_one_line(s.drop_last());
                if i < before.len() {
                    assert(out[i] == before[i]);
                    assert(before.contains(before[i]));
                }
            }
        }
    }
}

/// A record cut to `room` bytes: as many of its characters as fit, then how many bytes were cut.
pub open spec fn capped(s: Seq<char>, room: nat) -> Seq<char> {
    if text::bytes(s) <= room {
        s
    } else {
        let kept = s.take(text::fit(s, room));
        kept + " …[+"@ + text::decimal(text::bytes(s) - text::bytes(kept)) + " chars truncated]"@
    }
}

fn cap(s: &str, room: usize) -> (out: String)
    ensures
        out@ == capped(s@, room as nat),
{
    let all: usize = text::byte_len(s);
    if all <= room {
        return s.to_owned();
    }
    let chars: Vec<char> = text::chars_of(s);
    let (n, used) = text::fit_count(&chars, room);
    proof {
        text::lemma_bytes_grow(s@, n as int, s@.len() as int);
        assert(s@.take(s@.len() as int) =~= s@);
    }
    let mut out: String = text::text_of(&chars, 0, n);
    proof {
        assert(s@.take(n as int) =~= s@.subrange(0, n as int));
    }
    out.append(" …[+");
    let cut: String = text::number((all - used) as u64);
    out.append(cut.as_str());
    out.append(" chars truncated]");
    out
}

/// Where a log line is written, under the state directory.
#[derive(Debug)]
pub enum LogPath {
    /// `logs/by-thread/<key>/bridge.log`
    ByThread(String),
    /// `logs/sessions/<session>.log`
    Session(String),
    /// `plugin-debug.log`
    Global,
}

impl LogPath {
    /// The path's parts below the state directory.
    pub open spec fn parts(&self) -> Seq<Seq<char>> {
        match self {
            LogPath::ByThread(k) => seq!["logs"@, "by-thread"@, k@, "bridge.log"@],
            LogPath::Session(sid) => seq!["logs"@, "sessions"@, sid@ + ".log"@],
            LogPath::Global => seq!["plugin-debug.log"@],
        }
    }

    /// The path's parts below the state directory.
    pub fn components(&self) -> (out: Vec<String>)
        ensures
            text::views(out@) == self.parts(),
    {
        let mut out: Vec<String> = Vec::new();
        match self {
            LogPath::ByThread(k) => {
                out.push("logs".to_owned());
                out.push("by-thread".to_owned());
                out.push(k.clone());
                out.push("bridge.log".to_owned());
            },
            LogPath::Session(sid) => {
                out.push("logs".to_owned());
                out.push("sessions".to_owned());
                out.push(text::cat(sid.as_str(), ".log"));
            },
            LogPath::Global => {
                out.push("plugin-debug.log".to_owned());
            },
        }
        proof {
            assert(text::views(out@) =~= self.parts());
        }
        out
    }
}

/// A thread's key made safe for a directory's name.
pub open spec fn sanitized(key: Seq<char>) -> Seq<char> {
    text::replaced(text::replaced(key, ':', '-'), '.', '-')
}

/// The session's name in a log line.
pub open spec fn session_name(sid: Option<String>) -> Seq<char> {
    match sid {
        Some(s) => s@,
        None => "-"@,
    }
}

impl LogCtx {
    /// A log line: `<ISO8601> <level> <component> pid=<pid> session=<sid|-> <message>`.
    pub open spec fn line_text(
        &self,
        stamp: Seq<char>,
        pid: int,
        level: Seq<char>,
        component: Seq<char>,
        message: Seq<char>,
    ) -> Seq<char> {
        stamp + " "@ + level + " "@ + component + " pid="@ + text::decimal(pid) + " session="@
            + session_name(self.session_id) + " "@ + capped(
            on_one_line(message),
            MAX_RECORD as nat,
        ) + "\n"@
    }

    /// The line for `message`, written at `at_ms` by the process `pid`.
    pub fn line(&self, at_ms: u64, pid: u32, level: &str, component: &str, message: &str) -> (out:
        String)
        ensures
            out@ == self.line_text(
                if clock::instant_covered(at_ms as i64 as int) {
                    clock::stamp(at_ms as i64 as int)
                } else {
                    clock::stamp(0)
                },
                pid as int,
                level@,
                component@,
                message@,
            ),
    {
        let stamp: String = clock::iso8601(at_ms);
        self.line_stamped(stamp.as_str(), pid, level, component, message)
    }

    /// The line for `message` behind a given time stamp.
    pub fn line_stamped(
        &self,
        stamp: &str,
        pid: u32,
        level: &str,
        component: &str,
        message: &str,
    ) -> (out: String)
        ensures
            out@ == self.line_text(stamp@, pid as int, level@, component@, message@),
    {
        let flat: String = one_line(message);
        let msg: String = cap(flat.as_str(), MAX_RECORD);
        let mut out: String = stamp.to_owned();
        out.append(" ");
        out.append(level);
        out.append(" ");
        out.append(component);
        out.append(" pid=");
        let p: String = text::number(pid as u64);
        out.append(p.as_str());
        out.append(" session=");
        match &self.session_id {
            Some(sid) => out.append(sid.as_str()),
            None => out.append("-"),
        }
        out.append(" ");
        out.append(msg.as_str());
        out.append("\n");
        out
    }

    /// Where lines go: a thread's key first, then a session, then the global log.
    pub fn path(&self) -> (p: LogPath)
        ensures
            match (self.thread_key, self.session_id) {
                (Some(k), _) => p is ByThread && p->ByThread_0@ == sanitized(k@),
                (None, Some(sid)) => p is Session && p->Session_0@ == sid@,
                (None, None) => p is Global,
            },
    {
        match self.sanitized_key() {
            Some(k) => LogPath::ByThread(k),
            None => match &self.session_id {
                Some(sid) => LogPath::Session(sid.clone()),
                None => LogPath::Global,
            },
        }
    }

    /// The thread's key, safe for a directory's name.
    pub fn sanitized_key(&self) -> (r: Option<String>)
        ensures
            text::opt_view(r) == match self.thread_key {
                Some(k) => Some(sanitized(k@)),
                None => None,
            },
    {
        match &self.thread_key {
            Some(k) => {
                let a: String = text::replace_char(k.as_str(), ':', '-');
                Some(text::replace_char(a.as_str(), '.', '-'))
            },
            None => None,
        }
    }

    /// The line at level `info`.
    pub fn info(&self, at_ms: u64, pid: u32, component: &str, message: &str) -> (out: String)
        ensures
            out@ == self.line_text(
                if clock::instant_covered(at_ms as i64 as int) {
                    clock::stamp(at_ms as i64 as int)
                } else {
                    clock::stamp(0)
                },
                pid as int,
                "info"@,
                component@,
                message@,
            ),
    {
        self.line(at_ms, pid, "info", component, message)
    }

    /// The line at level `debug`.
    pub fn debug(&self, at_ms: u64, pid: u32, component: &str, message: &str) -> (out: String)
        ensures
            out@ == self.line_text(
                if clock::instant_covered(at_ms as i64 as int) {
                    clock::stamp(at_ms as i64 as int)
                } else {
                    clock::stamp(0)
                },
                pid as int,
                "debug"@,
                component@,
                message@,
            ),
    {
        self.line(at_ms, pid, "debug", component, message)
    }

    /// The line at level `error`.
    pub fn error(&self, at_ms: u64, pid: u32, component: &str, message: &str) -> (out: String)
        ensures
            out@ == self.line_text(
                if clock::instant_covered(at_ms as i64 as int) {
                    clock::stamp(at_ms as i64 as int)
                } else {
                    clock::stamp(0)
                },
                pid as int,
                "error"@,
                component@,
                message@,
            ),
    {
        self.line(at_ms, pid, "error", component, message)
    }
}

/// Whether a log file of `len` bytes is moved aside.
pub fn is_full(len: u64) -> (r: bool)
    ensures
        r == (len > MAX_LOG_BYTES),
{
    len > MAX_LOG_BYTES
}

/// The extension of the kept log: `.1` behind the file's own.
pub fn kept_extension(ext: Option<&str>) -> (out: String)
    ensures
        out@ == match ext {
            Some(e) => e@ + ".1"@,
            None => "1"@,
        },
{
    match ext {
        Some(e) => text::cat(e, ".1"),
        None => "1".to_owned(),
    }
}

} // verus!
