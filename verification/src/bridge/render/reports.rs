//! Answers to commands: sessions, directories, context, use, compaction and restart.
use crate::clock::{self, WallClock};
use crate::i18n::Lang;
use crate::product::{Product, ProductView};
use crate::text;
use vstd::prelude::*;

verus! {

/// Lines as one text.
pub open spec fn as_lines(lines: Seq<Seq<char>>) -> Seq<char> {
    text::joined(lines, "\n"@)
}

fn join_lines(lines: &Vec<String>) -> (out: String)
    ensures
        out@ == as_lines(text::views(lines@)),
{
    text::join(lines.as_slice(), "\n")
}

/// A text that is there and not empty.
pub open spec fn filled_in(s: Option<Seq<char>>) -> Option<Seq<char>> {
    match s {
        Some(t) => if t.len() > 0 {
            Some(t)
        } else {
            None
        },
        None => None,
    }
}

/// A text that is there and not empty.
pub fn non_empty(s: &Option<String>) -> (r: Option<&String>)
    ensures
        match r {
            Some(t) => filled_in(text::opt_view(*s)) == Some(t@),
            None => filled_in(text::opt_view(*s)) is None,
        },
{
    match s {
        Some(t) => if t.as_str().is_empty() {
            None
        } else {
            Some(t)
        },
        None => None,
    }
}

// ── resume ──────────────────────────────────────────────────────────────────

/// What is known of a session that might go on in a terminal.
#[derive(Debug)]
pub struct ResumeInfo {
    pub session_id: Option<String>,
    /// Where its history lies.
    pub cwd: Option<String>,
    /// Its history was not found.
    pub transcript_missing: bool,
    /// Its agent runs, and is stopped.
    pub worker_running: bool,
}

/// The command that takes a session up.
pub open spec fn resume_command(
    sid: Seq<char>,
    cwd: Option<Seq<char>>,
    command: Seq<char>,
) -> Seq<char> {
    match filled_in(cwd) {
        Some(c) => "cd "@ + c + " && "@ + command + " --resume "@ + sid,
        None => command + " --resume "@ + sid,
    }
}

/// The answer where a session can go on.
pub open spec fn resume_lines(
    sid: Seq<char>,
    cwd: Option<Seq<char>>,
    missing: bool,
    running: bool,
    command: Seq<char>,
    lang: Lang,
) -> Seq<Seq<char>> {
    let head = seq![
        lang.of(
            "Run this to continue the session in your own terminal:"@,
            "手元の端末でセッションを続けるには、次を実行してください。"@,
        ),
        ""@,
        "```"@,
        resume_command(sid, cwd, command),
        "```"@,
    ];
    let a = if missing {
        head.push(""@).push(
            lang.of(
                "⚠️ This session's history isn't on disk, so resuming may fail."@,
                "⚠️ このセッションの履歴がディスクに見つからないので、再開できないかもしれません。"@,
            ),
        )
    } else {
        head
    };
    if running {
        a.push(""@).push(
            lang.of(
                "The agent for this thread has been stopped so the session can continue there."@,
                "続きを手元で進められるよう、このスレッドのエージェントは止めました。"@,
            ),
        )
    } else {
        a
    }
}

impl ResumeInfo {
    /// The answer.
    pub open spec fn said(&self, p: ProductView, lang: Lang) -> Seq<char> {
        match filled_in(text::opt_view(self.session_id)) {
            None => lang.of(
                "This thread has no session to resume yet. Send a message to start one first."@,
                "このスレッドには、まだ再開できるセッションがありません。先にメッセージを送ってセッションを始めてください。"@,
            ),
            Some(sid) => as_lines(
                resume_lines(
                    sid,
                    text::opt_view(self.cwd),
                    self.transcript_missing,
                    self.worker_running,
                    p.command,
                    lang,
                ),
            ),
        }
    }

    /// The answer to `resume`.
    pub fn render(&self, product: &Product, lang: Lang) -> (out: String)
        ensures
            out@ == self.said(product@, lang),
    {
        broadcast use text::lemma_views_push, text::lemma_views_empty;

        let sid: &String = match non_empty(&self.session_id) {
            None => {
                return lang.pick(
                    "This thread has no session to resume yet. Send a message to start one first.",
                    "このスレッドには、まだ再開できるセッションがありません。先にメッセージを送ってセッションを始めてください。",
                ).to_owned();
            },
            Some(s) => s,
        };
        let cmd: String = match non_empty(&self.cwd) {
            Some(cwd) => {
                let mut cmd: String = text::cat4(
                    "cd ",
                    cwd.as_str(),
                    " && ",
                    product.command.as_str(),
                );
                cmd.append(" --resume ");
                cmd.append(sid.as_str());
                cmd
            },
            None => text::cat3(product.command.as_str(), " --resume ", sid.as_str()),
        };
        let mut lines: Vec<String> = Vec::new();
        lines.push(
            lang.pick(
                "Run this to continue the session in your own terminal:",
                "手元の端末でセッションを続けるには、次を実行してください。",
            ).to_owned(),
        );
        lines.push("".to_owned());
        lines.push("```".to_owned());
        lines.push(cmd);
        lines.push("```".to_owned());
        proof {
            assert(text::views(lines@) =~= resume_lines(
                sid@,
                text::opt_view(self.cwd),
                false,
                false,
                product.command@,
                lang,
            ));
        }
        if self.transcript_missing {
            lines.push("".to_owned());
            lines.push(
                lang.pick(
                    "⚠️ This session's history isn't on disk, so resuming may fail.",
                    "⚠️ このセッションの履歴がディスクに見つからないので、再開できないかもしれません。",
                ).to_owned(),
            );
        }
        if self.worker_running {
            lines.push("".to_owned());
            lines.push(
                lang.pick(
                    "The agent for this thread has been stopped so the session can continue there.",
                    "続きを手元で進められるよう、このスレッドのエージェントは止めました。",
                ).to_owned(),
            );
        }
        join_lines(&lines)
    }
}

// ── directories ─────────────────────────────────────────────────────────────

/// Where a channel's work is done.
#[derive(Debug)]
pub struct PwdEntry {
    pub channel_id: String,
    pub repo_path: String,
    pub label: Option<String>,
    /// It is the default directory, for want of another.
    pub is_fallback: bool,
}

impl PwdEntry {
    /// The label in brackets.
    pub open spec fn labelled(&self) -> Seq<char> {
        match filled_in(text::opt_view(self.label)) {
            Some(l) => "（"@ + l + "）"@,
            None => ""@,
        }
    }

    /// The answer for one channel.
    pub open spec fn said(&self, heading: Seq<char>, lang: Lang) -> Seq<char> {
        "● "@ + heading + "\n<#"@ + self.channel_id@ + ">"@ + self.labelled() + (
        if self.is_fallback {
            lang.of(
                " — not set; using the default directory"@,
                " — 未設定のため既定のディレクトリ"@,
            )
        } else {
            ""@
        }) + "\n  `"@ + self.repo_path@ + "`"@
    }

    /// The line of one channel among all.
    pub open spec fn row(&self) -> Seq<char> {
        "  • <#"@ + self.channel_id@ + ">"@ + self.labelled() + " → `"@ + self.repo_path@ + "`"@
    }

    fn label_text(&self) -> (out: String)
        ensures
            out@ == self.labelled(),
    {
        match non_empty(&self.label) {
            Some(l) => text::cat3("（", l.as_str(), "）"),
            None => "".to_owned(),
        }
    }

    /// The answer to `pwd` for one channel.
    pub fn render(&self, heading: &str, lang: Lang) -> (out: String)
        ensures
            out@ == self.said(heading@, lang),
    {
        let label: String = self.label_text();
        let mut out: String = text::cat("● ", heading);
        out.append("\n<#");
        out.append(self.channel_id.as_str());
        out.append(">");
        out.append(label.as_str());
        let note: &str = if self.is_fallback {
            lang.pick(
                " — not set; using the default directory",
                " — 未設定のため既定のディレクトリ",
            )
        } else {
            ""
        };
        out.append(note);
        out.append("\n  `");
        out.append(self.repo_path.as_str());
        out.append("`");
        out
    }

    fn render_row(&self) -> (out: String)
        ensures
            out@ == self.row(),
    {
        let label: String = self.label_text();
        let mut out: String = text::cat3("  • <#", self.channel_id.as_str(), ">");
        out.append(label.as_str());
        out.append(" → `");
        out.append(self.repo_path.as_str());
        out.append("`");
        out
    }

    /// The answer to `pwd all`: every channel that has a directory, and the default.
    pub fn render_all(entries: &[PwdEntry], home: &str, lang: Lang) -> (out: String)
        ensures
            out@ == as_lines(pwd_lines(entries@, home@, lang)),
    {
        broadcast use text::lemma_views_push, text::lemma_views_empty;

        let mut lines: Vec<String> = Vec::new();
        lines.push(
            lang.pick(
                "● Project directories by channel",
                "● チャンネルごとの作業ディレクトリ",
            ).to_owned(),
        );
        let ghost head = text::views(lines@);
        let ghost rows = pwd_rows(entries@);
        if entries.len() == 0 {
            lines.push(lang.pick("  • None set.", "  • まだ設定していません。").to_owned());
        } else {
            let mut i: usize = 0;
            proof {
                assert(head + rows.take(0) =~= head);
            }
            while i < entries.len()
                invariant
                    i <= entries@.len(),
                    rows == pwd_rows(entries@),
                    text::views(lines@) =~= head + rows.take(i as int),
                decreases entries@.len() - i,
            {
                broadcast use text::lemma_views_push;

                lines.push(entries[i].render_row());
                proof {
                    assert(rows.take(i + 1) =~= rows.take(i as int).push(rows[i as int]));
                }
                i = i + 1;
            }
            proof {
                assert(rows.take(rows.len() as int) =~= rows);
            }
        }
        lines.push("".to_owned());
        lines.push(
            text::cat3(
                lang.pick(
                    "_Channels without one, and DMs, use `",
                    "_設定していないチャンネルと DM は `",
                ),
                home,
                lang.pick("`_", "` を使います_"),
            ),
        );
        proof {
            assert(text::views(lines@) =~= pwd_lines(entries@, home@, lang));
        }
        join_lines(&lines)
    }
}

pub open spec fn pwd_rows(entries: Seq<PwdEntry>) -> Seq<Seq<char>> {
    entries.map_values(|e: PwdEntry| e.row())
}

/// The lines of the answer for all channels.
pub open spec fn pwd_lines(entries: Seq<PwdEntry>, home: Seq<char>, lang: Lang) -> Seq<Seq<char>> {
    seq![
        lang.of(
            "● Project directories by channel"@,
            "● チャンネルごとの作業ディレクトリ"@,
        ),
    ] + (if entries.len() == 0 {
        seq![lang.of("  • None set."@, "  • まだ設定していません。"@)]
    } else {
        pwd_rows(entries)
    }) + seq![
        ""@,
        lang.of(
            "_Channels without one, and DMs, use `"@,
            "_設定していないチャンネルと DM は `"@,
        ) + home + lang.of("`_"@, "` を使います_"@),
    ]
}

// ── bars ────────────────────────────────────────────────────────────────────

/// A character over and over.
pub open spec fn repeated(c: char, n: nat) -> Seq<char> {
    Seq::new(n, |i: int| c)
}

/// A bar of `width` cells of which `filled` are full.
pub open spec fn bar_of(filled: nat, width: nat) -> Seq<char> {
    let f = if filled < width {
        filled
    } else {
        width
    };
    repeated('█', f) + repeated('░', (width - f) as nat)
}

fn repeat(c: char, n: usize) -> (out: String)
    ensures
        out@ == repeated(c, n as nat),
{
    let mut out: String = String::new();
    let mut i: usize = 0;
    while i < n
        invariant
            i <= n,
            out@ =~= repeated(c, i as nat),
        decreases n - i,
    {
        out.push(c);
        i = i + 1;
    }
    out
}

/// A bar of `width` cells of which `filled` are full.
pub fn bar(filled: usize, width: usize) -> (out: String)
    ensures
        out@ == bar_of(filled as nat, width as nat),
{
    let f: usize = if filled < width {
        filled
    } else {
        width
    };
    let full: String = repeat('█', f);
    let rest: String = repeat('░', width - f);
    text::cat(full.as_str(), rest.as_str())
}

/// How wide bars are, and how wide the light that runs over one.
pub const CELLS: usize = 24;

pub const WINDOW: usize = 5;

/// The cells of a bar that are full at a share in percent, to the nearest cell.
pub open spec fn cells_at(pct: int) -> int {
    (pct * CELLS + 50) / 100
}

// ── compaction ──────────────────────────────────────────────────────────────

/// How far a compaction is.
#[derive(Debug)]
pub struct CompactProgress {
    pub active: bool,
    pub seconds: Option<u64>,
    pub tokens: Option<String>,
    /// The arrow in front of the tokens.
    pub tokens_dir: Option<char>,
    pub percent: Option<u32>,
}

/// The time a compaction has taken.
pub open spec fn elapsed_text(seconds: Option<u64>) -> Seq<char> {
    match seconds {
        None => ""@,
        Some(s) => if s >= 60 {
            " "@ + text::decimal(s as int / 60) + "m"@ + text::decimal(s as int % 60) + "s"@
        } else {
            " "@ + text::decimal(s as int) + "s"@
        },
    }
}

/// A bar over which a light runs, one cell each second.
pub open spec fn running_bar(seconds: int) -> Seq<char> {
    Seq::new(
        CELLS as nat,
        |i: int|
            if (i + CELLS - seconds % (CELLS as int)) % (CELLS as int) < WINDOW {
                '█'
            } else {
                '░'
            },
    )
}

impl CompactProgress {
    /// The tokens that were read, with their arrow.
    pub open spec fn tokens_text(&self) -> Seq<char> {
        match self.tokens {
            Some(t) => " · "@ + (match self.tokens_dir {
                Some(c) => seq![c],
                None => ""@,
            }) + t@ + " tokens"@,
            None => ""@,
        }
    }

    /// The line of progress: with a share, a bar that is full so far; without one, the tokens and a
    /// bar with a running light.
    pub open spec fn said(&self, lang: Lang) -> Seq<char> {
        let head = lang.of("🗜️ Compacting the context…"@, "🗜️ コンテキストを圧縮中…"@)
            + elapsed_text(self.seconds);
        match self.percent {
            Some(p) => {
                let pct = if p < 100 {
                    p as int
                } else {
                    100
                };
                head + "\n`"@ + bar_of(cells_at(pct) as nat, CELLS as nat) + "` "@ + text::decimal(
                    pct,
                ) + "%"@
            },
            None => head + self.tokens_text() + "\n`"@ + running_bar(
                match self.seconds {
                    Some(s) => s as int,
                    None => 0,
                },
            ) + "`"@,
        }
    }

    fn elapsed(&self) -> (out: String)
        ensures
            out@ == elapsed_text(self.seconds),
    {
        match self.seconds {
            None => "".to_owned(),
            Some(s) => if s >= 60 {
                let m: String = text::number(s / 60);
                let r: String = text::number(s % 60);
                text::cat5(" ", m.as_str(), "m", r.as_str(), "s")
            } else {
                let n: String = text::number(s);
                text::cat3(" ", n.as_str(), "s")
            },
        }
    }

    fn token_text(&self) -> (out: String)
        ensures
            out@ == self.tokens_text(),
    {
        match &self.tokens {
            Some(t) => {
                let mut arrow: String = "".to_owned();
                match self.tokens_dir {
                    Some(c) => {
                        arrow.push(c);
                        proof {
                            reveal_strlit("");
                            assert(arrow@ =~= seq![c]);
                        }
                    },
                    None => {},
                }
                text::cat4(" · ", arrow.as_str(), t.as_str(), " tokens")
            },
            None => "".to_owned(),
        }
    }

    fn light(&self) -> (out: String)
        ensures
            out@ == running_bar(
                match self.seconds {
                    Some(s) => s as int,
                    None => 0,
                },
            ),
    {
        let s: u64 = match self.seconds {
            Some(s) => s,
            None => 0,
        };
        let pos: usize = (s % 24) as usize;
        let mut out: String = String::new();
        let mut i: usize = 0;
        while i < CELLS
            invariant
                i <= CELLS,
                pos == s as int % (CELLS as int),
                out@ =~= running_bar(s as int).take(i as int),
            decreases CELLS - i,
        {
            let c: char = if (i + CELLS - pos) % CELLS < WINDOW {
                '█'
            } else {
                '░'
            };
            out.push(c);
            proof {
                assert(running_bar(s as int)[i as int] == c);
            }
            i = i + 1;
        }
        proof {
            assert(running_bar(s as int).take(CELLS as int) =~= running_bar(s as int));
        }
        out
    }

    /// The line of progress.
    pub fn render(&self, lang: Lang) -> (out: String)
        ensures
            out@ == self.said(lang),
    {
        let elapsed: String = self.elapsed();
        let mut out: String = text::cat(
            lang.pick("🗜️ Compacting the context…", "🗜️ コンテキストを圧縮中…"),
            elapsed.as_str(),
        );
        match self.percent {
            Some(p) => {
                let pct: u32 = if p < 100 {
                    p
                } else {
                    100
                };
                let filled: usize = ((pct * 24 + 50) / 100) as usize;
                let b: String = bar(filled, CELLS);
                out.append("\n`");
                out.append(b.as_str());
                out.append("` ");
                let n: String = text::number(pct as u64);
                out.append(n.as_str());
                out.append("%");
            },
            None => {
                let tok: String = self.token_text();
                let b: String = self.light();
                out.append(tok.as_str());
                out.append("\n`");
                out.append(b.as_str());
                out.append("`");
            },
        }
        out
    }
}

// ── restart ─────────────────────────────────────────────────────────────────

/// How far a restart is.
#[derive(Clone, Copy, Debug, PartialEq, Eq, Structural)]
pub enum RestartPhase {
    Received,
    /// The process stops.
    Switching,
    /// Its successor is connected.
    Online,
    Done,
    Failed,
}

/// A step of a restart.
pub open spec fn step_said(i: int, lang: Lang) -> Seq<char> {
    if i == 0 {
        lang.of("Restart requested"@, "再起動を受け付けました"@)
    } else if i == 1 {
        lang.of("Stopping agentgw"@, "agentgw を止めています"@)
    } else {
        lang.of("agentgw is back online"@, "agentgw がオンラインに戻りました"@)
    }
}

impl RestartPhase {
    /// How many steps are done.
    pub open spec fn done_count(self) -> int {
        match self {
            RestartPhase::Received => 1,
            RestartPhase::Switching => 2,
            RestartPhase::Online => 3,
            RestartPhase::Done => 3,
            RestartPhase::Failed => 0,
        }
    }

    /// The line of one step: done, under way, failed, or to come.
    pub open spec fn step_line(self, failed: bool, i: int, lang: Lang) -> Seq<char> {
        if i < self.done_count() {
            "• "@ + step_said(i, lang)
        } else if i == self.done_count() && self != RestartPhase::Done {
            if failed {
                "💥 "@ + step_said(i, lang)
            } else {
                "◌ "@ + step_said(i, lang) + "…"@
            }
        } else {
            "◌ "@ + step_said(i, lang)
        }
    }

    /// The list of steps, and how it ended.
    pub open spec fn checklist(self, reason: Option<Seq<char>>, lang: Lang) -> Seq<Seq<char>> {
        let failed = self == RestartPhase::Failed || reason is Some;
        let steps = seq![
            self.step_line(failed, 0, lang),
            self.step_line(failed, 1, lang),
            self.step_line(failed, 2, lang),
        ];
        if self == RestartPhase::Done {
            steps.push(lang.of("✅ Restart complete"@, "✅ 再起動が完了しました"@))
        } else if failed {
            steps.push(
                lang.of("💥 Restart failed"@, "💥 再起動に失敗しました"@) + match reason {
                    Some(r) => " — "@ + r,
                    None => ""@,
                },
            )
        } else {
            steps
        }
    }

    fn done(self) -> (n: usize)
        ensures
            n == self.done_count(),
    {
        match self {
            RestartPhase::Received => 1,
            RestartPhase::Switching => 2,
            RestartPhase::Online => 3,
            RestartPhase::Done => 3,
            RestartPhase::Failed => 0,
        }
    }

    fn step(self, failed: bool, i: usize, lang: Lang) -> (out: String)
        ensures
            out@ == self.step_line(failed, i as int, lang),
    {
        let label: &str = if i == 0 {
            lang.pick("Restart requested", "再起動を受け付けました")
        } else if i == 1 {
            lang.pick("Stopping agentgw", "agentgw を止めています")
        } else {
            lang.pick("agentgw is back online", "agentgw がオンラインに戻りました")
        };
        if i < self.done() {
            text::cat("• ", label)
        } else if i == self.done() && self != RestartPhase::Done {
            if failed {
                text::cat("💥 ", label)
            } else {
                text::cat3("◌ ", label, "…")
            }
        } else {
            text::cat("◌ ", label)
        }
    }

    /// The list of steps, drawn from how far the restart is: the process that stops and the one that
    /// follows draw the same.
    pub fn render(&self, failed_reason: Option<&str>, lang: Lang) -> (out: String)
        ensures
            out@ == as_lines(
                self.checklist(
                    match failed_reason {
                        Some(r) => Some(r@),
                        None => None,
                    },
                    lang,
                ),
            ),
    {
        broadcast use text::lemma_views_push, text::lemma_views_empty;

        let failed: bool = *self == RestartPhase::Failed || failed_reason.is_some();
        let mut lines: Vec<String> = Vec::new();
        lines.push(self.step(failed, 0, lang));
        lines.push(self.step(failed, 1, lang));
        lines.push(self.step(failed, 2, lang));
        if *self == RestartPhase::Done {
            lines.push(lang.pick("✅ Restart complete", "✅ 再起動が完了しました").to_owned());
        } else if failed {
            let why: String = match failed_reason {
                Some(r) => text::cat(" — ", r),
                None => "".to_owned(),
            };
            lines.push(
                text::cat(
                    lang.pick("💥 Restart failed", "💥 再起動に失敗しました"),
                    why.as_str(),
                ),
            );
        }
        proof {
            let reason = match failed_reason {
                Some(r) => Some(r@),
                None => None,
            };
            assert(text::views(lines@) =~= self.checklist(reason, lang));
        }
        join_lines(&lines)
    }
}

// ── context ─────────────────────────────────────────────────────────────────

/// What an agent's context holds.
#[derive(Debug)]
pub struct ContextReport {
    pub used: String,
    pub total: String,
    /// Name, tokens and share of each kind.
    pub categories: Vec<(String, String, String)>,
}

/// The share of the context that is used, as it is shown.
#[derive(Debug)]
pub struct UsedShare {
    /// How many cells of the bar are full.
    pub filled: usize,
    /// The share to the nearest percent.
    pub percent: i64,
    /// The share as it stands in the table.
    pub row: String,
}

/// What an entry of a context report holds.
pub struct CategoryView {
    pub name: Seq<char>,
    pub tokens: Seq<char>,
    pub share: Seq<char>,
}

pub open spec fn category_views(v: Seq<(String, String, String)>) -> Seq<CategoryView> {
    v.map_values(
        |c: (String, String, String)| CategoryView { name: c.0@, tokens: c.1@, share: c.2@ },
    )
}

/// The kinds that use the context: all but the free space.
pub open spec fn consumers(v: Seq<CategoryView>) -> Seq<CategoryView>
    decreases v.len(),
{
    if v.len() == 0 {
        v
    } else {
        let rest = consumers(v.drop_last());
        if text::lowered(v.last().name) == "free space"@ {
            rest
        } else {
            rest.push(v.last())
        }
    }
}

/// The share of the first kind that is the free space.
pub open spec fn share_of_free(v: Seq<CategoryView>) -> Option<Seq<char>>
    decreases v.len(),
{
    if v.len() == 0 {
        None
    } else {
        match share_of_free(v.drop_last()) {
            Some(s) => Some(s),
            None => if text::lowered(v.last().name) == "free space"@ {
                Some(v.last().share)
            } else {
                None
            },
        }
    }
}

/// A sign, digits and one point, in the place `i` of a number.
pub open spec fn goes_on(t: Seq<char>, i: int, seen_dot: bool) -> bool {
    (i == 0 && (t[i] == '+' || t[i] == '-')) || (t[i] == '.' && !seen_dot) || '0' <= t[i] <= '9'
}

/// Where the number that is read from the front of a text ends, from a place in it on.
pub open spec fn number_end(t: Seq<char>, i: int, seen_dot: bool) -> int
    decreases t.len() - i,
{
    if 0 <= i < t.len() && goes_on(t, i, seen_dot) {
        number_end(t, i + 1, seen_dot || t[i] == '.')
    } else {
        i
    }
}

/// The number at the front of a text, without the blanks before it: a sign, digits and one point.
pub fn leading_number(s: &str) -> (out: String)
    ensures
        ({
            let t = text::trimmed_start(s@);
            out@ == t.take(number_end(t, 0, false))
        }),
{
    let bare: String = text::trim_start(s);
    let t: Vec<char> = text::chars_of(bare.as_str());
    let mut seen_dot: bool = false;
    let mut i: usize = 0;
    while i < t.len() && ((i == 0 && (t[i] == '+' || t[i] == '-')) || (t[i] == '.' && !seen_dot) || (
    '0' <= t[i] && t[i] <= '9'))
        invariant
            i <= t@.len(),
            number_end(t@, i as int, seen_dot) == number_end(t@, 0, false),
        decreases t@.len() - i,
    {
        if t[i] == '.' {
            seen_dot = true;
        }
        i = i + 1;
    }
    proof {
        assert(t@.subrange(0, i as int) =~= t@.take(i as int));
    }
    text::text_of(&t, 0, i)
}

pub open spec fn larger(a: nat, b: nat) -> nat {
    if a < b {
        b
    } else {
        a
    }
}

/// A column of the table.
#[derive(Clone, Copy, Debug, PartialEq, Eq, Structural)]
pub enum Column {
    Name,
    Tokens,
    Share,
}

pub open spec fn cell(c: CategoryView, col: Column) -> Seq<char> {
    match col {
        Column::Name => c.name,
        Column::Tokens => c.tokens,
        Column::Share => c.share,
    }
}

/// How wide a column is: as its widest cell, and as its least.
pub open spec fn width_of(v: Seq<CategoryView>, col: Column, least: nat) -> nat
    decreases v.len(),
{
    if v.len() == 0 {
        least
    } else {
        larger(width_of(v.drop_last(), col, least), cell(v.last(), col).len())
    }
}

/// A text with blanks behind it, or before it, up to a width.
pub open spec fn pad_end(s: Seq<char>, w: nat) -> Seq<char> {
    s + repeated(' ', if w > s.len() {
        (w - s.len()) as nat
    } else {
        0
    })
}

pub open spec fn pad_start(s: Seq<char>, w: nat) -> Seq<char> {
    repeated(' ', if w > s.len() {
        (w - s.len()) as nat
    } else {
        0
    }) + s
}

/// The widths of the table's columns.
pub struct Widths {
    pub name: nat,
    pub tokens: nat,
    pub share: nat,
}

pub open spec fn table_row(n: Seq<char>, t: Seq<char>, p: Seq<char>, w: Widths) -> Seq<char> {
    pad_end(n, w.name) + "  "@ + pad_start(t, w.tokens) + "  "@ + pad_start(p, w.share)
}

pub open spec fn table_rows(v: Seq<CategoryView>, w: Widths) -> Seq<Seq<char>> {
    v.map_values(|c: CategoryView| table_row(c.name, c.tokens, c.share, w))
}

impl ContextReport {
    /// The widths of the columns: of the kinds that use the context, of the sum, and of the heads.
    pub open spec fn widths(&self, share: Seq<char>) -> Widths {
        let v = consumers(category_views(self.categories@));
        Widths {
            name: width_of(v, Column::Name, 10),
            tokens: width_of(v, Column::Tokens, larger(6, self.used@.len())),
            share: width_of(v, Column::Share, larger(5, share.len())),
        }
    }

    /// The table: the kinds that use the context, and their sum.
    pub open spec fn table(&self, share: Seq<char>) -> Seq<Seq<char>> {
        let w = self.widths(share);
        let line = repeated('─', w.name + w.tokens + w.share + 4);
        seq!["```"@, table_row("Category"@, "Tokens"@, "%"@, w), line] + table_rows(
            consumers(category_views(self.categories@)),
            w,
        ) + seq![line, table_row("Used space"@, self.used@, share, w), "```"@]
    }

    /// The report: the model, a bar and the table.
    pub open spec fn said(&self, model: Seq<char>, used: UsedShare) -> Seq<char> {
        as_lines(
            seq![
                "📊 *Context Usage*"@,
                model,
                "`"@ + bar_of(used.filled as nat, CELLS as nat) + "`  "@ + self.used@ + " / "@
                    + self.total@ + " ( "@ + signed(used.percent as int) + "% used )"@,
                as_lines(self.table(used.row@)),
            ],
        )
    }

    /// The share of the context that is free, as it was printed: that of the first kind of this name.
    pub fn free_share(&self) -> (r: Option<String>)
        ensures
            text::opt_view(r) == share_of_free(category_views(self.categories@)),
    {
        let ghost v = category_views(self.categories@);
        let mut found: Option<String> = None;
        let mut i: usize = 0;
        proof {
            assert(v.take(0) =~= Seq::empty());
        }
        while i < self.categories.len()
            invariant
                i <= self.categories@.len(),
                v == category_views(self.categories@),
                text::opt_view(found) == share_of_free(v.take(i as int)),
            decreases self.categories@.len() - i,
        {
            let c: &(String, String, String) = &self.categories[i];
            let lower: String = text::ascii_lower(c.0.as_str());
            proof {
                assert(v.take(i + 1).drop_last() =~= v.take(i as int));
                assert(v.take(i + 1).last() == v[i as int]);
            }
            if found.is_none() && text::same(lower.as_str(), "free space") {
                found = Some(c.2.clone());
            }
            i = i + 1;
        }
        proof {
            assert(v.take(v.len() as int) =~= v);
        }
        found
    }

    fn consuming(&self) -> (out: Vec<(String, String, String)>)
        ensures
            category_views(out@) == consumers(category_views(self.categories@)),
    {
        let ghost v = category_views(self.categories@);
        let mut out: Vec<(String, String, String)> = Vec::new();
        let mut i: usize = 0;
        proof {
            assert(v.take(0) =~= Seq::empty());
            assert(category_views(out@) =~= Seq::empty());
        }
        while i < self.categories.len()
            invariant
                i <= self.categories@.len(),
                v == category_views(self.categories@),
                category_views(out@) == consumers(v.take(i as int)),
            decreases self.categories@.len() - i,
        {
            let c: &(String, String, String) = &self.categories[i];
            let lower: String = text::ascii_lower(c.0.as_str());
            proof {
                assert(v.take(i + 1).drop_last() =~= v.take(i as int));
                assert(v[i as int].name == c.0@);
            }
            if !text::same(lower.as_str(), "free space") {
                let ghost before = out@;
                out.push((c.0.clone(), c.1.clone(), c.2.clone()));
                proof {
                    assert(category_views(out@) =~= category_views(before).push(v[i as int]));
                }
            }
            i = i + 1;
        }
        proof {
            assert(v.take(v.len() as int) =~= v);
        }
        out
    }

    /// The report, given the model's name and the share that is used.
    pub fn render(&self, model: &str, used: &UsedShare) -> (out: String)
        requires
            self.widths(used.row@).name + self.widths(used.row@).tokens + self.widths(
                used.row@,
            ).share + 4 <= usize::MAX,
        ensures
            out@ == self.said(model@, *used),
    {
        broadcast use text::lemma_views_push, text::lemma_views_empty;

        let rows: Vec<(String, String, String)> = self.consuming();
        let ghost w = self.widths(used.row@);
        let ghost v = category_views(rows@);
        let own_tokens: usize = count(self.used.as_str());
        let own_share: usize = count(used.row.as_str());
        let name_w: usize = column_width(&rows, Column::Name, 10);
        let tok_w: usize = column_width(
            &rows,
            Column::Tokens,
            if 6 < own_tokens {
                own_tokens
            } else {
                6
            },
        );
        let pct_w: usize = column_width(
            &rows,
            Column::Share,
            if 5 < own_share {
                own_share
            } else {
                5
            },
        );
        let line: String = repeat('─', name_w + tok_w + pct_w + 4);
        let mut body: Vec<String> = Vec::new();
        body.push("```".to_owned());
        body.push(line_of("Category", "Tokens", "%", name_w, tok_w, pct_w));
        body.push(line.clone());
        let ghost head = text::views(body@);
        let ghost all = table_rows(v, w);
        let mut i: usize = 0;
        proof {
            assert(head + all.take(0) =~= head);
        }
        while i < rows.len()
            invariant
                i <= rows@.len() == all.len(),
                v == category_views(rows@),
                all == table_rows(v, w),
                w.name == name_w,
                w.tokens == tok_w,
                w.share == pct_w,
                text::views(body@) =~= head + all.take(i as int),
            decreases rows@.len() - i,
        {
            broadcast use text::lemma_views_push;

            body.push(
                line_of(
                    rows[i].0.as_str(),
                    rows[i].1.as_str(),
                    rows[i].2.as_str(),
                    name_w,
                    tok_w,
                    pct_w,
                ),
            );
            proof {
                assert(v[i as int].name == rows@[i as int].0@);
                assert(all.take(i + 1) =~= all.take(i as int).push(all[i as int]));
            }
            i = i + 1;
        }
        proof {
            assert(all.take(all.len() as int) =~= all);
        }
        body.push(line);
        body.push(
            line_of("Used space", self.used.as_str(), used.row.as_str(), name_w, tok_w, pct_w),
        );
        body.push("```".to_owned());
        proof {
            assert(text::views(body@) =~= self.table(used.row@));
        }
        let b: String = bar(used.filled, CELLS);
        let mut share: String = text::cat3("`", b.as_str(), "`  ");
        share.append(self.used.as_str());
        share.append(" / ");
        share.append(self.total.as_str());
        share.append(" ( ");
        let n: String = signed_text(used.percent);
        share.append(n.as_str());
        share.append("% used )");
        let mut lines: Vec<String> = Vec::new();
        lines.push("📊 *Context Usage*".to_owned());
        lines.push(model.to_owned());
        lines.push(share);
        lines.push(join_lines(&body));
        proof {
            assert(text::views(lines@) =~= seq![
                "📊 *Context Usage*"@,
                model@,
                share@,
                as_lines(self.table(used.row@)),
            ]);
        }
        join_lines(&lines)
    }
}

/// A whole number, with its sign where it is below zero.
pub open spec fn signed(n: int) -> Seq<char> {
    if n < 0 {
        "-"@ + text::decimal(-n)
    } else {
        text::decimal(n)
    }
}

fn signed_text(n: i64) -> (out: String)
    ensures
        out@ == signed(n as int),
{
    if n < 0 {
        let d: String = text::number((-(n as i128)) as u64);
        text::cat("-", d.as_str())
    } else {
        text::number(n as u64)
    }
}

fn padded_end(s: &str, w: usize) -> (out: String)
    ensures
        out@ == pad_end(s@, w as nat),
{
    let n: usize = count(s);
    let blanks: String = repeat(
        ' ',
        if w > n {
            w - n
        } else {
            0
        },
    );
    text::cat(s, blanks.as_str())
}

fn padded_start(s: &str, w: usize) -> (out: String)
    ensures
        out@ == pad_start(s@, w as nat),
{
    let n: usize = count(s);
    let blanks: String = repeat(
        ' ',
        if w > n {
            w - n
        } else {
            0
        },
    );
    text::cat(blanks.as_str(), s)
}

fn line_of(n: &str, t: &str, p: &str, name: usize, tokens: usize, share: usize) -> (out: String)
    ensures
        out@ == table_row(
            n@,
            t@,
            p@,
            (Widths { name: name as nat, tokens: tokens as nat, share: share as nat }),
        ),
{
    let a: String = padded_end(n, name);
    let b: String = padded_start(t, tokens);
    let c: String = padded_start(p, share);
    text::cat5(a.as_str(), "  ", b.as_str(), "  ", c.as_str())
}

fn count(s: &str) -> (n: usize)
    ensures
        n == s@.len(),
{
    text::chars_of(s).len()
}

fn column_width(v: &Vec<(String, String, String)>, col: Column, least: usize) -> (n: usize)
    ensures
        n == width_of(category_views(v@), col, least as nat),
{
    let ghost s = category_views(v@);
    let mut n: usize = least;
    let mut i: usize = 0;
    proof {
        assert(s.take(0) =~= Seq::empty());
    }
    while i < v.len()
        invariant
            i <= v@.len(),
            s == category_views(v@),
            n == width_of(s.take(i as int), col, least as nat),
        decreases v@.len() - i,
    {
        proof {
            assert(s.take(i + 1).drop_last() =~= s.take(i as int));
            assert(s.take(i + 1).last() == s[i as int]);
        }
        let k: usize = match col {
            Column::Name => count(v[i].0.as_str()),
            Column::Tokens => count(v[i].1.as_str()),
            Column::Share => count(v[i].2.as_str()),
        };
        if n < k {
            n = k;
        }
        i = i + 1;
    }
    proof {
        assert(s.take(s.len() as int) =~= s);
    }
    n
}

// ── use ─────────────────────────────────────────────────────────────────────

/// One row of the use of the service, as it was read.
#[derive(Debug)]
pub struct UsageRow {
    pub label: String,
    pub pct: String,
    pub reset: String,
}

/// Whether the limit will be reached before it is reset.
#[derive(Clone, Copy, Debug, PartialEq, Eq)]
pub struct UsageProjection {
    /// Without enough data nothing is said.
    pub enough_data: bool,
    pub at_risk: bool,
    pub projected_hit: Option<WallClock>,
}

/// The minutes of a week.
pub const WEEK_MINUTES: i64 = 10_080;

/// How long a period must have run before its use says anything.
pub const MIN_ELAPSED_MINUTES: i64 = 30;

/// The period of a row: of the session, of a week, or none.
pub open spec fn period_of(label: Seq<char>, session_minutes: i64) -> Option<i64> {
    if text::has(text::lowered(label), "current session"@) {
        Some(session_minutes)
    } else if text::has(text::lowered(label), "current week"@) {
        Some(WEEK_MINUTES)
    } else {
        None
    }
}

impl UsageRow {
    /// The period of a row, in minutes; none where it is not projected.
    pub fn window_minutes(label: &str, session_minutes: i64) -> (r: Option<i64>)
        ensures
            r == period_of(label@, session_minutes),
    {
        let l: String = text::ascii_lower(label);
        if text::contains(l.as_str(), "current session") {
            Some(session_minutes)
        } else if text::contains(l.as_str(), "current week") {
            Some(WEEK_MINUTES)
        } else {
            None
        }
    }
}

impl UsageProjection {
    /// Nothing can be said.
    pub fn unknown() -> (p: Self)
        ensures
            p == (UsageProjection { enough_data: false, at_risk: false, projected_hit: None }),
    {
        UsageProjection { enough_data: false, at_risk: false, projected_hit: None }
    }

    /// How long a period has run, in minutes: it ends at the reset. None where the reset is past or it
    /// has not run for long enough.
    pub fn elapsed(reset: &WallClock, now: &WallClock, window_minutes: i64) -> (r: Option<i64>)
        ensures
            ({
                let passed = window_minutes - (reset.minutes() - now.minutes());
                r == if reset.minutes() >= now.minutes() && passed >= MIN_ELAPSED_MINUTES {
                    Some(passed as i64)
                } else {
                    None
                }
            }),
    {
        match WallClock::minutes_to(now, reset) {
            None => None,
            Some(to_reset) => {
                let passed: i128 = window_minutes as i128 - to_reset as i128;
                if passed >= MIN_ELAPSED_MINUTES as i128 {
                    Some(passed as i64)
                } else {
                    None
                }
            },
        }
    }

    /// The limit is reached at a time: is that before the reset?
    pub fn hitting(hit: WallClock, reset: &WallClock) -> (p: Self)
        ensures
            p == (UsageProjection {
                enough_data: true,
                at_risk: reset.minutes() > hit.minutes(),
                projected_hit: Some(hit),
            }),
    {
        let at_risk: bool = match WallClock::minutes_to(&hit, reset) {
            Some(m) => m > 0,
            None => false,
        };
        UsageProjection { enough_data: true, at_risk, projected_hit: Some(hit) }
    }

    /// When the limit is reached, where that is before the reset.
    pub fn warning(&self) -> (r: Option<WallClock>)
        ensures
            r == if self.enough_data && self.at_risk {
                self.projected_hit
            } else {
                None
            },
    {
        if self.enough_data && self.at_risk {
            self.projected_hit
        } else {
            None
        }
    }
}

/// One row of the use of the service, as it is shown.
#[derive(Debug)]
pub struct UsageLine {
    pub row: UsageRow,
    /// How many cells of its bar are full.
    pub filled: usize,
    /// When its limit is reached, where that is before its reset.
    pub hit: Option<WallClock>,
}

impl UsageLine {
    /// The lines of one row.
    pub open spec fn lines(&self) -> Seq<Seq<char>> {
        let head = seq![
            "*"@ + self.row.label@ + "*"@,
            "`"@ + bar_of(self.filled as nat, CELLS as nat) + "` "@ + self.row.pct@ + "% used"@,
        ];
        let a = if self.row.reset@.len() > 0 {
            head.push("Resets "@ + self.row.reset@)
        } else {
            head
        };
        match self.hit {
            Some(w) => a.push("- Expected to reach limit at : "@ + clock::reset_at(w.minutes())),
            None => a,
        }
    }
}

/// The use of the service.
#[derive(Debug)]
pub struct UsageReport {
    pub lines: Vec<UsageLine>,
}

/// The lines of the rows, with an empty one between.
pub open spec fn usage_lines(v: Seq<UsageLine>) -> Seq<Seq<char>>
    decreases v.len(),
{
    if v.len() == 0 {
        Seq::empty()
    } else if v.len() == 1 {
        v[0].lines()
    } else {
        usage_lines(v.drop_last()) + seq![""@] + v.last().lines()
    }
}

/// The lines of the report.
pub open spec fn usage_report(v: Seq<UsageLine>, program: Seq<char>) -> Seq<Seq<char>> {
    let head = "📊 *"@ + program + " Usage*"@;
    if v.len() == 0 {
        seq![head]
    } else {
        seq![head, ""@] + usage_lines(v)
    }
}

fn push_usage(lines: &mut Vec<String>, u: &UsageLine)
    ensures
        text::views(final(lines)@) == text::views(old(lines)@) + u.lines(),
{
    broadcast use text::lemma_views_push;

    let ghost was = text::views(lines@);
    lines.push(text::cat3("*", u.row.label.as_str(), "*"));
    let b: String = bar(u.filled, CELLS);
    lines.push(text::cat5("`", b.as_str(), "` ", u.row.pct.as_str(), "% used"));
    if !u.row.reset.as_str().is_empty() {
        lines.push(text::cat("Resets ", u.row.reset.as_str()));
    }
    match &u.hit {
        Some(w) => {
            let at: String = w.reset_like();
            lines.push(text::cat("- Expected to reach limit at : ", at.as_str()));
        },
        None => {},
    }
    proof {
        assert(text::views(lines@) =~= was + u.lines());
    }
}

impl UsageReport {
    /// The report: each row with its bar, its reset and, where it is near, its limit.
    pub fn render(&self, product: &Product) -> (out: String)
        ensures
            out@ == as_lines(usage_report(self.lines@, product.program@)),
    {
        broadcast use text::lemma_views_push, text::lemma_views_empty;

        let mut lines: Vec<String> = Vec::new();
        lines.push(text::cat3("📊 *", product.program.as_str(), " Usage*"));
        let ghost v = self.lines@;
        let mut i: usize = 0;
        proof {
            assert(v.take(0) =~= Seq::empty());
            assert(text::views(lines@) =~= usage_report(v.take(0), product.program@));
        }
        while i < self.lines.len()
            invariant
                i <= v.len(),
                v == self.lines@,
                text::views(lines@) == usage_report(v.take(i as int), product.program@),
            decreases v.len() - i,
        {
            broadcast use text::lemma_views_push;

            let ghost was = text::views(lines@);
            lines.push("".to_owned());
            push_usage(&mut lines, &self.lines[i]);
            proof {
                assert(v.take(i + 1).drop_last() =~= v.take(i as int));
                assert(v.take(i + 1).last() == v[i as int]);
                assert(text::views(lines@) =~= usage_report(v.take(i + 1), product.program@));
            }
            i = i + 1;
        }
        proof {
            assert(v.take(v.len() as int) =~= v);
        }
        join_lines(&lines)
    }
}

// ── what holds of the reports ───────────────────────────────────────────────

/// A restart that is done shows every step as done, and one that failed shows the step it failed at.
pub proof fn law_restart_shows_where(p: RestartPhase, reason: Option<Seq<char>>, lang: Lang)
    ensures
        forall|i: int|
            0 <= i < 3 ==> #[trigger] RestartPhase::Done.step_line(reason is Some, i, lang)
                == "• "@ + step_said(i, lang),
        p.done_count() < 3 ==> p.step_line(true, p.done_count(), lang) == "💥 "@ + step_said(
            p.done_count(),
            lang,
        ),
{
}

/// A bar has its width, however full it is.
pub proof fn law_bar_width(filled: nat, width: nat)
    ensures
        bar_of(filled, width).len() == width,
{
}

} // verus!
