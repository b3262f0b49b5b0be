//! What the bridge says of its own accord, and its answer to `help`.
use super::reports::as_lines;
use crate::clock::{self, WallClock};
use crate::i18n::Lang;
use crate::product::{Product, ProductView};
use crate::text;
use vstd::prelude::*;

verus! {

/// Something that the bridge says.
#[derive(Debug)]
pub enum Notice {
    /// The list of commands. `fleet` says whether other machines are answered for.
    Help { fleet: bool },
    /// The directory of direct messages cannot be chosen.
    PwdDmSetRefusal,
    /// The account is over its limit until then.
    Limited { until_ms: u64 },
    /// The account nears its limit.
    UsageWarning {
        pct: u32,
        /// When the limit starts over, as `/usage` printed it.
        reset: String,
        /// When the limit is hit if use goes on like this.
        projected_hit: Option<WallClock>,
    },
    /// What was started and taken up again.
    Startup { pools: Vec<String>, pending: u32 },
    /// The bridge is there.
    Online {
        label: String,
        connected_as: String,
        version: String,
        pid: u32,
        pools: Vec<String>,
        pending: u32,
    },
    /// The bridge goes.
    Offline { label: String, version: String, pid: u32, reason: String },
}

// ── help ────────────────────────────────────────────────────────────────────

/// A command and what it does.
pub struct HelpRow {
    pub command: Seq<char>,
    pub does: Seq<char>,
}

impl HelpRow {
    pub open spec fn line(self) -> Seq<char> {
        "  • `"@ + self.command + "` — "@ + self.does
    }
}

/// A part of the list: its title, its commands, and an empty line.
pub open spec fn section(title: Seq<char>, rows: Seq<HelpRow>) -> Seq<Seq<char>> {
    seq!["*"@ + title + "*"@] + rows.map_values(|r: HelpRow| r.line()) + seq![""@]
}

/// What can be said in a thread.
pub open spec fn thread_help(lang: Lang) -> Seq<Seq<char>> {
    section(
        lang.of("In this thread"@, "このスレッドで"@),
        seq![
            HelpRow {
                command: "stop"@,
                does: lang.of(
                    "stop the current turn (a 🛑 reaction works too)"@,
                    "実行中のターンを止める(🛑 のリアクションでも可)"@,
                ),
            },
            HelpRow {
                command: "exit / bye / done"@,
                does: lang.of(
                    "end this thread's agent; your next message resumes it"@,
                    "このスレッドのエージェントを終える。次に書けば再開する"@,
                ),
            },
            HelpRow {
                command: "compact"@,
                does: lang.of(
                    "compact the context, with a progress bar"@,
                    "コンテキストを圧縮する(進捗バー付き)"@,
                ),
            },
            HelpRow {
                command: "model [fable|opus|sonnet|haiku]"@,
                does: lang.of(
                    "show or switch the model"@,
                    "モデルを見る・切り替える"@,
                ),
            },
            HelpRow {
                command: "effort [low|medium|high|xhigh|max|ultracode|auto]"@,
                does: lang.of(
                    "show or set the effort level"@,
                    "effort を見る・決める"@,
                ),
            },
            HelpRow {
                command: "mode [manual|plan|edit|auto]"@,
                does: lang.of(
                    "show or switch the permission mode"@,
                    "権限モードを見る・切り替える"@,
                ),
            },
            HelpRow {
                command: "context / ctx"@,
                does: lang.of(
                    "show this agent's context usage"@,
                    "このエージェントのコンテキストの使用量"@,
                ),
            },
            HelpRow {
                command: "resume"@,
                does: lang.of(
                    "show the command to continue this session in your own terminal (stops the agent here)"@,
                    "このセッションを手元の端末で続けるコマンドを出す(ここのエージェントは止める)"@,
                ),
            },
        ],
    )
}

/// What can be said of the account.
pub open spec fn account_help(p: ProductView, lang: Lang) -> Seq<Seq<char>> {
    section(
        lang.of("Account"@, "アカウント"@),
        seq![
            HelpRow {
                command: "login"@,
                does: lang.of("sign "@, ""@) + p.program + lang.of(
                    " in to your account (in a DM)"@,
                    " を自分のアカウントでサインインする(DM で)"@,
                ),
            },
            HelpRow {
                command: "logout"@,
                does: lang.of(
                    "sign out and stop every agent"@,
                    "サインアウトして、すべてのエージェントを止める"@,
                ),
            },
            HelpRow {
                command: "usage / usg"@,
                does: lang.of("show your "@, ""@) + p.service + lang.of(
                    " subscription usage"@,
                    " のサブスクリプションの使用状況"@,
                ),
            },
        ],
    )
}

/// What can be said where several machines answer.
pub open spec fn machine_help(lang: Lang) -> Seq<Seq<char>> {
    section(
        lang.of("Machines"@, "マシン"@),
        seq![
            HelpRow {
                command: "route <machine>"@,
                does: lang.of(
                    "hand this channel to a machine"@,
                    "このチャンネルをマシンに任せる"@,
                ),
            },
            HelpRow {
                command: "route"@,
                does: lang.of(
                    "show which machine handles this channel and the others"@,
                    "このチャンネルとほかのチャンネルを受け持つマシンを見る"@,
                ),
            },
        ],
    )
}

/// What can be said of a channel.
pub open spec fn channel_help(lang: Lang) -> Seq<Seq<char>> {
    section(
        lang.of("Channels"@, "チャンネル"@),
        seq![
            HelpRow {
                command: "pwd"@,
                does: lang.of(
                    "show this channel's project directory"@,
                    "このチャンネルの作業ディレクトリを見る"@,
                ),
            },
            HelpRow {
                command: "pwd <absolute path>"@,
                does: lang.of(
                    "set this channel's project directory"@,
                    "このチャンネルの作業ディレクトリを決める"@,
                ),
            },
            HelpRow {
                command: "pwd all"@,
                does: lang.of(
                    "show every channel's project directory"@,
                    "すべてのチャンネルの作業ディレクトリを見る"@,
                ),
            },
            HelpRow {
                command: "warm on|off [<#channel>]"@,
                does: lang.of(
                    "keep an agent started ahead of time for a channel (this one if none is given)"@,
                    "チャンネルのエージェントを先に起動しておくか(省くとこのチャンネル)"@,
                ),
            },
            HelpRow {
                command: "set-home"@,
                does: lang.of(
                    "send notices to this channel"@,
                    "通知をこのチャンネルに出す"@,
                ),
            },
        ],
    )
}

/// What can be said of the bridge.
pub open spec fn bridge_help(lang: Lang) -> Seq<Seq<char>> {
    section(
        "agentgw"@,
        seq![
            HelpRow {
                command: "status"@,
                does: lang.of(
                    "version, active threads and warm agents"@,
                    "版・動いているスレッド・待機中のエージェント"@,
                ),
            },
            HelpRow {
                command: "restart"@,
                does: lang.of(
                    "restart agentgw (picks up a new version)"@,
                    "agentgw を再起動する(新しい版を読み込む)"@,
                ),
            },
        ],
    )
}

/// What can be said of other bots.
pub open spec fn bot_help(lang: Lang) -> Seq<Seq<char>> {
    section(
        lang.of("Other bots"@, "ほかのボット"@),
        seq![
            HelpRow {
                command: "allow-bot <@bot>"@,
                does: lang.of(
                    "let a bot's messages start work"@,
                    "そのボットの投稿で作業を始められるようにする"@,
                ),
            },
            HelpRow {
                command: "remove-bot <@bot>"@,
                does: lang.of(
                    "stop letting that bot's messages through"@,
                    "そのボットの投稿を通さないようにする"@,
                ),
            },
        ],
    )
}

/// How to ask for the list.
pub open spec fn help_help(lang: Lang) -> Seq<Seq<char>> {
    section(
        lang.of("Help"@, "ヘルプ"@),
        seq![
            HelpRow {
                command: "help / ?"@,
                does: lang.of(
                    "show this list"@,
                    "この一覧を出す"@,
                ),
            },
        ],
    )
}

/// The lines of the answer to `help`.
pub open spec fn help_lines(fleet: bool, p: ProductView, lang: Lang) -> Seq<Seq<char>> {
    seq![lang.of("*agentgw commands*"@, "*agentgw のコマンド*"@), ""@] + thread_help(lang)
        + account_help(p, lang) + (if fleet {
        machine_help(lang)
    } else {
        Seq::empty()
    }) + channel_help(lang) + bridge_help(lang) + bot_help(lang) + help_help(lang) + seq![
        lang.of(
            "_A command only runs when it's the whole message (with its arguments). Inside a sentence it's just part of a normal message._"@,
            "_コマンドは、メッセージ全体がそのコマンド(引数を含む)のときだけ動きます。文の中に書いたときは、普通のメッセージとして届きます。_"@,
        ),
    ]
}

fn push_title(lines: &mut Vec<String>, title: &str)
    ensures
        text::views(final(lines)@) == text::views(old(lines)@).push("*"@ + title@ + "*"@),
{
    broadcast use text::lemma_views_push;

    lines.push(text::cat3("*", title, "*"));
}

fn push_row(lines: &mut Vec<String>, command: &str, does: &str)
    ensures
        text::views(final(lines)@) == text::views(old(lines)@).push(
            (HelpRow { command: command@, does: does@ }).line(),
        ),
{
    broadcast use text::lemma_views_push;

    lines.push(text::cat4("  • `", command, "` — ", does));
}

fn push_blank(lines: &mut Vec<String>)
    ensures
        text::views(final(lines)@) == text::views(old(lines)@).push(""@),
{
    broadcast use text::lemma_views_push;

    lines.push("".to_owned());
}

fn push_thread_help(lines: &mut Vec<String>, lang: Lang)
    ensures
        text::views(final(lines)@) == text::views(old(lines)@) + thread_help(lang),
{
    let ghost was = text::views(lines@);
    push_title(lines, lang.pick("In this thread", "このスレッドで"));
    push_row(
        lines,
        "stop",
        lang.pick(
            "stop the current turn (a 🛑 reaction works too)",
            "実行中のターンを止める(🛑 のリアクションでも可)",
        ),
    );
    push_row(
        lines,
        "exit / bye / done",
        lang.pick(
            "end this thread's agent; your next message resumes it",
            "このスレッドのエージェントを終える。次に書けば再開する",
        ),
    );
    push_row(
        lines,
        "compact",
        lang.pick(
            "compact the context, with a progress bar",
            "コンテキストを圧縮する(進捗バー付き)",
        ),
    );
    push_row(
        lines,
        "model [fable|opus|sonnet|haiku]",
        lang.pick(
            "show or switch the model",
            "モデルを見る・切り替える",
        ),
    );
    push_row(
        lines,
        "effort [low|medium|high|xhigh|max|ultracode|auto]",
        lang.pick(
            "show or set the effort level",
            "effort を見る・決める",
        ),
    );
    push_row(
        lines,
        "mode [manual|plan|edit|auto]",
        lang.pick(
            "show or switch the permission mode",
            "権限モードを見る・切り替える",
        ),
    );
    push_row(
        lines,
        "context / ctx",
        lang.pick(
            "show this agent's context usage",
            "このエージェントのコンテキストの使用量",
        ),
    );
    push_row(
        lines,
        "resume",
        lang.pick(
            "show the command to continue this session in your own terminal (stops the agent here)",
            "このセッションを手元の端末で続けるコマンドを出す(ここのエージェントは止める)",
        ),
    );
    push_blank(lines);
    proof {
        assert(text::views(lines@) =~= was + thread_help(lang));
    }
}

fn push_account_help(lines: &mut Vec<String>, product: &Product, lang: Lang)
    ensures
        text::views(final(lines)@) == text::views(old(lines)@) + account_help(product@, lang),
{
    let ghost was = text::views(lines@);
    push_title(lines, lang.pick("Account", "アカウント"));
    let login: String = text::cat3(
        lang.pick("sign ", ""),
        product.program.as_str(),
        lang.pick(
            " in to your account (in a DM)",
            " を自分のアカウントでサインインする(DM で)",
        ),
    );
    push_row(lines, "login", login.as_str());
    push_row(
        lines,
        "logout",
        lang.pick(
            "sign out and stop every agent",
            "サインアウトして、すべてのエージェントを止める",
        ),
    );
    let usage: String = text::cat3(
        lang.pick("show your ", ""),
        product.service.as_str(),
        lang.pick(" subscription usage", " のサブスクリプションの使用状況"),
    );
    push_row(lines, "usage / usg", usage.as_str());
    push_blank(lines);
    proof {
        assert(text::views(lines@) =~= was + account_help(product@, lang));
    }
}

fn push_machine_help(lines: &mut Vec<String>, lang: Lang)
    ensures
        text::views(final(lines)@) == text::views(old(lines)@) + machine_help(lang),
{
    let ghost was = text::views(lines@);
    push_title(lines, lang.pick("Machines", "マシン"));
    push_row(
        lines,
        "route <machine>",
        lang.pick(
            "hand this channel to a machine",
            "このチャンネルをマシンに任せる",
        ),
    );
    push_row(
        lines,
        "route",
        lang.pick(
            "show which machine handles this channel and the others",
            "このチャンネルとほかのチャンネルを受け持つマシンを見る",
        ),
    );
    push_blank(lines);
    proof {
        assert(text::views(lines@) =~= was + machine_help(lang));
    }
}

fn push_channel_help(lines: &mut Vec<String>, lang: Lang)
    ensures
        text::views(final(lines)@) == text::views(old(lines)@) + channel_help(lang),
{
    let ghost was = text::views(lines@);
    push_title(lines, lang.pick("Channels", "チャンネル"));
    push_row(
        lines,
        "pwd",
        lang.pick(
            "show this channel's project directory",
            "このチャンネルの作業ディレクトリを見る",
        ),
    );
    push_row(
        lines,
        "pwd <absolute path>",
        lang.pick(
            "set this channel's project directory",
            "このチャンネルの作業ディレクトリを決める",
        ),
    );
    push_row(
        lines,
        "pwd all",
        lang.pick(
            "show every channel's project directory",
            "すべてのチャンネルの作業ディレクトリを見る",
        ),
    );
    push_row(
        lines,
        "warm on|off [<#channel>]",
        lang.pick(
            "keep an agent started ahead of time for a channel (this one if none is given)",
            "チャンネルのエージェントを先に起動しておくか(省くとこのチャンネル)",
        ),
    );
    push_row(
        lines,
        "set-home",
        lang.pick(
            "send notices to this channel",
            "通知をこのチャンネルに出す",
        ),
    );
    push_blank(lines);
    proof {
        assert(text::views(lines@) =~= was + channel_help(lang));
    }
}

fn push_bridge_help(lines: &mut Vec<String>, lang: Lang)
    ensures
        text::views(final(lines)@) == text::views(old(lines)@) + bridge_help(lang),
{
    let ghost was = text::views(lines@);
    push_title(lines, "agentgw");
    push_row(
        lines,
        "status",
        lang.pick(
            "version, active threads and warm agents",
            "版・動いているスレッド・待機中のエージェント",
        ),
    );
    push_row(
        lines,
        "restart",
        lang.pick(
            "restart agentgw (picks up a new version)",
            "agentgw を再起動する(新しい版を読み込む)",
        ),
    );
    push_blank(lines);
    proof {
        assert(text::views(lines@) =~= was + bridge_help(lang));
    }
}

fn push_bot_help(lines: &mut Vec<String>, lang: Lang)
    ensures
        text::views(final(lines)@) == text::views(old(lines)@) + bot_help(lang),
{
    let ghost was = text::views(lines@);
    push_title(lines, lang.pick("Other bots", "ほかのボット"));
    push_row(
        lines,
        "allow-bot <@bot>",
        lang.pick(
            "let a bot's messages start work",
            "そのボットの投稿で作業を始められるようにする",
        ),
    );
    push_row(
        lines,
        "remove-bot <@bot>",
        lang.pick(
            "stop letting that bot's messages through",
            "そのボットの投稿を通さないようにする",
        ),
    );
    push_blank(lines);
    proof {
        assert(text::views(lines@) =~= was + bot_help(lang));
    }
}

fn push_help_help(lines: &mut Vec<String>, lang: Lang)
    ensures
        text::views(final(lines)@) == text::views(old(lines)@) + help_help(lang),
{
    let ghost was = text::views(lines@);
    push_title(lines, lang.pick("Help", "ヘルプ"));
    push_row(
        lines,
        "help / ?",
        lang.pick(
            "show this list",
            "この一覧を出す",
        ),
    );
    push_blank(lines);
    proof {
        assert(text::views(lines@) =~= was + help_help(lang));
    }
}

// ── what is said ────────────────────────────────────────────────────────────

/// The lines on what was started and taken up again.
pub open spec fn startup_lines(pools: Seq<Seq<char>>, pending: u32, lang: Lang) -> Seq<Seq<char>> {
    seq![
        lang.of("• Started "@, "• 待機用のエージェントを "@) + text::decimal(pools.len() as int)
            + lang.of(" warm agent(s)"@, " 個起動"@),
    ] + pools.map_values(|cwd: Seq<char>| "  • "@ + cwd) + (if pending > 0 {
        seq![
            lang.of("• Resumed "@, "• 途中だったスレッドを "@) + text::decimal(pending as int)
                + lang.of(" unfinished thread(s)"@, " 件再開"@),
        ]
    } else {
        Seq::empty()
    })
}

/// Why the bridge goes, for people.
pub open spec fn why_said(reason: Seq<char>, lang: Lang) -> Seq<char> {
    if "signal:"@.is_prefix_of(reason) {
        lang.of("stopped by the system"@, "システムに止められたため"@)
    } else if reason == "restart"@ {
        lang.of("restarting"@, "再起動のため"@)
    } else if reason == "logout"@ {
        lang.of("signed out"@, "サインアウトしたため"@)
    } else {
        reason
    }
}

/// The lines of a warning that the limit is near.
pub open spec fn warning_lines(
    pct: u32,
    reset: Seq<char>,
    hit: Option<int>,
    lang: Lang,
) -> Seq<Seq<char>> {
    seq![
        lang.of(
            "⚠️ You're close to your usage limit — current session *"@,
            "⚠️ 利用上限が近づいています — 今のセッションで *"@,
        ) + text::decimal(pct as int) + lang.of("% used*"@, "%* 使用"@),
    ] + (if reset.len() > 0 {
        seq![lang.of("Resets "@, "リセット: "@) + reset]
    } else {
        Seq::empty()
    }) + (match hit {
        Some(minutes) => seq![
            lang.of("At this pace you'll hit the limit around "@, "このペースだと "@)
                + clock::reset_at(minutes) + lang.of("."@, " ごろに上限に達します。"@),
        ],
        None => Seq::empty(),
    })
}

/// A message with a line for each warning below it.
pub open spec fn warned(message: Seq<char>, warnings: Seq<Seq<char>>) -> Seq<char> {
    if warnings.len() == 0 {
        message
    } else {
        message + "\n"@ + as_lines(warnings.map_values(|w: Seq<char>| "⚠️ "@ + w))
    }
}

impl Notice {
    /// What is said.
    pub open spec fn said(&self, p: ProductView, lang: Lang) -> Seq<char> {
        match self {
            Notice::Help { fleet } => as_lines(help_lines(*fleet, p, lang)),
            Notice::PwdDmSetRefusal => lang.of(
                "Agents in DMs always work in the default directory; only channels can have their own."@,
                "DM のエージェントは常に既定のディレクトリで動きます。作業ディレクトリを決められるのはチャンネルだけです。"@,
            ),
            Notice::Limited { until_ms } => lang.of("⏸️ You've reached your "@, "⏸️ "@) + p.program
                + lang.of(
                " usage limit. New requests are paused until it resets around "@,
                " の利用上限に達しました。"@,
            ) + clock::month_day_time_at(clock::tokyo_minutes(*until_ms as int)) + lang.of(
                " (Asia/Tokyo) — send yours again after that."@,
                "(Asia/Tokyo)ごろのリセットまで新しい依頼は受け付けません。リセット後にもう一度送ってください。"@,
            ),
            Notice::UsageWarning { pct, reset, projected_hit } => as_lines(
                warning_lines(
                    *pct,
                    reset@,
                    match projected_hit {
                        Some(w) => Some(w.minutes()),
                        None => None,
                    },
                    lang,
                ),
            ),
            Notice::Startup { pools, pending } => as_lines(
                startup_lines(text::views(pools@), *pending, lang),
            ),
            Notice::Online { label, connected_as, version, pid, pools, pending } => "🟢 *"@ + label@
                + lang.of("* is online — as "@, "* がオンラインになりました — "@) + connected_as@
                + lang.of(", agentgw v"@, " として、agentgw v"@) + version@ + "\n"@ + as_lines(
                startup_lines(text::views(pools@), *pending, lang),
            ),
            Notice::Offline { label, version, pid, reason } => "🔴 *"@ + label@ + lang.of(
                "* is going offline ("@,
                "* がオフラインになります("@,
            ) + why_said(reason@, lang) + lang.of(") — agentgw v"@, ")— agentgw v"@) + version@,
        }
    }

    /// The notice as a message.
    pub fn render(&self, product: &Product, lang: Lang) -> (out: String)
        ensures
            out@ == self.said(product@, lang),
    {
        match self {
            Notice::Help { fleet } => Self::help(*fleet, product, lang),
            Notice::PwdDmSetRefusal => lang.pick(
                "Agents in DMs always work in the default directory; only channels can have their own.",
                "DM のエージェントは常に既定のディレクトリで動きます。作業ディレクトリを決められるのはチャンネルだけです。",
            ).to_owned(),
            Notice::Limited { until_ms } => {
                let at: String = WallClock::tokyo(*until_ms).month_day_time();
                text::cat5(
                    lang.pick("⏸️ You've reached your ", "⏸️ "),
                    product.program.as_str(),
                    lang.pick(
                        " usage limit. New requests are paused until it resets around ",
                        " の利用上限に達しました。",
                    ),
                    at.as_str(),
                    lang.pick(
                        " (Asia/Tokyo) — send yours again after that.",
                        "(Asia/Tokyo)ごろのリセットまで新しい依頼は受け付けません。リセット後にもう一度送ってください。",
                    ),
                )
            },
            Notice::UsageWarning { pct, reset, projected_hit } => Self::usage_warning(
                *pct,
                reset.as_str(),
                projected_hit,
                lang,
            ),
            Notice::Startup { pools, pending } => Self::startup(pools, *pending, lang),
            Notice::Online { label, connected_as, version, pid, pools, pending } => {
                let summary: String = Self::startup(pools, *pending, lang);
                let mut out: String = text::cat4(
                    "🟢 *",
                    label.as_str(),
                    lang.pick("* is online — as ", "* がオンラインになりました — "),
                    connected_as.as_str(),
                );
                out.append(lang.pick(", agentgw v", " として、agentgw v"));
                out.append(version.as_str());
                out.append("\n");
                out.append(summary.as_str());
                out
            },
            Notice::Offline { label, version, pid, reason } => {
                let why: String = Self::why(reason.as_str(), lang);
                let mut out: String = text::cat4(
                    "🔴 *",
                    label.as_str(),
                    lang.pick("* is going offline (", "* がオフラインになります("),
                    why.as_str(),
                );
                out.append(lang.pick(") — agentgw v", ")— agentgw v"));
                out.append(version.as_str());
                out
            },
        }
    }

    /// The message, and below it a line for each warning.
    pub fn with_warnings(message: &str, warnings: &[String]) -> (out: String)
        ensures
            out@ == warned(message@, text::views(warnings@)),
    {
        broadcast use text::lemma_views_empty;

        assert(text::views(warnings@).len() == warnings@.len());
        if warnings.len() == 0 {
            return message.to_owned();
        }
        let ghost all = text::views(warnings@).map_values(|w: Seq<char>| "⚠️ "@ + w);
        let mut lines: Vec<String> = Vec::new();
        let mut i: usize = 0;
        while i < warnings.len()
            invariant
                i <= warnings@.len() == all.len(),
                all == text::views(warnings@).map_values(|w: Seq<char>| "⚠️ "@ + w),
                text::views(lines@) =~= all.take(i as int),
            decreases warnings@.len() - i,
        {
            broadcast use text::lemma_views_push;

            lines.push(text::cat("⚠️ ", warnings[i].as_str()));
            proof {
                assert(text::views(warnings@)[i as int] == warnings@[i as int]@);
                assert(all.take(i + 1) =~= all.take(i as int).push(all[i as int]));
            }
            i = i + 1;
        }
        proof {
            assert(all.take(all.len() as int) =~= all);
        }
        let below: String = text::join(lines.as_slice(), "\n");
        text::cat3(message, "\n", below.as_str())
    }

    fn help(fleet: bool, product: &Product, lang: Lang) -> (out: String)
        ensures
            out@ == as_lines(help_lines(fleet, product@, lang)),
    {
        broadcast use text::lemma_views_push, text::lemma_views_empty;

        let mut lines: Vec<String> = Vec::new();
        lines.push(lang.pick("*agentgw commands*", "*agentgw のコマンド*").to_owned());
        lines.push("".to_owned());
        proof {
            assert(text::views(lines@) =~= seq![
                lang.of("*agentgw commands*"@, "*agentgw のコマンド*"@),
                ""@,
            ]);
        }
        push_thread_help(&mut lines, lang);
        push_account_help(&mut lines, product, lang);
        let ghost before = text::views(lines@);
        if fleet {
            push_machine_help(&mut lines, lang);
        }
        proof {
            assert(!fleet ==> before + Seq::<Seq<char>>::empty() =~= before);
        }
        push_channel_help(&mut lines, lang);
        push_bridge_help(&mut lines, lang);
        push_bot_help(&mut lines, lang);
        push_help_help(&mut lines, lang);
        let ghost before = text::views(lines@);
        lines.push(
            lang.pick(
                "_A command only runs when it's the whole message (with its arguments). Inside a sentence it's just part of a normal message._",
                "_コマンドは、メッセージ全体がそのコマンド(引数を含む)のときだけ動きます。文の中に書いたときは、普通のメッセージとして届きます。_",
            ).to_owned(),
        );
        proof {
            assert(text::views(lines@) =~= help_lines(fleet, product@, lang));
        }
        text::join(lines.as_slice(), "\n")
    }

    fn usage_warning(
        pct: u32,
        reset: &str,
        projected_hit: &Option<WallClock>,
        lang: Lang,
    ) -> (out: String)
        ensures
            out@ == as_lines(
                warning_lines(
                    pct,
                    reset@,
                    match projected_hit {
                        Some(w) => Some(w.minutes()),
                        None => None,
                    },
                    lang,
                ),
            ),
    {
        broadcast use text::lemma_views_push, text::lemma_views_empty;

        let n: String = text::number(pct as u64);
        let mut lines: Vec<String> = Vec::new();
        lines.push(
            text::cat3(
                lang.pick(
                    "⚠️ You're close to your usage limit — current session *",
                    "⚠️ 利用上限が近づいています — 今のセッションで *",
                ),
                n.as_str(),
                lang.pick("% used*", "%* 使用"),
            ),
        );
        if !reset.is_empty() {
            lines.push(text::cat(lang.pick("Resets ", "リセット: "), reset));
        }
        match projected_hit {
            Some(hit) => {
                let at: String = hit.reset_like();
                lines.push(
                    text::cat3(
                        lang.pick(
                            "At this pace you'll hit the limit around ",
                            "このペースだと ",
                        ),
                        at.as_str(),
                        lang.pick(".", " ごろに上限に達します。"),
                    ),
                );
            },
            None => {},
        }
        proof {
            assert(text::views(lines@) =~= warning_lines(
                pct,
                reset@,
                match projected_hit {
                    Some(w) => Some(w.minutes()),
                    None => None,
                },
                lang,
            ));
        }
        text::join(lines.as_slice(), "\n")
    }

    fn startup(pools: &Vec<String>, pending: u32, lang: Lang) -> (out: String)
        ensures
            out@ == as_lines(startup_lines(text::views(pools@), pending, lang)),
    {
        broadcast use text::lemma_views_push, text::lemma_views_empty;

        assert(text::views(pools@).len() == pools@.len());
        let ghost all = text::views(pools@).map_values(|cwd: Seq<char>| "  • "@ + cwd);
        let n: String = text::number(pools.len() as u64);
        let mut lines: Vec<String> = Vec::new();
        lines.push(
            text::cat3(
                lang.pick("• Started ", "• 待機用のエージェントを "),
                n.as_str(),
                lang.pick(" warm agent(s)", " 個起動"),
            ),
        );
        let ghost head = text::views(lines@);
        let mut i: usize = 0;
        proof {
            assert(head + all.take(0) =~= head);
        }
        while i < pools.len()
            invariant
                i <= pools@.len() == all.len(),
                all == text::views(pools@).map_values(|cwd: Seq<char>| "  • "@ + cwd),
                text::views(lines@) =~= head + all.take(i as int),
            decreases pools@.len() - i,
        {
            broadcast use text::lemma_views_push;

            lines.push(text::cat("  • ", pools[i].as_str()));
            proof {
                assert(text::views(pools@)[i as int] == pools@[i as int]@);
                assert(all.take(i + 1) =~= all.take(i as int).push(all[i as int]));
            }
            i = i + 1;
        }
        proof {
            assert(all.take(all.len() as int) =~= all);
        }
        if pending > 0 {
            let p: String = text::number(pending as u64);
            lines.push(
                text::cat3(
                    lang.pick("• Resumed ", "• 途中だったスレッドを "),
                    p.as_str(),
                    lang.pick(" unfinished thread(s)", " 件再開"),
                ),
            );
        }
        proof {
            assert(text::views(lines@) =~= startup_lines(text::views(pools@), pending, lang));
        }
        text::join(lines.as_slice(), "\n")
    }

    fn why(reason: &str, lang: Lang) -> (out: String)
        ensures
            out@ == why_said(reason@, lang),
    {
        if text::starts_with(reason, "signal:") {
            lang.pick("stopped by the system", "システムに止められたため").to_owned()
        } else if text::same(reason, "restart") {
            lang.pick("restarting", "再起動のため").to_owned()
        } else if text::same(reason, "logout") {
            lang.pick("signed out", "サインアウトしたため").to_owned()
        } else {
            reason.to_owned()
        }
    }
}

} // verus!
