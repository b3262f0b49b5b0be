use agentgw::bridge::render::failure::TurnFailureClass;
use agentgw::bridge::render::notice::Notice;
use agentgw::bridge::render::reports::{
    bar, leading_number, CompactProgress, ContextReport, PwdEntry, RestartPhase, ResumeInfo, UsageLine,
    UsageProjection, UsageReport, UsageRow, UsedShare, CELLS, WEEK_MINUTES,
};
use agentgw::bridge::render::status::{StatusReport, StatusThread};
use agentgw::clock::WallClock;
use agentgw::i18n::Lang;
use agentgw::product::Product;

fn product() -> Product {
    Product {
        service: "Robin".to_string(),
        program: "Robin Shell".to_string(),
        command: "robin".to_string(),
    }
}

fn wc(year: i32, month: u32, day: u32, hour: u32, minute: u32) -> WallClock {
    WallClock::new(year, month, day, hour, minute).expect("valid wall clock")
}

fn said(n: Notice) -> String {
    n.render(&product(), Lang::En)
}

#[test]
fn turn_failure_classifies_and_speaks() {
    let of = |reason: &str| TurnFailureClass::of(reason, &product(), Lang::En);
    let (k, t) = of("API Error: rate_limit_error");
    assert_eq!(k, TurnFailureClass::Retry);
    assert!(t.contains("Robin is busy"), "{t}");

    let (k, t) = of("BILLING_ERROR");
    assert_eq!(k, TurnFailureClass::TellUser);
    assert!(t.contains("billing problem"), "{t}");

    let (k, t) = of("unknown");
    assert_eq!(k, TurnFailureClass::Retry);
    assert_eq!(t, "No reply was written (`unknown`). Send it again.");

    let (k, t) = of("");
    assert_eq!(k, TurnFailureClass::Retry);
    assert_eq!(t, "No reply was written. Send it again.");
}

#[test]
fn every_known_failure_has_its_words() {
    let of = |reason: &str| TurnFailureClass::of_lowered(reason, reason, &product(), Lang::En);
    for (reason, class, words) in [
        ("overloaded_error", TurnFailureClass::Retry, "Robin had a temporary problem"),
        ("server_error", TurnFailureClass::Retry, "Robin had a temporary problem"),
        ("authentication_failed", TurnFailureClass::TellUser, "Robin Shell is signed out"),
        ("oauth_org_not_allowed", TurnFailureClass::TellUser, "to use Robin Shell, so"),
        ("max_output_tokens", TurnFailureClass::TellUser, "The answer hit the output limit"),
        ("invalid_request", TurnFailureClass::TellUser, "The request was too large"),
        ("model_not_found", TurnFailureClass::TellUser, "The selected model doesn't exist"),
    ] {
        let (k, t) = of(reason);
        assert_eq!(k, class, "{reason}");
        assert!(t.contains(words), "{reason}: {t}");
    }
    let (k, t) = TurnFailureClass::of("Rate_Limit", &product(), Lang::Ja);
    assert_eq!(k, TurnFailureClass::Retry);
    assert!(t.starts_with("Robin が混み合っていて"), "{t}");
    assert_eq!(TurnFailureClass::Retry.as_str(), "retry");
    assert_eq!(TurnFailureClass::TellUser.as_str(), "tell-user");
}

#[test]
fn startup_summary_lists_pools_and_omits_zero_pending() {
    let out = said(Notice::Startup {
        pools: vec!["/home/orchestrator".to_string(), "/repo/one".to_string()],
        pending: 0,
    });
    assert!(out.contains("Started 2 warm agent(s)"));
    assert!(out.contains("/home/orchestrator"));
    assert!(!out.contains("unfinished"));
}

#[test]
fn startup_summary_includes_pending_when_nonzero() {
    let out = said(Notice::Startup { pools: vec![], pending: 1 });
    assert!(out.contains("Resumed 1 unfinished thread(s)"));
}

#[test]
fn online_notice_matches_bun_shape() {
    let out = said(Notice::Online {
        label: "myhost".to_string(),
        connected_as: "botname".to_string(),
        version: "1.2.3".to_string(),
        pid: 12345,
        pools: vec!["/repo/one".to_string()],
        pending: 0,
    });
    assert!(out.starts_with("🟢 *myhost* is online — as botname, agentgw v1.2.3\n"), "{out}");
    assert!(out.contains("Started 1 warm agent(s)"));
}

fn offline(reason: &str, lang: Lang) -> String {
    Notice::Offline {
        label: "myhost".to_string(),
        version: "1.2.3".to_string(),
        pid: 12345,
        reason: reason.to_string(),
    }
    .render(&product(), lang)
}

#[test]
fn offline_notice_names_the_reason() {
    let out = offline("restart", Lang::En);
    assert_eq!(out, "🔴 *myhost* is going offline (restarting) — agentgw v1.2.3");
}

#[test]
fn offline_notice_puts_its_reason_in_words() {
    assert!(offline("signal:TERM", Lang::En).contains("(stopped by the system)"));
    assert!(offline("logout", Lang::En).contains("(signed out)"));
    assert!(offline("out of paper", Lang::En).contains("(out of paper)"));
    assert_eq!(
        offline("restart", Lang::Ja),
        "🔴 *myhost* がオフラインになります(再起動のため)— agentgw v1.2.3"
    );
}

#[test]
fn format_limit_reply_names_the_reset_time() {
    let out = said(Notice::Limited { until_ms: 1_782_635_400_000 });
    assert!(out.contains("6/28 17:30"), "{out}");
    assert_eq!(
        out,
        "⏸️ You've reached your Robin Shell usage limit. New requests are paused until it resets around 6/28 17:30 (Asia/Tokyo) — send yours again after that."
    );
    let out = said(Notice::Limited { until_ms: 1_785_283_500_000 });
    assert!(out.contains("7/29 09:05"), "{out}");
}

#[test]
fn a_usage_warning_has_a_line_for_what_is_known() {
    let bare = said(Notice::UsageWarning {
        pct: 80,
        reset: String::new(),
        projected_hit: None,
    });
    assert_eq!(bare, "⚠️ You're close to your usage limit — current session *80% used*");
    let full = said(Notice::UsageWarning {
        pct: 90,
        reset: "5:30pm".to_string(),
        projected_hit: Some(wc(2026, 7, 29, 13, 45)),
    });
    assert_eq!(
        full,
        "⚠️ You're close to your usage limit — current session *90% used*\nResets 5:30pm\nAt this pace you'll hit the limit around Jul 29 at 1:45 pm."
    );
}

#[test]
fn warnings_stand_below_the_message() {
    assert_eq!(Notice::with_warnings("done", &[]), "done");
    assert_eq!(
        Notice::with_warnings("done", &["one".to_string(), "two".to_string()]),
        "done\n⚠️ one\n⚠️ two"
    );
}

#[test]
fn the_directory_of_direct_messages_is_not_chosen() {
    assert!(said(Notice::PwdDmSetRefusal).starts_with("Agents in DMs always work in the default"));
}

#[test]
fn resume_report_variants() {
    let none = ResumeInfo {
        session_id: None,
        cwd: None,
        transcript_missing: false,
        worker_running: false,
    };
    assert!(none
        .render(&product(), Lang::En)
        .starts_with("This thread has no session to resume yet"));
    let full = ResumeInfo {
        session_id: Some("sid-1".to_string()),
        cwd: Some("/repo".to_string()),
        transcript_missing: true,
        worker_running: true,
    };
    let out = full.render(&product(), Lang::En);
    assert!(out.contains("cd /repo && robin --resume sid-1"));
    assert!(out.contains("⚠️ This session's history isn't on disk"));
    assert!(out.contains("The agent for this thread has been stopped"));
}

#[test]
fn idle_and_paths() {
    let idle = |now, last| StatusThread::idle_label(now, last, Lang::En);
    assert_eq!(idle(10_000, 0), None);
    assert_eq!(idle(60_000, 30_000).as_deref(), Some("just now"));
    assert_eq!(idle(46 * 60_000, 60_000).as_deref(), Some("45m ago"));
    assert_eq!(idle(10 * 60 * 60_000, 36 * 60_000).as_deref(), Some("9.4h ago"));
    assert_eq!(
        StatusReport::short_path(Some("/Users/t/dev/x"), "/Users/t", Lang::En),
        "~/dev/x"
    );
    assert_eq!(StatusReport::short_path(Some("/opt/x"), "/Users/t", Lang::En), "/opt/x");
    assert_eq!(StatusReport::short_path(None, "/Users/t", Lang::En), "(unknown)");
}

#[test]
fn hours_are_rounded_as_a_float_would_be() {
    // Every count of minutes below three weeks, against the machine's own division and rounding.
    for mins in 60u64..30_240 {
        let want = format!("{:.1}h ago", mins as f64 / 60.0);
        let got = StatusThread::idle_label(mins * 60_000 + 1, 1, Lang::En).unwrap();
        if got.ends_with("h ago") {
            assert_eq!(got, want, "{mins}");
        }
    }
}

#[test]
fn a_path_beside_the_home_directory_keeps_its_name() {
    assert_eq!(
        StatusReport::short_path(Some("/Users/tom/x"), "/Users/t", Lang::En),
        "/Users/tom/x"
    );
    assert_eq!(StatusReport::short_path(Some("/Users/t"), "/Users/t", Lang::En), "~");
    assert_eq!(StatusReport::short_path(Some("/x"), "", Lang::En), "/x");
}

fn thread(channel: &str, last_activity_ms: u64, name: Option<&str>) -> StatusThread {
    StatusThread {
        channel_id: channel.to_string(),
        thread_ts: "1.0".to_string(),
        last_activity_ms,
        repo_path: None,
        permalink: None,
        topic: Some(format!("at {last_activity_ms}")),
        channel_name: name.map(|n| n.to_string()),
    }
}

fn sample_report() -> StatusReport {
    StatusReport {
        bridge_version: "0.1.0-rs".to_string(),
        now_ms: 1_000_000,
        home: "/Users/t".to_string(),
        mode: "local".to_string(),
        threads: vec![],
        pools: vec![],
    }
}

#[test]
fn status_report_groups_and_orders() {
    let r = StatusReport {
        bridge_version: "0.1.0-rs".to_string(),
        now_ms: 1_000_000,
        home: "/Users/t".to_string(),
        mode: "local".to_string(),
        threads: vec![
            StatusThread {
                channel_id: "C1".to_string(),
                thread_ts: "1.0".to_string(),
                last_activity_ms: 940_000,
                repo_path: Some("/Users/t/dev/x".to_string()),
                permalink: Some("https://s/p1".to_string()),
                topic: Some("<@UBOT> READMEを要約して".to_string()),
                channel_name: Some("#general".to_string()),
            },
            StatusThread {
                channel_id: "D1".to_string(),
                thread_ts: "2.0".to_string(),
                last_activity_ms: 0,
                repo_path: None,
                permalink: None,
                topic: None,
                channel_name: Some("@taito".to_string()),
            },
        ],
        pools: vec![],
    };
    let out = r.render(Lang::En);
    assert!(out.starts_with("🟢 *agentgw* `0.1.0-rs` · local\n　\n"));
    assert!(out.contains("*Active threads* — 2"));
    assert!(out.find("@taito").unwrap() < out.find("general").unwrap());
    assert!(!out.contains("UBOT"));
    assert!(
        out.contains("\n<#C1|general> · `~/dev/x`\n`1m ago`　<https://s/p1|READMEを要約して>")
    );
    assert!(out.contains("\n@taito\n　(untitled)\n"));
    assert!(out.contains("*Warm agents* — none"));
    let empty = StatusReport { threads: vec![], ..r };
    assert!(empty.render(Lang::En).contains("*Active threads* — none"));
}

#[test]
fn status_orders_busy_channels_first_and_old_threads_first() {
    let mut r = sample_report();
    r.threads = vec![
        thread("C2", 900_000, Some("#quiet")),
        thread("C1", 990_000, Some("#busy")),
        thread("C1", 100_000, None),
    ];
    let out = r.render(Lang::En);
    let at = |s: &str| out.find(s).unwrap();
    assert!(at("<#C1|busy>") < at("<#C2|quiet>"), "{out}");
    assert!(at("at 100000") < at("at 990000"), "{out}");
    assert_eq!(out.matches("<#C1|busy>").count(), 1, "{out}");
    assert!(out.contains("at 990000\n\n<#C2|quiet>"), "{out}");
}

#[test]
fn status_report_lists_warm_pools() {
    let r = StatusReport {
        pools: vec!["/repo/a".to_string(), "/Users/t/dev/b".to_string()],
        ..sample_report()
    };
    let out = r.render(Lang::En);
    assert!(out.contains("*Warm agents* — 2"));
    assert!(out.contains("\n\n*Warm agents"));
    assert!(out.contains("\n`/repo/a`　`~/dev/b`"));
}

#[test]
fn status_report_warm_pool_empty_unchanged() {
    assert!(sample_report().render(Lang::En).contains("*Warm agents* — none"));
}

#[test]
fn link_text_strips_tokens_and_truncates() {
    let link = |t: Option<&str>| StatusThread::link_text(t, Lang::En);
    assert_eq!(link(None), "(untitled)");
    assert_eq!(link(Some("<@U1> <#C1|general>")), "(untitled)");
    assert_eq!(link(Some("a<b\nc  d")), "ab c d");
    assert_eq!(link(Some("<https://x|見出し>")), "https://x見出し");
    let long = "あ".repeat(60);
    let cut = link(Some(&long));
    assert!(cut.ends_with('…') && cut.chars().count() == 51);
}

#[test]
fn pwd_renders() {
    let e = PwdEntry {
        channel_id: "C1".to_string(),
        repo_path: "/dev/x".to_string(),
        label: Some("dev".to_string()),
        is_fallback: true,
    };
    assert_eq!(
        e.render("This channel", Lang::En),
        "● This channel\n<#C1>（dev） — not set; using the default directory\n  `/dev/x`"
    );
    assert!(PwdEntry::render_all(&[e], "/home", Lang::En).contains("  • <#C1>（dev） → `/dev/x`"));
    assert!(PwdEntry::render_all(&[], "/home", Lang::En).contains("None set."));
    assert!(PwdEntry::render_all(&[], "/home", Lang::En)
        .ends_with("_Channels without one, and DMs, use `/home`_"));
}

#[test]
fn help_lists_every_command() {
    let h = said(Notice::Help { fleet: false });
    for word in [
        "stop",
        "exit / bye / done",
        "compact",
        "model [fable|opus|sonnet|haiku]",
        "effort [low|medium|high|xhigh|max|ultracode|auto]",
        "mode [manual|plan|edit|auto]",
        "context / ctx",
        "resume",
        "login",
        "logout",
        "usage / usg",
        "status",
        "restart",
        "pwd <absolute path>",
        "warm on|off [<#channel>]",
        "set-home",
        "allow-bot <@bot>",
        "remove-bot <@bot>",
        "help / ?",
    ] {
        assert!(h.contains(word), "{word}");
    }
    assert!(!h.contains("route <machine>"));
    assert!(h.ends_with("just part of a normal message._"));
    assert!(h.contains("\n\n*Account*\n  • `login` — sign Robin Shell in to your account (in a DM)\n"));
}

#[test]
fn a_bridge_that_takes_children_lists_route() {
    let h = said(Notice::Help { fleet: true });
    assert!(h.contains("route <machine>"));
    assert!(h.contains("hand this channel to a machine"));
    assert!(h.contains("status") && h.contains("help / ?"));
}

fn row(name: &str, tokens: &str, share: &str) -> (String, String, String) {
    (name.to_string(), tokens.to_string(), share.to_string())
}

#[test]
fn renders_context_report() {
    let r = ContextReport {
        used: "43.8k".to_string(),
        total: "1m".to_string(),
        categories: vec![
            row("System prompt", "3.2k", "0.3%"),
            row("Messages", "40.6k", "4.1%"),
            row("Free space", "956k", "95.6%"),
        ],
    };
    let used = UsedShare { filled: 1, percent: 4, row: "4.4%".to_string() };
    let out = r.render("Opus 4.8（1M context）", &used);
    assert!(out.starts_with("📊 *Context Usage*\nOpus 4.8（1M context）"), "{out}");
    assert!(out.contains("43.8k / 1m ( 4% used )"), "{out}");
    assert!(out.contains("Used space"), "{out}");
    assert!(!out.contains("Free space"), "{out}");
}

fn usage_line(label: &str, pct: &str, reset: &str, filled: usize) -> UsageLine {
    UsageLine {
        row: UsageRow {
            label: label.to_string(),
            pct: pct.to_string(),
            reset: reset.to_string(),
        },
        filled,
        hit: None,
    }
}

#[test]
fn renders_usage_report() {
    let out = UsageReport {
        lines: vec![usage_line("Current week (all models)", "66", "Aug 1 at 9am", 16)],
    }
    .render(&product());
    assert!(out.starts_with("📊 *Robin Shell Usage*"));
    assert!(out.contains("*Current week (all models)*"));
    assert!(out.contains("66% used"));
    assert!(out.contains("Resets Aug 1 at 9am"));
    assert_eq!(bar(12, 24), format!("{}{}", "█".repeat(12), "░".repeat(12)));
    assert_eq!(bar(10, 10), "█".repeat(10));
    assert_eq!(bar(0, 10), "░".repeat(10));
    assert_eq!(bar(7, CELLS).chars().count(), CELLS);
    let zero = UsageReport { lines: vec![usage_line("Current session", "0", "", 0)] };
    assert!(!zero.render(&product()).contains("Resets"));
}

#[test]
fn usage_report_appends_projection_line_only_when_at_risk() {
    let mut line = usage_line("Current session", "40", "5:30pm", 10);
    line.hit = Some(wc(2026, 7, 29, 13, 45));
    let out = UsageReport { lines: vec![line] }.render(&product());
    assert!(out.contains("- Expected to reach limit at : Jul 29 at 1:45 pm"));
    let calm = UsageReport { lines: vec![usage_line("Current session", "6", "5:30pm", 1)] };
    assert!(!calm.render(&product()).contains("Expected to reach limit"));
    assert_eq!(UsageRow::window_minutes("Current week (Fable)", 300), Some(WEEK_MINUTES));
    assert_eq!(UsageRow::window_minutes("Current session", 300), Some(300));
    assert_eq!(UsageRow::window_minutes("Current month", 300), None);
}

#[test]
fn a_limit_that_comes_before_its_reset_is_at_risk() {
    let now = wc(2026, 7, 29, 13, 0);
    let reset = wc(2026, 7, 29, 17, 30);
    assert_eq!(UsageProjection::elapsed(&reset, &now, 300), Some(30));
    let hit = wc(2026, 7, 29, 13, 45);
    let p = UsageProjection::hitting(hit, &reset);
    assert!(p.enough_data && p.at_risk);
    assert_eq!(p.projected_hit, Some(hit));
    assert_eq!(p.warning(), Some(hit));
    let late = UsageProjection::hitting(wc(2026, 7, 29, 18, 0), &reset);
    assert!(!late.at_risk);
    assert_eq!(late.warning(), None);
    assert!(!UsageProjection::unknown().enough_data);
}

#[test]
fn compact_progress_without_an_arrow_renders_no_nul() {
    let p = CompactProgress {
        active: true,
        seconds: Some(3),
        tokens: Some("876".to_string()),
        tokens_dir: None,
        percent: None,
    };
    let out = p.render(Lang::En);
    assert!(!out.contains('\0'));
    assert!(out.starts_with("🗜️ Compacting the context… 3s · 876 tokens\n"));
    let with_dir = CompactProgress { tokens_dir: Some('↑'), ..p };
    assert!(with_dir
        .render(Lang::En)
        .starts_with("🗜️ Compacting the context… 3s · ↑876 tokens\n"));
}

#[test]
fn restart_checklist_renders() {
    let first = RestartPhase::Received.render(None, Lang::En);
    assert!(first.starts_with("• Restart requested\n◌ Stopping agentgw…"), "{first}");
    let done = RestartPhase::Done.render(None, Lang::En);
    assert!(done.ends_with("• agentgw is back online\n✅ Restart complete"), "{done}");
    let failed = RestartPhase::Received.render(Some("could not restart"), Lang::En);
    assert!(failed.contains("💥"));
}

#[test]
fn a_share_is_read_from_its_front() {
    assert_eq!(leading_number("95.6%"), "95.6");
    assert_eq!(leading_number("  -3.2.1"), "-3.2");
    assert_eq!(leading_number("1+2"), "1");
    assert_eq!(leading_number("n/a"), "");
    let mut r = ContextReport {
        used: "1k".to_string(),
        total: "200k".to_string(),
        categories: vec![("Messages".to_string(), "1k".to_string(), "0.5%".to_string())],
    };
    assert_eq!(r.free_share(), None);
    r.categories.push(("FREE space".to_string(), "199k".to_string(), "99.5%".to_string()));
    r.categories.push(("Free space".to_string(), "1".to_string(), "1%".to_string()));
    assert_eq!(r.free_share().as_deref(), Some("99.5%"));
}
