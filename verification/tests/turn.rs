use agentgw::bridge::render::failure::TurnFailureClass;
use agentgw::bridge::render::reports::{UsageProjection, UsageRow};
use agentgw::bridge::state::access::Access;
use agentgw::bridge::state::decide::{Disposition, StallAction};
use agentgw::bridge::state::ledger::Ledger;
use agentgw::bridge::state::pool_key::Lifecycle;
use agentgw::bridge::state::threads::{ThreadEntry, Threads};
use agentgw::bridge::turn::failure::{
    after_failure, error_frame, on_turn_failure, resent, retry_turn_failure, FailureStep,
    ResendStep, RetryStep,
};
use agentgw::bridge::turn::perm::{
    on_perm, on_perm_hook, question_for, root_gone, PermAnswer, PermPrompts, PermStep, ToolRule,
    PERM_WAIT_MS,
};
use agentgw::bridge::turn::progress::{agent_id_in_text, facts_of, on_progress, progress_from};
use agentgw::bridge::turn::settle::{
    milestone, note_hook, on_disposition, on_hook, on_stop, on_stop_hook, on_transcript,
    on_turn_start, scan_transcript, seeks_receipts, skip_transcript, FlushStep, HookKind,
    Narrations,
};
use agentgw::bridge::turn::stall::{Stall, Stalls};
use agentgw::bridge::turn::usage::{newly_crossed, session_row, Look, UsageState};
use agentgw::bridge::worker::seats::{WorkerState, Workers};
use agentgw::chat::slack::events::PermClick;
use agentgw::chat::slack::input::ToolInput;
use agentgw::chat::slack::limits::SILENCE_MS;
use agentgw::chat::slack::rows::{AgentRef, ToolStatus};
use agentgw::chat::slack::sticky::StickyBoard;
use agentgw::chat::ThreadKey;
use agentgw::clock::WallClock;
use agentgw::i18n::Lang;
use agentgw::product::Product;

fn product() -> Product {
    Product {
        service: "Robin".to_string(),
        program: "Robin Shell".to_string(),
        command: "robin".to_string(),
    }
}

fn key(s: &str) -> ThreadKey {
    ThreadKey::parse(s)
}

fn strings(list: &[&str]) -> Vec<String> {
    list.iter().map(|s| s.to_string()).collect()
}

fn threads_with(root: &str, channel: &str, sid: &str) -> Threads {
    let mut t = Threads::new();
    t.upsert(root, ThreadEntry::new(channel, sid));
    t
}

fn drawn(board: &mut StickyBoard, k: &str) -> Option<String> {
    assert!(board.can_finish(&key(k), Lang::En));
    board.take_final(&key(k), Lang::En).map(|d| d.1)
}

// ── permission ──────────────────────────────────────────────────────────────

fn answer(allow: bool, reason: &str) -> PermStep {
    PermStep::Answer(PermAnswer { allow, reason: reason.to_string() })
}

#[test]
fn the_standing_rules_come_before_a_grant() {
    let mut threads = threads_with("1.1", "C1", "s1");
    threads.grant_thread_tool("1.1", "Bash");
    let access = Access::new();
    let k = key("C1:1.1");
    assert_eq!(
        on_perm(ToolRule::Deny("no".to_string()), Some(&k), "Bash", &threads, &access),
        answer(false, "no")
    );
    assert_eq!(
        on_perm(ToolRule::Allow("own-tool".to_string()), None, "reply", &threads, &access),
        answer(true, "Slack bridge (own-tool)")
    );
}

#[test]
fn what_was_granted_is_not_asked_again() {
    let mut threads = threads_with("1.1", "C1", "s1");
    let mut access = Access::new();
    let k = key("C1:1.1");
    assert_eq!(
        on_perm(ToolRule::Ask, Some(&k), "Bash", &threads, &access),
        PermStep::Ask {
            channel: "C1".to_string(),
            thread_ts: "1.1".to_string(),
            check_root: true
        }
    );
    threads.grant_thread_tool("1.1", "Bash");
    assert_eq!(
        on_perm(ToolRule::Ask, Some(&k), "Bash", &threads, &access),
        answer(true, "Slack bridge (thread-grant)")
    );
    access.grant_channel_tool("C1", "Edit");
    assert_eq!(
        on_perm(ToolRule::Ask, Some(&key("C1:9.9")), "Edit", &threads, &access),
        answer(true, "Slack bridge (channel-grant)")
    );
}

#[test]
fn without_a_thread_the_bridge_stands_aside() {
    let (threads, access) = (Threads::new(), Access::new());
    assert_eq!(on_perm(ToolRule::Ask, None, "Bash", &threads, &access), PermStep::Aside);
    assert_eq!(
        on_perm(ToolRule::Ask, Some(&key("C1")), "Bash", &threads, &access),
        PermStep::Aside
    );
    assert!(matches!(
        on_perm(ToolRule::Ask, Some(&key("D1:1.1")), "Bash", &threads, &access),
        PermStep::Ask { check_root: false, .. }
    ));
    assert_eq!(root_gone().reason, "Slack bridge (thread-gone)");
}

fn click(action: &str) -> PermClick {
    PermClick { req_id: "r1".to_string(), action: action.to_string(), by: "U1".to_string() }
}

struct Desk {
    prompts: PermPrompts,
    stalls: Stalls,
    board: StickyBoard,
    threads: Threads,
    access: Access,
}

fn asked() -> Desk {
    let mut d = Desk {
        prompts: PermPrompts::new(),
        stalls: Stalls::new(),
        board: StickyBoard::new(),
        threads: threads_with("1.1", "C1", "s1"),
        access: Access::new(),
    };
    let k = key("C1:1.1");
    d.board.on_turn_start(&k);
    d.board.upsert_tool(
        &k,
        "t1",
        "Bash",
        "ls",
        ToolStatus::Pending,
        &AgentRef::default(),
        &ToolInput::empty(),
    );
    d.stalls.watch(&k, Stall { last_activity_ms: 5, shown: true, awaiting_perm: false });
    assert_eq!(d.prompts.next_id(255), "ff-0");
    assert!(d.prompts.asked(&mut d.stalls, "r1", "C1", "1.1", "Bash", "t1", "7.7", 1_000));
    assert_eq!(d.prompts.next_id(255), "ff-1");
    let s = d.stalls.get(&k).unwrap();
    assert!(s.awaiting_perm && !s.shown);
    d
}

fn press(d: &mut Desk, action: &str) -> Option<agentgw::bridge::turn::perm::Clicked> {
    d.prompts.clicked(
        &mut d.stalls,
        &mut d.board,
        &mut d.threads,
        &mut d.access,
        &click(action),
        9_000,
    )
}

#[test]
fn a_pressed_button_answers_once_and_grants_what_it_says() {
    let mut d = asked();
    let c = press(&mut d, "allow-thread").unwrap();
    assert!(c.answer.allow);
    assert_eq!(c.answer.reason, "Slack bridge (allow-thread)");
    assert_eq!(c.done, "✅ `Bash` — allow-thread by <@U1>");
    assert_eq!((c.channel.as_str(), c.prompt_ts.as_str()), ("C1", "7.7"));
    assert!(d.threads.thread_tool_allowed("1.1", "Bash"));
    assert!(!d.access.channel_tool_allowed("C1", "Bash"));
    assert_eq!(d.stalls.get(&key("C1:1.1")).unwrap().last_activity_ms, 9_000);
    assert!(press(&mut d, "allow-thread").is_none());

    let mut d = asked();
    press(&mut d, "allow-channel").unwrap();
    assert!(d.access.channel_tool_allowed("C1", "Bash"));
    assert!(!d.threads.thread_tool_allowed("1.1", "Bash"));
}

#[test]
fn a_refused_call_is_marked_and_grants_nothing() {
    let mut d = asked();
    let c = press(&mut d, "deny").unwrap();
    assert!(!c.answer.allow);
    assert_eq!(c.done, "🚫 `Bash` — deny by <@U1>");
    assert!(drawn(&mut d.board, "C1:1.1").unwrap().contains("🚫 Bash"));
    assert!(!d.threads.thread_tool_allowed("1.1", "Bash"));
}

#[test]
fn a_question_that_nobody_answers_expires() {
    let mut d = asked();
    assert!(d.prompts.expired(1_000 + PERM_WAIT_MS - 1).is_empty());
    assert_eq!(d.prompts.expired(1_000 + PERM_WAIT_MS), strings(&["r1"]));
    assert_eq!(d.prompts.waiting().len(), 1);
    let (p, clear) = d.prompts.expire(&mut d.stalls, &mut d.board, "r1").unwrap();
    assert_eq!(p.prompt_ts, "7.7");
    assert!(!clear);
    assert_eq!(d.stalls.get(&key("C1:1.1")).unwrap().last_activity_ms, 5);
    assert!(drawn(&mut d.board, "C1:1.1").unwrap().contains("timed out"));
    assert!(d.prompts.expire(&mut d.stalls, &mut d.board, "r1").is_none());
    assert!(d.prompts.waiting().is_empty());
}

// ── silence ─────────────────────────────────────────────────────────────────

#[test]
fn silence_shows_once_and_ends_with_the_answer() {
    let k = key("C1:1.1");
    let mut ledger = Ledger::new();
    ledger.track(&k, "m1");
    let mut stalls = Stalls::new();
    stalls.watch(&k, Stall { last_activity_ms: 0, shown: false, awaiting_perm: false });
    assert!(stalls.tick(&ledger, SILENCE_MS - 1).is_empty());
    let acts = stalls.tick(&ledger, SILENCE_MS);
    assert_eq!(acts.len(), 1);
    assert_eq!((acts[0].0.as_str(), acts[0].1), ("C1:1.1", StallAction::Fire));
    assert!(stalls.get(&k).unwrap().shown);
    assert!(stalls.tick(&ledger, SILENCE_MS * 2).is_empty());
    ledger.dispose_all(&k);
    assert_eq!(stalls.tick(&ledger, SILENCE_MS * 2)[0].1, StallAction::Settle);
    assert!(stalls.get(&k).is_none());
}

#[test]
fn an_agent_that_waits_for_a_person_is_not_silent() {
    let k = key("C1:1.1");
    let mut ledger = Ledger::new();
    ledger.track(&k, "m1");
    let mut stalls = Stalls::new();
    stalls.watch(&k, Stall { last_activity_ms: 0, shown: false, awaiting_perm: true });
    assert!(stalls.tick(&ledger, SILENCE_MS * 9).is_empty());
}

// ── failure ─────────────────────────────────────────────────────────────────

struct Failed {
    usage: UsageState,
    ledger: Ledger,
    threads: Threads,
    workers: Workers,
}

fn failed_turn() -> Failed {
    let k = key("C1:1.1");
    let mut f = Failed {
        usage: UsageState::new(),
        ledger: Ledger::new(),
        threads: threads_with("1.1", "C1", "s1"),
        workers: Workers::new(),
    };
    f.ledger.track(&k, "m1");
    f.ledger.remember_envelope(&k, "m1", "<msg>");
    f
}

fn fail(f: &mut Failed, sid: &str, limit: Option<u64>, payload: &str) -> FailureStep {
    on_turn_failure(
        &mut f.usage,
        &mut f.ledger,
        &f.threads,
        &f.workers,
        Some(&key("C1:1.1")),
        sid,
        limit,
        payload,
        Some(42),
        &product(),
        Lang::En,
    )
}

#[test]
fn a_failure_that_may_pass_is_sent_again_once() {
    let mut f = failed_turn();
    let overloaded = r#"{"error_type":"Overloaded"}"#;
    let FailureStep::Resend { target, items, told } = fail(&mut f, "s1", None, overloaded) else {
        panic!("not sent again");
    };
    assert_eq!(target, agentgw::bridge::worker::seats::window_name("s1"));
    assert_eq!(items, vec![("m1".to_string(), "<msg>".to_string())]);
    let FailureStep::Tell(said) = fail(&mut f, "s1", None, overloaded) else {
        panic!("not told");
    };
    assert!(said.starts_with("⚠️ "), "{said}");
    assert_eq!(told, said);
}

#[test]
fn what_is_sent_again_is_a_new_delivery() {
    let k = key("C1:1.1");
    let mut f = failed_turn();
    f.ledger.track(&k, "m2");
    f.ledger.remember_envelope(&k, "m2", "<more>");
    f.ledger.mark_received(&k);
    assert!(f.ledger.unreceived(&k).is_empty());
    let items = f.ledger.undisposed(&k);
    assert_eq!(items.len(), 2);
    let lost: Result<(), String> = Err("no window".to_string());
    assert_eq!(resent(&mut f.ledger, &k, &items, 0, &Ok(()), "⚠️ x"), ResendStep::Next);
    assert_eq!(f.ledger.unreceived(&k), strings(&["m1"]));
    assert_eq!(
        resent(&mut f.ledger, &k, &items, 1, &lost, "⚠️ x"),
        ResendStep::Tell("⚠️ x".to_string())
    );
    assert_eq!(f.ledger.unreceived(&k), strings(&["m1"]), "what was not sent is left alone");
    assert_eq!(resent(&mut f.ledger, &k, &items, 1, &Ok(()), "⚠️ x"), ResendStep::Typing);
    assert_eq!(f.ledger.unreceived(&k), strings(&["m1", "m2"]));
}

#[test]
fn the_limit_is_told_and_nothing_is_sent_into_it() {
    let mut f = failed_turn();
    let FailureStep::Limited(_) = fail(&mut f, "s1", Some(99), "{}") else {
        panic!("not limited");
    };
    assert_eq!(f.usage.limited_until_ms, 99);
    let mut g = failed_turn();
    assert!(matches!(fail(&mut g, "", Some(99), "{}"), FailureStep::Resend { .. }));
    assert_eq!(g.usage.limited_until_ms, 0);
}

#[test]
fn a_failure_without_a_thread_is_told_to_nobody() {
    let mut f = failed_turn();
    for k in [None, Some(key("C1"))] {
        let r = after_failure(
            &mut f.usage,
            &mut f.ledger,
            &f.threads,
            &f.workers,
            k.as_ref(),
            Some(99),
            TurnFailureClass::Retry,
            "words",
            Some(42),
            &product(),
            Lang::En,
        );
        assert!(matches!(r, FailureStep::Untold));
    }
    assert_eq!(error_frame("boom"), "⚠️ boom");
}

#[test]
fn an_agent_that_would_not_hear_gets_nothing_again() {
    let mut f = failed_turn();
    let k = key("C1:1.1");
    assert!(matches!(
        retry_turn_failure(&mut f.ledger, &f.threads, &f.workers, &k, None),
        RetryStep::NotReady(WorkerState::Absent)
    ));
    assert!(matches!(
        retry_turn_failure(&mut f.ledger, &f.threads, &f.workers, &key("C2:2.2"), Some(42)),
        RetryStep::Nothing
    ));
    assert!(matches!(
        retry_turn_failure(&mut f.ledger, &f.threads, &f.workers, &k, Some(42)),
        RetryStep::Send { .. }
    ));
    assert!(matches!(
        retry_turn_failure(&mut f.ledger, &f.threads, &f.workers, &k, Some(42)),
        RetryStep::Spent
    ));
}

// ── the use of the service ──────────────────────────────────────────────────

#[test]
fn the_use_is_looked_at_each_hour_and_each_quarter_at_risk() {
    let mut u = UsageState::new();
    assert!(!u.poll(1_000, 1_000, true));
    assert_eq!(u.polled_at_ms, 61_000);
    assert!(!u.poll(1_000, 61_000 + 3_599_999, true));
    assert!(!u.poll(1_000, 61_000 + 3_600_000, false), "nobody to tell");
    assert!(u.poll(1_000, 61_000 + 3_600_000, true));
    let at = u.polled_at_ms;
    u.at_risk = true;
    assert!(!u.poll(1_000, at + 899_999, true));
    assert!(u.poll(1_000, at + 900_000, true));
}

#[test]
fn a_share_is_warned_of_once_until_the_use_goes_down() {
    assert_eq!(newly_crossed(79, 0), Vec::<u32>::new());
    assert_eq!(newly_crossed(95, 0), vec![80, 90]);
    let mut u = UsageState::new();
    assert_eq!(u.take_in(85, false, None).crossed, vec![80]);
    assert!(u.take_in(86, false, None).crossed.is_empty());
    assert_eq!(u.take_in(91, true, Some(7)).crossed, vec![90]);
    assert_eq!((u.warned_pct, u.at_risk, u.limited_until_ms), (90, true, 7));
    let down = u.take_in(3, false, Some(7));
    assert!(down.rearmed && !down.gated && down.crossed.is_empty());
    assert_eq!(u.take_in(80, false, None).crossed, vec![80]);
}

#[test]
fn a_warning_goes_to_the_live_threads() {
    let hit = WallClock::new(2026, 8, 2, 21, 30);
    let mut u = UsageState::new();
    let look = |pct: u32, at_risk: bool| Look {
        pct,
        reset: "10pm".to_string(),
        projection: Some(UsageProjection { enough_data: true, at_risk, projected_hit: hit }),
        limit: None,
    };
    let live = vec![key("C1:1.1"), key("C2"), key("D3:3.3")];
    let (seen, quiet) = u.on_look(look(50, true), &live, &product(), Lang::En);
    assert!(seen.crossed.is_empty() && quiet.is_none() && u.at_risk);
    let (_, warned) = u.on_look(look(82, false), &live, &product(), Lang::En);
    let (said, to) = warned.unwrap();
    assert_eq!(
        said,
        "⚠️ You're close to your usage limit — current session *82% used*\nResets 10pm"
    );
    assert_eq!(
        to,
        vec![
            ("C1".to_string(), "1.1".to_string()),
            ("D3".to_string(), "3.3".to_string())
        ]
    );
    let (_, warned) = u.on_look(look(92, true), &live, &product(), Lang::En);
    assert!(warned.unwrap().0.contains("At this pace you'll hit the limit around "));
}

#[test]
fn the_session_is_found_whatever_its_case() {
    let row = |label: &str| UsageRow {
        label: label.to_string(),
        pct: "1".to_string(),
        reset: String::new(),
    };
    let rows = vec![row("Current week (all models)"), row("CURRENT SESSION"), row("current session")];
    assert_eq!(session_row(&rows), Some(1));
    assert_eq!(session_row(&rows[..1]), None);
}

// ── progress ────────────────────────────────────────────────────────────────

#[test]
fn an_event_becomes_a_row() {
    let k = key("C1:1.1");
    let mut b = StickyBoard::new();
    b.on_turn_start(&k);
    let payload = r#"{"hook_event_name":"PostToolUse","tool_name":"Bash","tool_use_id":"t9",
        "tool_input":{"command":"ls"},"tool_response":{"is_error":true,"content":"Permission DENIED"}}"#;
    let p = on_progress(&mut b, Some(&k), payload).unwrap();
    assert_eq!((p.id.as_str(), p.summary.as_str(), p.status), ("t9", "ls", ToolStatus::Deny));
    assert!(drawn(&mut b, "C1:1.1").unwrap().contains("🚫 Bash `ls`"));
    assert!(on_progress(&mut b, None, payload).is_none());
    assert!(on_progress(&mut b, Some(&k), r#"{"tool_input":{}}"#).is_none());
}

#[test]
fn a_call_without_an_id_is_known_by_what_it_does() {
    let f = facts_of(r#"{"hook_event_name":"PreToolUse","tool_name":"Read","tool_input":{"file_path":"/a"}}"#);
    assert_eq!(f.result_text, "null");
    let p = progress_from(f, "null").unwrap();
    assert_eq!((p.id.as_str(), p.status), ("Read:/a", ToolStatus::Pending));
}

#[test]
fn a_launch_names_the_subagent_it_started() {
    let payload = |event: &str, response: &str| {
        format!(
            r#"{{"hook_event_name":"{event}","tool_name":"Task","tool_input":{{"name":"scout"}},"tool_response":{response}}}"#
        )
    };
    let spawned = |doc: &str| progress_from(facts_of(doc), "").unwrap().agent.spawned_agent_id;
    assert_eq!(spawned(&payload("PostToolUse", r#"{"agentId":"A1"}"#)).as_deref(), Some("A1"));
    assert_eq!(spawned(&payload("PostToolUse", r#"{"agent_id":"A2"}"#)).as_deref(), Some("A2"));
    let text = payload("PostToolUse", r#"{"content":"started agentId: a_3 (bg)"}"#);
    assert_eq!(spawned(&text).as_deref(), Some("a_3"));
    assert_eq!(spawned(&payload("PreToolUse", r#"{"agentId":"A1"}"#)), None);
    assert_eq!(agent_id_in_text("agentId:  "), None);
    assert_eq!(agent_id_in_text("nothing"), None);
    let doc = facts_of(&payload("PostToolUse", r#"{"content":[{"type":"text"}]}"#));
    assert_eq!(doc.result_text, r#"[{"type":"text"}]"#);
    assert_eq!(doc.launched_name.as_deref(), Some("scout"));
}

// ── the end of a turn ───────────────────────────────────────────────────────

#[test]
fn hooks_are_known_by_name() {
    for (name, kind) in [
        ("session_start", HookKind::SessionStart),
        ("session_end", HookKind::SessionEnd),
        ("mcp_ready", HookKind::McpReady),
        ("mcp_initialized", HookKind::McpInitialized),
        ("user_prompt", HookKind::UserPrompt),
        ("perm", HookKind::Perm),
        ("error", HookKind::Error),
        ("progress", HookKind::Progress),
        ("narration", HookKind::Narration),
        ("stop", HookKind::Stop),
        ("else", HookKind::Unknown),
    ] {
        assert_eq!(HookKind::of(name), kind);
        let is_event = ["session_start", "session_end", "mcp_initialized", "user_prompt"];
        assert_eq!(kind.event(), is_event.contains(&name).then_some(name));
    }
}

#[test]
fn a_hook_tells_of_its_agent() {
    let mut w = Workers::new();
    w.mark_starting("s1");
    note_hook(&mut w, "s1", HookKind::McpReady, Some("/t.jsonl"));
    assert!(w.pool_ready("s1") && w.is_starting("s1"));
    skip_transcript(&mut w, "s1", Some(70));
    assert_eq!(w.transcripts(), vec![("s1".to_string(), "/t.jsonl".to_string(), 70)]);
    note_hook(&mut w, "s1", HookKind::UserPrompt, Some("/t.jsonl"));
    assert!(!w.is_starting("s1"));
    assert_eq!(w.transcripts()[0].2, 70);
    note_hook(&mut w, "s1", HookKind::SessionStart, Some("/u.jsonl"));
    assert_eq!(w.transcripts(), vec![("s1".to_string(), "/u.jsonl".to_string(), 0)]);
    note_hook(&mut w, "s1", HookKind::SessionEnd, None);
    assert!(w.warm("s1").unwrap().ended);
    assert!(w.transcripts().is_empty());
}

#[test]
fn a_hook_is_taken_in_by_its_payload() {
    let k = key("C1:1.1");
    let mut w = Workers::new();
    let (mut life, mut l, mut b) = (Lifecycle::new(), Ledger::new(), StickyBoard::new());
    l.track(&k, "1.2");
    w.mark_starting("s1");
    let path = r#"{"transcript_path":"/t.jsonl"}"#;
    let seen = on_hook(&mut w, &mut life, &mut l, &mut b, "s1", Some(&k), "progress", path, 10);
    assert_eq!((seen.kind, seen.line.is_none(), seen.read.len()), (HookKind::Progress, true, 0));
    assert_eq!(w.transcripts(), vec![("s1".to_string(), "/t.jsonl".to_string(), 0)]);
    assert!(w.is_starting("s1"));
    let seen = on_hook(&mut w, &mut life, &mut l, &mut b, "s1", Some(&k), "user_prompt", "{}", 20);
    assert_eq!(seen.read, strings(&["1.2"]));
    assert!(seen.line.unwrap().contains("user_prompt"));
    assert!(!w.is_starting("s1"));
    assert_eq!(life.count(&k), 1);
    let seen = on_hook(&mut w, &mut life, &mut l, &mut b, "s1", None, "session_end", "not json", 30);
    assert_eq!((seen.kind, seen.line), (HookKind::SessionEnd, None));
    assert!(w.warm("s1").unwrap().ended);
    assert_eq!(life.count(&k), 1);
}

#[test]
fn narration_and_stop_hooks_are_read() {
    let k = key("C1:1.1");
    let (mut n, mut b) = (Narrations::new(), StickyBoard::new());
    b.on_turn_start(&k);
    n.on_narration_hook(&mut b, Some(&k), r#"{"message_id":"m","delta":"Looking "}"#);
    n.on_narration_hook(&mut b, Some(&k), r#"{"message_id":"x","delta":"elsewhere"}"#);
    assert!(drawn(&mut b, "C1:1.1").is_none());
    n.on_narration_hook(&mut b, Some(&k), r#"{"message_id":"m","delta":"on","final":true}"#);
    assert_eq!(drawn(&mut b, "C1:1.1").unwrap(), "● Looking on");
    n.on_narration_hook(&mut b, Some(&k), r#"{"final":true}"#);
    assert!(drawn(&mut b, "C1:1.1").is_none(), "nothing was said");
    let (mut l, mut w) = (Ledger::new(), Workers::new());
    l.track(&k, "1.2");
    note_hook(&mut w, "s1", HookKind::McpReady, None);
    assert!(on_stop_hook(&l, &w, &mut b, Some(&k), "s1", "{}").is_some());
    let active = r#"{"stop_hook_active":true}"#;
    assert!(on_stop_hook(&l, &w, &mut b, Some(&k), "s1", active).is_none());
}

#[test]
fn a_permission_hook_is_read() {
    let payload = r#"{"tool_name":"Bash","tool_use_id":"t1","tool_input":{"command":"ls"}}"#;
    let mut threads = threads_with("1.1", "C1", "s1");
    let access = Access::new();
    let k = key("C1:1.1");
    assert!(matches!(
        on_perm_hook(ToolRule::Ask, Some(&k), payload, &threads, &access),
        PermStep::Ask { .. }
    ));
    threads.grant_thread_tool("1.1", "Bash");
    assert_eq!(
        on_perm_hook(ToolRule::Ask, Some(&k), payload, &threads, &access),
        answer(true, "Slack bridge (thread-grant)")
    );
    let (title, body) = question_for(payload);
    assert_eq!(title, "Permission: Bash");
    assert_eq!(
        body,
        ":lock: *Permission requested* — `Bash`\n```{\"command\":\"ls\"}```"
    );
    assert_eq!(question_for("{}").1, ":lock: *Permission requested* — ``\n```null```");
    let (mut p, mut s) = (PermPrompts::new(), Stalls::new());
    s.watch(&k, Stall { last_activity_ms: 0, shown: true, awaiting_perm: false });
    assert!(p.asked_by_hook(&mut s, "r1", "C1", "1.1", payload, "9.9", 1_000));
    let call = p.take("r1").unwrap();
    assert_eq!((call.tool_name.as_str(), call.tool_use_id.as_str()), ("Bash", "t1"));
    assert_eq!((call.prompt_ts.as_str(), call.deadline_ms), ("9.9", 1_000 + PERM_WAIT_MS));
}

#[test]
fn a_thread_that_starts_over_counts_anew() {
    let mut l = Lifecycle::new();
    let k = key("C1:1.1");
    l.record(&k, "ready", 1_000);
    l.record(&k, "user_prompt", 2_000);
    let m = l.record(&k, "spawn", 9_000);
    assert_eq!((m.seq, m.since_prev_ms, m.since_spawn_ms), (1, 0, 0));
}

#[test]
fn events_of_a_thread_are_timed() {
    let mut l = Lifecycle::new();
    assert!(milestone(&mut l, None, "spawn", 1).is_none());
    let k = key("C1:1.1");
    let first = milestone(&mut l, Some(&k), "spawn", 1_000).unwrap();
    let second = milestone(&mut l, Some(&k), "ready", 3_500).unwrap();
    assert!(first.contains("spawn") && second.contains("ready"), "{first} / {second}");
    assert_ne!(first, second);
    assert_eq!(l.count(&k), 2);
}

#[test]
fn a_turn_that_starts_is_a_receipt() {
    let k = key("C1:1.1");
    let (mut l, mut b) = (Ledger::new(), StickyBoard::new());
    l.track(&k, "1.2");
    assert!(seeks_receipts(&l, &k));
    assert_eq!(on_turn_start(&mut l, &mut b, Some(&k)), strings(&["1.2"]));
    assert!(!seeks_receipts(&l, &k));
    assert!(on_turn_start(&mut l, &mut b, Some(&k)).is_empty());
    assert!(on_turn_start(&mut l, &mut b, None).is_empty());
}

#[test]
fn a_transcript_shows_what_was_read() {
    let k = key("C1:1.1");
    let (mut l, mut b, mut w) = (Ledger::new(), StickyBoard::new(), Workers::new());
    l.track(&k, "1.2");
    l.track(&k, "1.3");
    assert!(on_transcript(&mut l, &mut b, &k, "nothing of note").is_empty());
    let lines = r#"{"content":"<message message_id=\"1.3\">hi</message>"}"#;
    let ids = scan_transcript(&mut w, &mut l, &mut b, "s1", &k, lines, 90);
    assert_eq!(ids, strings(&["1.3"]));
    assert_eq!(w.warm("s1").unwrap().transcript_offset, 90);
    assert_eq!(l.unreceived(&k), strings(&["1.2"]));
}

#[test]
fn a_narration_is_collected_and_cut() {
    let k = key("C1:1.1");
    let (mut n, mut b) = (Narrations::new(), StickyBoard::new());
    b.on_turn_start(&k);
    n.on_narration(&mut b, Some(&k), "m", "Looking ", false);
    n.on_narration(&mut b, Some(&k), "m", "around", true);
    assert_eq!(drawn(&mut b, "C1:1.1").unwrap(), "● Looking around");
    n.on_narration(&mut b, Some(&k), "m", &"x".repeat(700), true);
    let all = drawn(&mut b, "C1:1.1").unwrap();
    assert!(all.ends_with('…') && all.len() < 650, "{}", all.len());
    n.on_narration(&mut b, None, "m", "lost", true);
    n.on_narration(&mut b, Some(&k), "m", "", true);
    assert!(drawn(&mut b, "C1:1.1").is_none());
}

#[test]
fn an_agent_that_owes_an_answer_is_kept_once() {
    let k = key("C1:1.1");
    let (mut l, mut w, mut b) = (Ledger::new(), Workers::new(), StickyBoard::new());
    l.track(&k, "1.2");
    assert!(on_stop(&l, &w, &mut b, Some(&k), "s1", false).is_none(), "it has no tools");
    note_hook(&mut w, "s1", HookKind::McpReady, None);
    let kept = on_stop(&l, &w, &mut b, Some(&k), "s1", false).unwrap();
    assert_eq!(kept.decision, "block");
    assert!(kept.reason.ends_with(" Outstanding message_ids: [1.2]"), "{}", kept.reason);
    assert!(on_stop(&l, &w, &mut b, Some(&k), "s1", true).is_none());
    assert!(on_stop(&l, &w, &mut b, None, "s1", false).is_none());
    l.dispose_all(&k);
    assert!(on_stop(&l, &w, &mut b, Some(&k), "s1", false).is_none());
}

fn disposition(kind: &'static str, root: Option<&str>, ids: &[&str]) -> Disposition {
    Disposition {
        kind,
        channel_id: "C1".to_string(),
        thread_ts: root.map(|s| s.to_string()),
        message_ids: strings(ids),
        session_id: "s1".to_string(),
    }
}

#[test]
fn an_answer_settles_what_it_covers() {
    let k = key("C1:1.1");
    let threads = threads_with("1.1", "C1", "s1");
    let (mut l, mut s, mut b) = (Ledger::new(), Stalls::new(), StickyBoard::new());
    l.track(&k, "1.2");
    l.track(&k, "1.3");
    s.watch(&k, Stall { last_activity_ms: 0, shown: false, awaiting_perm: false });
    b.on_turn_start(&k);
    b.push_narration(&k, "done");
    b.set_posted(&k, "9.9");
    let d = disposition("reply", None, &["1.2"]);
    let r = on_disposition(&threads, &mut l, &mut s, &mut b, &d, Lang::En).unwrap();
    assert_eq!(r.key.as_str(), "C1:1.1");
    assert_eq!(r.last, Some((Some("9.9".to_string()), "● done".to_string())));
    assert!(r.delete.is_none() && s.get(&k).is_none());
    assert_eq!(l.pending(&k), strings(&["1.3"]));
    b.on_turn_start(&k);
    b.push_narration(&k, "hm");
    b.set_posted(&k, "9.8");
    let d = disposition("no_reply", Some("1.1"), &[]);
    let r = on_disposition(&threads, &mut l, &mut s, &mut b, &d, Lang::En).unwrap();
    assert_eq!((r.last.is_none(), r.delete.as_deref()), (true, Some("9.8")));
    assert!(l.pending(&k).is_empty());
    let d = disposition("reply", None, &[]);
    assert!(on_disposition(&Threads::new(), &mut l, &mut s, &mut b, &d, Lang::En).is_none());
}

#[test]
fn an_empty_drawing_is_not_sent() {
    assert_eq!(FlushStep::of(true, ""), FlushStep::Nothing);
    assert_eq!(FlushStep::of(true, "x"), FlushStep::Update);
    assert_eq!(FlushStep::of(false, "x"), FlushStep::Post);
}
