use agentgw::bridge::state::access::{Access, AccessOp, Route};
use agentgw::bridge::state::decide::{
    absolute_project_path, is_machine_name, no_such_folder, Disposition, NoticeTarget, PoolRestore,
    PoolStatus, StallAction, LOOP_LIMIT, STOP_BLOCK_REASON,
};
use agentgw::bridge::state::ledger::Ledger;
use agentgw::bridge::state::pool_key::{Lifecycle, Milestone, PoolKey};
use agentgw::bridge::state::pools::Pools;
use agentgw::bridge::state::threads::{ThreadEntry, Threads};
use agentgw::chat::{deletion_notice, ChannelKind, InboundMsg, ThreadKey};
use agentgw::i18n::Lang;

fn key(s: &str) -> ThreadKey {
    ThreadKey::parse(s)
}

fn in_channel(channel: &str) -> ThreadEntry {
    ThreadEntry { channel_id: Some(channel.to_string()), ..ThreadEntry::default() }
}

fn route(repo: &str, warm: Option<bool>, bridge: Option<&str>) -> Route {
    Route {
        repo_path: Some(repo.to_string()),
        warm,
        bridge: bridge.map(|b| b.to_string()),
        ..Route::default()
    }
}

fn strings(list: &[&str]) -> Vec<String> {
    list.iter().map(|s| s.to_string()).collect()
}

#[test]
fn notice_target_prefers_home_channel() {
    assert!(matches!(NoticeTarget::of(Some("C1"), "U1"), NoticeTarget::Home(c) if c == "C1"));
}

#[test]
fn notice_target_falls_back_to_owner_dm() {
    assert!(matches!(NoticeTarget::of(None, "U1"), NoticeTarget::OwnerDm(u) if u == "U1"));
}

#[test]
fn notice_target_silent_without_either() {
    assert!(matches!(NoticeTarget::of(None, ""), NoticeTarget::None_));
}

#[test]
fn a_deletion_tells_the_worker_to_discard_and_the_ledger_finds_its_thread() {
    let n = deletion_notice("1.2", "  やっぱりやめて  ", false);
    assert!(n.starts_with("[message_deleted] The user DELETED their own message (id 1.2)."));
    assert!(n.contains("Its content was:\n\"\"\"\nやっぱりやめて\n\"\"\""));
    assert!(n.contains("call no_reply and output nothing"));
    assert!(n.ends_with("Never output any text merely stating that the message was deleted."));
    assert!(deletion_notice("1.2", "", true).contains("it was a file/attachment upload"));
    assert!(deletion_notice("1.2", "", false).contains("Its text is unavailable."));
    assert!(deletion_notice("1.2", &"あ".repeat(1500), false).contains("… (truncated)"));

    let mut l = Ledger::new();
    let k = key("C1:1.0");
    l.track(&k, "1.2");
    assert_eq!(l.key_of_id("1.2"), Some(k));
    assert_eq!(l.key_of_id("9.9"), None, "答え済み・無関係な id は引けない");
}

fn inbound(ts: &str, text: &str) -> InboundMsg {
    InboundMsg {
        channel: "C1".to_string(),
        channel_kind: ChannelKind::Channel,
        ts: ts.to_string(),
        thread_ts: Some("1.0".to_string()),
        user: Some("U1".to_string()),
        is_bot: false,
        bot_id: None,
        text: text.to_string(),
        files: Vec::new(),
        file_paths: vec!["/tmp/a.png".to_string()],
        file_errors: Vec::new(),
        reaction: None,
        deleted_ts: None,
        edited: None,
    }
}

#[test]
fn undelivered_messages_survive_a_restart_through_threads_json() {
    let mut t = Threads::new();
    assert!(t.threads_with_pending().is_empty());
    t.enqueue_pending("1.0", "C1", &inbound("1.1", "ひとつ目"));
    t.enqueue_pending("1.0", "C1", &inbound("1.2", "ふたつ目"));
    t.enqueue_pending("1.0", "C1", &inbound("1.1", "ひとつ目(再)"));
    assert_eq!(t.threads_with_pending(), vec!["1.0"], "1スレッドに溜まる");

    let mut t = Threads { entries: t.entries };
    let out = t.drain_pending("1.0");
    assert_eq!(out.len(), 2, "同じ id は二度積まない");
    assert_eq!(out[0].ts, "1.1");
    assert_eq!(out[0].text, "ひとつ目");
    assert_eq!(out[0].thread_ts.as_deref(), Some("1.0"));
    assert_eq!(out[0].file_paths, vec!["/tmp/a.png"], "添付も持ち越す");
    assert!(t.threads_with_pending().is_empty(), "取り出したら消える");
    assert!(t.drain_pending("9.9").is_empty(), "知らないスレッドは空");
}

#[test]
fn the_loop_guard_counts_bot_messages_and_a_human_resumes_the_thread() {
    let mut t = Threads::new();
    assert_eq!(t.bump_bot_streak("1.0"), 0, "知らないスレッドは数えない");
    t.upsert("1.0", in_channel("C1"));
    for n in 1..LOOP_LIMIT {
        assert_eq!(t.bump_bot_streak("1.0"), n);
        assert_eq!(t.status_of("1.0"), "active", "上限までは止めない");
    }
    assert_eq!(t.bump_bot_streak("1.0"), LOOP_LIMIT);
    t.pause("1.0");
    assert_eq!(t.status_of("1.0"), "paused");
    assert!(!t.is_active("1.0"), "止まったスレッドは動いていない");

    assert!(t.reset_bot_streak("1.0"), "止まっていたことを返す");
    assert_eq!(t.status_of("1.0"), "active");
    assert_eq!(t.bump_bot_streak("1.0"), 1, "連続数は 0 に戻っている");
    assert!(!t.reset_bot_streak("1.0"), "止まっていなければ false");
}

#[test]
fn a_thread_is_active_once_it_exists_even_without_a_session() {
    let mut t = Threads::new();
    assert!(!t.is_active("1.0"), "知らないスレッドは動いていない");
    t.upsert("1.0", in_channel("C1"));
    assert!(t.is_active("1.0"), "agent_id が無くても動いている扱い");
    for status in ["pending", "paused"] {
        let mut e = in_channel("C1");
        e.status = Some(status.to_string());
        t.upsert("2.0", e);
        assert!(!t.is_active("2.0"), "{status} は動いていない");
    }
}

#[test]
fn lifecycle_resets_on_spawn_and_counts() {
    let mut lc = Lifecycle::new();
    let m = lc.record(&key("C1:1.0"), "spawn", 1000);
    assert_eq!((m.seq, m.since_prev_ms, m.since_spawn_ms), (1, 0, 0));
    let m = lc.record(&key("C1:1.0"), "session_start", 1450);
    assert_eq!((m.seq, m.since_prev_ms, m.since_spawn_ms), (2, 450, 450));
    let m = lc.record(&key("C1:1.0"), "user_prompt", 2000);
    assert_eq!((m.seq, m.since_prev_ms, m.since_spawn_ms), (3, 550, 1000));
    let m = lc.record(&key("C1:1.0"), "spawn", 5000);
    assert_eq!((m.seq, m.since_prev_ms, m.since_spawn_ms), (1, 0, 0));
    let m = lc.record(&key("C2:2.0"), "session_start", 100);
    assert_eq!((m.seq, m.since_spawn_ms), (1, 0));
    assert_eq!(lc.count(&key("C2:2.0")), 1);
}

#[test]
fn milestone_message_matches_current_format() {
    let m = Milestone { seq: 3, since_prev_ms: 550, since_spawn_ms: 1000 };
    assert_eq!(
        m.message(&key("C1:1.0"), "user_prompt"),
        "thread=C1:1.0 #3 user_prompt +550ms (since spawn +1000ms)"
    );
}

#[test]
fn threads_find_by_session() {
    let mut reg = Threads::new();
    reg.upsert("171.001", ThreadEntry::new("C1", "sid-1"));
    let (ts, e) = reg.find_by_session("sid-1").unwrap();
    assert_eq!(ts, "171.001");
    assert_eq!(e.channel_id.as_deref(), Some("C1"));
    assert_eq!(reg.key_of_session("sid-1").unwrap().as_str(), "C1:171.001");
    assert_eq!(reg.root_of_session("sid-1").as_deref(), Some("171.001"));
    assert!(reg.find_by_session("sid-2").is_none());
}

#[test]
fn surviving_keeps_only_threads_whose_worker_is_alive() {
    let mut reg = Threads::new();
    reg.upsert("171.001", ThreadEntry::new("C1", "sid-live"));
    reg.upsert("171.002", ThreadEntry::new("C1", "sid-dead"));
    reg.upsert("171.003", in_channel("C1"));
    let keys: Vec<ThreadKey> = ["C1:171.001", "C1:171.002", "C1:171.003", "C1:171.404", "C1"]
        .iter()
        .map(|k| key(k))
        .collect();
    let kept = reg.surviving(&keys, |sid: &str| sid == "sid-live");
    assert_eq!(
        kept.iter().map(|k| k.as_str()).collect::<Vec<_>>(),
        vec!["C1:171.001"],
        "生きている1本だけが残る(死んだ / セッション未割当 / 台帳に無い / スレッド無しは落ちる)"
    );
}

#[test]
fn access_mutations_are_pure_and_verbatim() {
    let mut prev = Access::new();
    prev.owner = "U1".to_string();
    let (a, msg, warns) = prev
        .apply(
            AccessOp::SetRepo { channel: "C1".to_string(), path: "/repo".to_string() },
            Lang::En,
        )
        .unwrap();
    assert_eq!(a.routes.get("C1").unwrap().repo_path.as_deref(), Some("/repo"));
    assert_eq!(msg, "<#C1> now uses the project directory `/repo`.");
    assert!(warns.is_empty());
    assert_eq!(prev.routes.len(), 0);
    assert!(prev
        .apply(AccessOp::SetRepo { channel: "C1".to_string(), path: "rel".to_string() }, Lang::En)
        .is_err());
    let (a2, msg2, warns2) = prev
        .apply(AccessOp::SetWarm { channel: "C2".to_string(), on: true }, Lang::En)
        .unwrap();
    assert_eq!(a2.routes.get("C2").unwrap().warm, Some(true));
    assert!(msg2.contains("started ahead of time"));
    assert_eq!(warns2.len(), 1);
    let (a3, _, _) = prev.apply(AccessOp::BotAllow("B9".to_string()), Lang::En).unwrap();
    let (a4, _, _) = a3.apply(AccessOp::BotAllow("B9".to_string()), Lang::En).unwrap();
    assert_eq!(a4.allowed_bots, vec!["B9"]);
    let (_, msg5, _) = a4.apply(AccessOp::BotRemove("B0".to_string()), Lang::En).unwrap();
    assert_eq!(msg5, "B0 is not an allowed bot.");
}

#[test]
fn repo_path_resolves_like_spawn() {
    let mut a = Access::new();
    a.routes.insert("C1".to_string(), route("/r", None, None));
    assert_eq!(a.repo_path("C1", "/home"), ("/r".to_string(), false));
    assert_eq!(a.repo_path("C2", "/home"), ("/home".to_string(), true));
}

#[test]
fn pool_targets_empty_without_owner() {
    let mut a = Access::new();
    a.owner = String::new();
    assert!(a.pool_targets("/home", "me").is_empty());
}

#[test]
fn pool_targets_always_includes_home_plus_distinct_repos() {
    let mut a = Access::new();
    a.owner = "U1".to_string();
    a.routes.insert("C1".to_string(), route("/repo/a", None, None));
    a.routes.insert("C2".to_string(), route("/repo/a", Some(false), None));
    a.routes.insert("C3".to_string(), route("/repo/b", Some(true), None));
    let pools = a.pool_targets("/home", "me");
    let cwds: Vec<&str> = pools.iter().map(|p| p.as_str()).collect();
    assert!(cwds.contains(&"/home"));
    assert!(
        cwds.contains(&"/repo/a"),
        "opt-in on C1 stocks the pool even though C2 opted out"
    );
    assert!(cwds.contains(&"/repo/b"));
    assert_eq!(cwds.len(), 3, "distinct repo_path collapses C1/C2 into one pool");
}

#[test]
fn pool_targets_excludes_repo_when_every_route_opts_out() {
    let mut a = Access::new();
    a.owner = "U1".to_string();
    a.routes.insert("C1".to_string(), route("/repo/c", Some(false), None));
    let pools = a.pool_targets("/home", "me");
    assert!(!pools.iter().any(|p| p == "/repo/c"));
}

#[test]
fn pool_targets_skip_folders_that_belong_to_another_machine() {
    let mut a = Access::new();
    a.owner = "U1".to_string();
    a.routes.insert("C_MINE".to_string(), route("/repo/mine", None, None));
    a.routes.insert("C_THEIRS".to_string(), route("/repo/theirs", None, Some("other")));
    let pools = a.pool_targets("/home", "me");
    assert!(pools.iter().any(|p| p == "/repo/mine"), "{pools:?}");
    assert!(!pools.iter().any(|p| p == "/repo/theirs"), "{pools:?}");
}

#[test]
fn pool_key_is_stable_and_repo_scoped() {
    assert_eq!(PoolKey::of_cwd("/repo/a"), PoolKey::of_cwd("/repo/a"));
    assert_ne!(PoolKey::of_cwd("/repo/a"), PoolKey::of_cwd("/repo/b"));
    assert!(PoolKey::of_cwd("/repo/a").as_str().starts_with("repo-"));
}

#[test]
fn tool_grants_round_trip_under_the_current_key() {
    let mut t = Threads::new();
    t.grant_thread_tool("1.0", "Bash");
    t.grant_thread_tool("1.0", "Bash");
    t.grant_thread_tool("1.0", "Edit");
    assert!(t.thread_tool_allowed("1.0", "Bash"));
    assert!(t.thread_tool_allowed("1.0", "Edit"));
    assert!(!t.thread_tool_allowed("1.0", "Write"));
    assert!(!t.thread_tool_allowed("2.0", "Bash"), "別スレッドには効かない");
    assert_eq!(
        t.get("1.0").unwrap().allowed_tools,
        Some(strings(&["Bash", "Edit"])),
        "重複して積まれている"
    );

    let mut a = Access::new();
    a.owner = "U1".to_string();
    let mut r = route("/r", None, None);
    r.extra = "{\"futureThing\":{\"k\":1}}".to_string();
    a.routes.insert("C1".to_string(), r);
    a.grant_channel_tool("C1", "Bash");
    assert!(a.channel_tool_allowed("C1", "Bash"));
    assert!(!a.channel_tool_allowed("C2", "Bash"));
    assert_eq!(a.routes.get("C1").unwrap().allowed_tools, Some(strings(&["Bash"])));
    assert!(
        a.routes.get("C1").unwrap().extra.contains("futureThing"),
        "未知フィールドが消えた"
    );
}

#[test]
fn should_claim_pool_only_for_brand_new_threads() {
    assert!(Threads::should_claim_pool(None));
    let e = ThreadEntry { agent_id: Some("s".to_string()), ..ThreadEntry::default() };
    assert!(!Threads::should_claim_pool(Some(&e)));
}

#[test]
fn pool_assignment_entry_carries_repo_and_channel() {
    let e = ThreadEntry::for_pool_assignment("C1", "/repo/a", Some("t".to_string()));
    assert_eq!(e.channel_id.as_deref(), Some("C1"));
    assert_eq!(e.repo_path.as_deref(), Some("/repo/a"));
    assert_eq!(e.topic.as_deref(), Some("t"));
    assert_eq!(e.agent_id, None);
}

#[test]
fn pool_needs_launch_rules() {
    assert!(PoolStatus::needs_launch(None));
    assert!(!PoolStatus::needs_launch(Some(PoolStatus { present: true, gave_up: false })));
    assert!(!PoolStatus::needs_launch(Some(PoolStatus { present: false, gave_up: true })));
    assert!(PoolStatus::needs_launch(Some(PoolStatus { present: false, gave_up: false })));
}

#[test]
fn pool_give_up_after_timeout() {
    assert!(!PoolStatus::should_give_up(1_000, 1_000 + 49_999, 50_000));
    assert!(PoolStatus::should_give_up(1_000, 1_000 + 50_001, 50_000));
}

#[test]
fn pool_nominations_are_released_both_ways() {
    let mut p = Pools::from_str(r#"{"/repo/a":"sid-a","/repo/b":"sid-b"}"#).unwrap();
    assert_eq!(p.release("/repo/a").as_deref(), Some("sid-a"));
    assert_eq!(p.session_of("/repo/a"), None);
    assert_eq!(p.release_session("sid-b").as_deref(), Some("/repo/b"));
    assert!(p.rows().is_empty());
    assert_eq!(p.release("/repo/zzz"), None);
    assert_eq!(p.release_session("sid-zzz"), None);
}

#[test]
fn pool_nominations_are_listed_by_directory() {
    let mut p = Pools::new();
    p.nominate("/repo/a", "sid-a");
    p.nominate("/home/u", "sid-h");
    assert_eq!(
        p.rows(),
        vec![
            ("/home/u".to_string(), "sid-h".to_string()),
            ("/repo/a".to_string(), "sid-a".to_string()),
        ]
    );
    assert_eq!(p.sessions().len(), 2);
}

#[test]
fn pool_restore_decides_by_configuration_and_liveness() {
    assert_eq!(PoolRestore::decide(true, true), PoolRestore::Adopt);
    assert_eq!(PoolRestore::decide(true, false), PoolRestore::Respawn);
    assert_eq!(PoolRestore::decide(false, true), PoolRestore::Discard);
    assert_eq!(PoolRestore::decide(false, false), PoolRestore::Discard);
}

#[test]
fn ledger_tracks_receives_and_disposes() {
    let mut l = Ledger::new();
    l.track(&key("C1:1.0"), "1.1");
    l.track(&key("C1:1.0"), "1.2");
    assert_eq!(l.pending(&key("C1:1.0")), vec!["1.1", "1.2"]);
    assert_eq!(l.pending_keys(), vec![key("C1:1.0")]);
    assert_eq!(l.mark_received(&key("C1:1.0")), vec!["1.1", "1.2"]);
    assert!(l.mark_received(&key("C1:1.0")).is_empty());
    assert_eq!(l.pending(&key("C1:1.0")).len(), 2);
    l.disposed(&key("C1:1.0"), &["1.1".to_string()]);
    assert_eq!(l.pending(&key("C1:1.0")), vec!["1.2"]);
    assert_eq!(l.dispose_all(&key("C1:1.0")), vec!["1.2"]);
    assert!(l.pending(&key("C1:1.0")).is_empty());
    assert!(l.pending_keys().is_empty(), "全消化した鍵は予告先に残らない");
    l.track(&key("C1:1.0"), "1.3");
    l.mark_received(&key("C1:1.0"));
    l.track(&key("C1:1.0"), "1.3");
    assert_eq!(l.mark_received(&key("C1:1.0")), vec!["1.3"]);
}

#[test]
fn ledger_remembers_envelopes_and_spends_retry_budget_atomically() {
    let k = key("C1:1.0");
    let mut l = Ledger::new();
    l.track(&k, "m1");
    l.track(&k, "m2");
    assert!(l.undisposed(&k).is_empty(), "封筒が無ければ再送候補に出ない");

    l.remember_envelope(&k, "m1", "envelope-1");
    assert_eq!(l.undisposed(&k), vec![("m1".to_string(), "envelope-1".to_string())]);

    let both = ["m1".to_string(), "m2".to_string()];
    l.remember_envelope(&k, "m2", "envelope-2");
    assert!(l.spend_retry(&k, &both, 1));
    assert!(!l.spend_retry(&k, &both, 1), "2回目は予算切れ");

    l.disposed(&k, &both);
    l.track(&k, "m3");
    l.remember_envelope(&k, "m3", "envelope-3");
    assert!(l.spend_retry(&k, &["m3".to_string()], 1));

    assert!(!l.spend_retry(&k, &["m3".to_string(), "nope".to_string()], 9));
}

#[test]
fn ledger_is_carried_by_the_threads_and_keeps_only_the_kept_keys() {
    let (live, dead) = (key("C1:1.0"), key("C1:2.0"));
    let mut threads = Threads::new();
    for ts in ["1.0", "2.0"] {
        threads.upsert(ts, ThreadEntry::new("C1", "sid-1"));
    }
    let mut l = Ledger::load(&threads);
    assert!(l.flush(&mut threads).is_none(), "変更が無ければ書かない");

    l.track(&live, "m1");
    l.remember_envelope(&live, "m1", "envelope-1");
    l.track(&live, "m2");
    l.mark_received(&live);
    l.track(&dead, "m9");
    assert!(l.spend_retry(&live, &["m1".to_string()], 2));
    assert!(l.flush(&mut threads).unwrap().is_empty());
    assert!(l.flush(&mut threads).is_none(), "2回目は dirty が下りている");

    let mut next = Ledger::load(&threads);
    assert_eq!(next.pending_keys().len(), 2);
    next.retain_keys(std::slice::from_ref(&live));
    assert_eq!(next.pending(&live), vec!["m1", "m2"]);
    assert!(next.pending(&dead).is_empty());
    assert_eq!(next.undisposed(&live), vec![("m1".to_string(), "envelope-1".to_string())]);
    assert!(next.unreceived(&live).is_empty(), "受領済みは受領のまま");
    assert!(!next.spend_retry(&live, &["m1".to_string()], 1), "予算は使用済み");
}

#[test]
fn ledger_marks_only_the_ids_the_worker_actually_read() {
    let mut l = Ledger::new();
    l.track(&key("C1:1.0"), "1.1");
    l.track(&key("C1:1.0"), "1.2");
    assert_eq!(l.unreceived(&key("C1:1.0")), vec!["1.1", "1.2"]);
    assert_eq!(l.mark_received_ids(&key("C1:1.0"), &["1.2".to_string()]), vec!["1.2"]);
    assert_eq!(l.unreceived(&key("C1:1.0")), vec!["1.1"]);
    assert!(l.mark_received_ids(&key("C1:1.0"), &["1.2".to_string()]).is_empty());
    assert_eq!(l.pending(&key("C1:1.0")).len(), 2);
    assert!(l.mark_received_ids(&key("C9:9.9"), &["1.1".to_string()]).is_empty());
}

#[test]
fn transcript_scan_finds_the_envelope_id_escaped_in_jsonl() {
    let ids = vec!["1783500885.490429".to_string(), "1.2".to_string()];
    let real = r#"{"type":"user","message":{"content":"<channel source=\"plugin:agentgw:agentgw\" channel_id=\"C1\" message_id=\"1783500885.490429\" user=\"U1\">\nhi\n</channel>"}}"#;
    assert_eq!(Ledger::find_received_ids(real, &ids), vec!["1783500885.490429"]);
    assert_eq!(Ledger::find_received_ids(r#"message_id="1.2""#, &ids), vec!["1.2"]);
    assert!(Ledger::find_received_ids(r#"message_ids=[\"1.2\"]"#, &ids).is_empty());
    assert!(Ledger::find_received_ids("the message 1.2 arrived", &ids).is_empty());
    assert!(Ledger::find_received_ids(r#"message_id=\"1.25\""#, &ids).is_empty());
    assert!(Ledger::find_received_ids("", &ids).is_empty());
}

#[test]
fn stop_block_truth_table() {
    assert!(Disposition::should_block_stop(true, false, true, 1));
    assert!(!Disposition::should_block_stop(false, false, true, 1));
    assert!(!Disposition::should_block_stop(true, true, true, 1));
    assert!(!Disposition::should_block_stop(true, false, false, 1));
    assert!(!Disposition::should_block_stop(true, false, true, 0));
}

#[test]
fn stall_watchdog_truth_table() {
    const S: u64 = 5_000;
    assert!(StallAction::due(0, S, false, true, S));
    assert!(!StallAction::due(0, S - 1, false, true, S), "1ms 手前ではまだ黙る");
    assert!(!StallAction::due(0, S, true, true, S), "出している間は二度撃たない");
    assert!(
        !StallAction::due(0, S, false, false, S),
        "未応答が無い = 決着済み。応答待ちを蒸し返さない"
    );
    assert!(!StallAction::due(S, S, false, true, S));
    assert!(!StallAction::due(S * 2, S, false, true, S));
}

#[test]
fn stall_tick_action_table() {
    const S: u64 = 5_000;
    assert_eq!(StallAction::of(true, 0, S, false, S), StallAction::Fire);
    assert_eq!(StallAction::of(true, S, S, false, S), StallAction::Nothing);
    assert_eq!(StallAction::of(true, 0, S, true, S), StallAction::Nothing);
    assert_eq!(StallAction::of(false, 0, S, true, S), StallAction::Settle);
    assert_eq!(StallAction::of(false, 0, S, false, S), StallAction::Settle);
    assert_eq!(
        StallAction::of(false, S, S, false, S),
        StallAction::Settle,
        "直前の活動より決着が優先"
    );
}

#[test]
fn stop_block_output_shape() {
    let v = Disposition::block_output(&["1.1".to_string(), "2.2".to_string()]);
    assert_eq!(v.decision, "block");
    assert!(v.reason.starts_with("You ended your turn without delivering."));
    assert!(v.reason.starts_with(STOP_BLOCK_REASON));
    assert!(
        v.reason.ends_with("Outstanding message_ids: [1.1, 2.2]"),
        "{}",
        v.reason
    );
}

#[test]
fn ack_emoji_defaults_to_eyes() {
    let mut access = Access::new();
    assert_eq!(access.ack_emoji(), "eyes");
    access.ack_reaction = Some("spiral_note_pad".to_string());
    assert_eq!(access.ack_emoji(), "spiral_note_pad");
}

#[test]
fn project_paths_become_absolute_under_home() {
    for (typed, want) in [
        ("/srv/app", "/srv/app"),
        ("/srv/app/", "/srv/app"),
        ("~", "/home/me"),
        ("~/dev/x", "/home/me/dev/x"),
        ("./dev/x", "/home/me/dev/x"),
        ("/", "/"),
    ] {
        assert_eq!(absolute_project_path(typed, "/home/me"), want, "{typed}");
    }
}

#[test]
fn machine_names_are_narrow() {
    for ok in ["dock", "tyo-mpv5l", "a.b_c", "9"] {
        assert!(is_machine_name(ok), "{ok}");
    }
    for bad in ["", "-x", ".x", "a b", "の使い方", "a/b", "<@U1>"] {
        assert!(!is_machine_name(bad), "{bad}");
    }
}

// ── more of the settings ────────────────────────────────────────────────────

#[test]
fn a_relative_path_is_refused_in_both_languages() {
    let a = Access::new();
    let op = || AccessOp::SetRepo { channel: "C1".to_string(), path: "rel".to_string() };
    let en = a.apply(op(), Lang::En).unwrap_err();
    let ja = a.apply(op(), Lang::Ja).unwrap_err();
    assert_ne!(en, ja);
    assert!(en.is_ascii(), "{en}");
}

#[test]
fn a_removed_bot_is_gone_and_the_rest_stays() {
    let mut a = Access::new();
    a.allowed_bots = strings(&["B1", "B2", "B3"]);
    let (b, _, _) = a.apply(AccessOp::BotRemove("B2".to_string()), Lang::En).unwrap();
    assert_eq!(b.allowed_bots, vec!["B1", "B3"]);
    assert_eq!(a.allowed_bots.len(), 3);
}

#[test]
fn the_home_channel_is_set() {
    let a = Access::new();
    let (b, _, _) = a.apply(AccessOp::SetHome("C9".to_string()), Lang::En).unwrap();
    assert_eq!(b.home_channel.as_deref(), Some("C9"));
    let (c, _, _) = b.apply(AccessOp::SetHome("C9".to_string()), Lang::En).unwrap();
    assert_eq!(c.home_channel.as_deref(), Some("C9"));
}

#[test]
fn a_channel_is_handed_to_a_machine() {
    let mut a = Access::new();
    a.set_bridge("C1", "dock");
    assert_eq!(a.bridges().get("C1").map(|s| s.as_str()), Some("dock"));
    assert!(a.bridges().get("C2").is_none());
}

#[test]
fn a_missing_folder_is_named_with_its_machine() {
    let s = no_such_folder("/x", "dock", Lang::En);
    assert!(s.contains("/x") && s.contains("dock"), "{s}");
}

#[test]
fn a_thread_forgets_only_the_agent_it_had() {
    let mut t = Threads::new();
    t.upsert("1.0", ThreadEntry::new("C1", "sid-1"));
    assert!(!t.drop_agent("1.0", "sid-2"));
    assert_eq!(t.get("1.0").unwrap().agent_id.as_deref(), Some("sid-1"));
    assert!(t.drop_agent("1.0", "sid-1"));
    assert_eq!(t.get("1.0").unwrap().agent_id, None);
    assert_eq!(t.get("1.0").unwrap().channel_id.as_deref(), Some("C1"));
    t.forget("1.0");
    assert!(t.get("1.0").is_none());
    assert!(t.roots().is_empty());
}

#[test]
fn pool_nominations_are_read_back_as_they_were_written() {
    let mut p = Pools::new();
    p.nominate("/repo/\"a\"", "sid-a");
    p.nominate("/home/u", "sid-h");
    let again = Pools::from_str(&p.to_string_pretty()).unwrap();
    assert_eq!(again.rows(), p.rows());
    assert_eq!(again.session_of("/repo/\"a\""), Some("sid-a"));
    let why = Pools::from_str("{ not json").err().unwrap();
    assert!(why.starts_with("key must be a string"), "{why}");
    assert!(Pools::from_str(r#"{"/a":1}"#).is_err());
    assert_eq!(Pools::new().to_string_pretty(), "{}");
}

#[test]
fn only_the_owner_and_bots_that_are_let_in_get_in() {
    let mut a = Access::new();
    assert!(!a.lets_in(Some(""), None), "without an owner nobody gets in");
    a.allowed_bots = vec!["B1".to_string()];
    assert!(!a.lets_in(None, Some("B1")), "without an owner no bot gets in either");
    a.owner = "U1".to_string();
    assert!(a.lets_in(Some("U1"), None) && a.lets_in(None, Some("B1")));
    assert!(!a.lets_in(Some("U2"), None) && !a.lets_in(Some("U1"), Some("B2")));
    assert!(!a.lets_in(None, None));
}

#[test]
fn parked_messages_come_out_once_and_in_order() {
    let mut t = Threads::new();
    assert!(t.drain_pending("1.0").is_empty(), "an unknown thread has none");
    t.enqueue_pending("9.0", "C9", &inbound("9.1", "elsewhere"));
    for (ts, text) in [("1.1", "a"), ("1.2", "b"), ("1.1", "a again"), ("1.3", "c")] {
        t.enqueue_pending("1.0", "C1", &inbound(ts, text));
    }
    let out = t.drain_pending("1.0");
    let texts: Vec<&str> = out.iter().map(|m| m.text.as_str()).collect();
    assert_eq!(texts, ["a", "b", "c"]);
    assert!(out.iter().all(|m| m.thread_ts.as_deref() == Some("1.0")));
    assert!(t.drain_pending("1.0").is_empty());
    assert_eq!(t.threads_with_pending(), vec!["9.0".to_string()]);
}
