use agentgw::bridge::state::access::Access;
use agentgw::bridge::state::decide::PoolRestore;
use agentgw::bridge::state::ledger::Ledger;
use agentgw::bridge::state::pool_key::PoolKey;
use agentgw::bridge::state::pools::Pools;
use agentgw::bridge::state::threads::{ThreadEntry, Threads};
use agentgw::bridge::worker::cleanup::{select_cleanup_keys, CleanupPolicy, IdleSnapshot};
use agentgw::bridge::worker::rounds::{
    evict_idle_worker, give_up_stale_pools, reap_stray_windows, restore_pools, PoolRound,
};
use agentgw::bridge::worker::seats::{
    window_name, DrainJob, PoolWorker, WorkerFacts, WorkerState, Workers, POOL_SWEEP_INTERVAL_MS,
};
use agentgw::bridge::worker::steps::{
    agent_never_started, assign_pool_worker, begin_exit, claim_pool_worker, claimable,
    drop_untargeted, farewell_text, forget_unresumable_threads, give_up_pool, idle_snapshots,
    is_window_fault, live_thread_keys, may_launch, never_started_text, overdue_pools, owned_sessions, pool_start,
    pool_started, restore_pool, safe_to_reap, stray_window, thread_agents, worker_spawned,
    LiveAgent, PoolStart, Stray, WindowRow,
};
use agentgw::chat::ThreadKey;
use agentgw::i18n::Lang;
use agentgw::product::Product;

const MIN: u64 = 60_000;

const P: CleanupPolicy = CleanupPolicy {
    idle_ttl_ms: 30 * MIN,
    idle_slots: 5,
    idle_max_ms: 60 * MIN,
    max_concurrent: 10,
};

fn product() -> Product {
    Product {
        service: "Robin".to_string(),
        program: "Robin Shell".to_string(),
        command: "robin".to_string(),
    }
}

fn strings(list: &[&str]) -> Vec<String> {
    list.iter().map(|s| s.to_string()).collect()
}

fn snap(n: u32, idle_min: u64) -> IdleSnapshot {
    IdleSnapshot {
        key: ThreadKey::new("C1", &n.to_string()),
        idle_ms: idle_min * MIN,
        eligible: true,
    }
}

fn keys(v: Vec<ThreadKey>) -> Vec<String> {
    v.into_iter().map(|k| k.as_str().to_string()).collect()
}

#[test]
fn nothing_is_evicted_while_within_every_limit() {
    let mut v: Vec<IdleSnapshot> = (0..5).map(|n| snap(n, 45)).collect();
    v.extend((5..9).map(|n| snap(n, 1)));
    assert!(select_cleanup_keys(v, &P).is_empty());
}

#[test]
fn a_thread_past_the_hard_idle_ceiling_goes_even_with_seats_to_spare() {
    assert_eq!(
        keys(select_cleanup_keys(vec![snap(1, 61)], &P)),
        ["C1:1"],
        "60分を超えたら、他に誰も居なくても畳む"
    );
    assert!(
        select_cleanup_keys(vec![snap(1, 60)], &P).is_empty(),
        "ちょうど60分は「超えて」いない"
    );
}

#[test]
fn only_the_coldest_surplus_leaves_the_idle_slots() {
    let v: Vec<IdleSnapshot> = (1..=7).map(|n| snap(n, 30 + n as u64)).collect();
    assert_eq!(keys(select_cleanup_keys(v, &P)), ["C1:7", "C1:6"]);
}

#[test]
fn the_concurrency_cap_evicts_even_warm_threads() {
    let v: Vec<IdleSnapshot> = (1..=12).map(|n| snap(n, n as u64)).collect();
    assert_eq!(keys(select_cleanup_keys(v, &P)), ["C1:12", "C1:11"]);
}

#[test]
fn ineligible_threads_are_never_evicted() {
    let ineligible =
        |n: u32, idle_min: u64| IdleSnapshot { eligible: false, ..snap(n, idle_min) };
    assert!(select_cleanup_keys(vec![ineligible(1, 180)], &P).is_empty());
    let mut v: Vec<IdleSnapshot> = (1..=10).map(|n| snap(n, n as u64)).collect();
    v.push(ineligible(99, 200));
    assert_eq!(keys(select_cleanup_keys(v, &P)), ["C1:10"]);
}

fn entry_of(sid: &str) -> ThreadEntry {
    ThreadEntry {
        channel_id: Some("C1".to_string()),
        agent_id: Some(sid.to_string()),
        ..ThreadEntry::default()
    }
}

#[test]
fn the_latch_goes_on_at_spawn_and_comes_off_at_the_first_turn() {
    let entry = entry_of("sid-1");
    let mut w = Workers::new();

    w.mark_starting("sid-1");
    assert_eq!(
        w.state_of(Some(&entry), Some(4242)),
        WorkerState::Starting,
        "起こした直後は TUI がキーを取れない — 配達は queue へ"
    );

    w.clear_starting("sid-1");
    assert!(!w.is_starting("sid-1"), "最初のターンで外れる");
    assert_eq!(w.state_of(Some(&entry), Some(4242)), WorkerState::Ready);
}

#[test]
fn a_worker_inherited_from_a_previous_bridge_is_ready_not_starting() {
    let entry = entry_of("sid-1");

    let w = Workers::new();
    assert_eq!(w.state_of(Some(&entry), Some(4242)), WorkerState::Ready);

    let gone = Workers::new();
    assert_eq!(gone.state_of(Some(&entry), None), WorkerState::Absent);
    assert!(gone.is_empty(), "死んだ窓に暖機印を付けてはいけない");
}

#[test]
fn a_hook_touching_the_seat_never_puts_the_worker_back_into_starting() {
    let entry = entry_of("sid-1");
    let mut w = Workers::new();

    let h = w.warm_mut("sid-1");
    h.ended = false;
    h.transcript_path = Some("/tmp/sid-1.jsonl".to_string());

    assert_eq!(
        w.state_of(Some(&entry), Some(4242)),
        WorkerState::Ready,
        "動いているワーカーが Starting になると配達が queue で詰まる"
    );
}

#[test]
fn sweep_is_throttled_to_the_interval() {
    let mut w = Workers::new();
    assert!(w.sweep_due(POOL_SWEEP_INTERVAL_MS), "初回は必ず走る");
    assert!(!w.sweep_due(POOL_SWEEP_INTERVAL_MS + 1), "間隔内は間引く");
    assert!(w.sweep_due(2 * POOL_SWEEP_INTERVAL_MS + 1));
}

fn pool_worker(sid: &str, cwd: &str, spawned_at_ms: u64) -> PoolWorker {
    PoolWorker {
        session_id: sid.to_string(),
        spawned_at_ms,
        cwd: cwd.to_string(),
        resumed: false,
    }
}

#[test]
fn a_pool_worker_is_ready_exactly_when_its_session_took_mcp() {
    let mut w = Workers::new();
    let key = PoolKey::of_cwd("/repo/a");
    w.insert_pool(key, pool_worker("sid-1", "/repo/a", 0));
    assert_eq!(w.pool_summary(), vec![("/repo/a".to_string(), false)]);
    assert!(!w.pool_rows()[0].3, "MCP 前は使えない");

    w.warm_mut("sid-1").mcp_ready = true;
    assert!(w.pool_ready("sid-1"), "MCP を握った = 在庫が使える");
    assert_eq!(w.pool_summary(), vec![("/repo/a".to_string(), true)]);
    assert!(w.pool_rows()[0].3);

    w.warm_mut("sid-1").window_id = Some("@7".to_string());
    assert_eq!(w.pool_pid_rows(), vec![("sid-1".to_string(), Some("@7".to_string()))]);
}

#[test]
fn the_pool_and_the_transcripts_are_listed_once_each() {
    let (mut w, mut v) = (Workers::new(), Workers::new());
    for (w, dirs) in [(&mut w, ["/b", "/a", "/c"]), (&mut v, ["/c", "/b", "/a"])] {
        for d in dirs {
            w.insert_pool(PoolKey::of_cwd(d), pool_worker(&format!("s{d}"), d, 7));
            w.warm_mut(&format!("s{d}")).transcript_path = Some(format!("{d}.jsonl"));
        }
    }
    let rows = |w: &Workers| -> Vec<(String, String, u64, bool)> {
        w.pool_rows().into_iter().map(|r| (r.0.as_str().to_string(), r.1, r.2, r.3)).collect()
    };
    assert_eq!(rows(&w), rows(&v), "the order they came in does not matter");
    assert_eq!(rows(&w).len(), 3);
    w.warm_mut("s/b").mcp_ready = true;
    let ready: Vec<bool> = w.pool_rows().iter().map(|r| r.3).collect();
    assert_eq!(ready.iter().filter(|r| **r).count(), 1);
    w.warm_mut("s/a").ended = true;
    let open: Vec<String> = w.transcripts().into_iter().map(|t| t.1).collect();
    assert_eq!(open, vec!["/b.jsonl".to_string(), "/c.jsonl".to_string()]);
}

fn facts(pid: Option<u32>, starting: bool, ended: bool) -> WorkerFacts {
    WorkerFacts { pid, starting, ended }
}

#[test]
fn state_table() {
    assert_eq!(Workers::state_from(&facts(None, true, false)), WorkerState::Absent);
    assert_eq!(Workers::state_from(&facts(Some(1), true, false)), WorkerState::Starting);
    assert_eq!(Workers::state_from(&facts(Some(1), false, false)), WorkerState::Ready);
    assert_eq!(Workers::state_from(&facts(None, false, false)), WorkerState::Absent);
    assert_eq!(Workers::state_from(&facts(Some(1), false, true)), WorkerState::Absent);
}

// ── steps ───────────────────────────────────────────────────────────────────

#[test]
fn an_exit_drops_what_is_owed_and_names_the_window() {
    let mut l = Ledger::new();
    let k = ThreadKey::parse("C1:1.0");
    l.track(&k, "m1");
    let mut w = Workers::new();
    w.warm_mut("sid-1").window_id = Some("@7".to_string());
    let (dropped, plan) = begin_exit(&mut l, &w, &k, Some("sid-1"));
    assert_eq!(dropped, vec!["m1"]);
    assert!(l.pending(&k).is_empty());
    let plan = plan.unwrap();
    assert_eq!(plan.name, window_name("sid-1"));
    assert_eq!(plan.target, "@7");
    let (_, none) = begin_exit(&mut l, &w, &k, None);
    assert!(none.is_none());
}

#[test]
fn a_window_that_is_gone_is_no_fault() {
    assert!(!is_window_fault("tmux: can't find window: @7"));
    assert!(is_window_fault("tmux: no server running"));
}

#[test]
fn a_pool_starts_once_and_is_resumed_where_it_was_named() {
    let mut w = Workers::new();
    let mut p = Pools::new();
    assert_eq!(pool_start(&w, &p, "/r", false, false), PoolStart::Missing);
    assert_eq!(pool_start(&w, &p, "/r", true, false), PoolStart::Launch);
    assert!(pool_started(&mut w, &mut p, "/r", "sid-1", "@1", 10, false));
    assert_eq!(pool_start(&w, &p, "/r", true, true), PoolStart::Skip);
    assert_eq!(p.session_of("/r"), Some("sid-1"));
    let fresh = Workers::new();
    assert_eq!(pool_start(&fresh, &p, "/r", true, true), PoolStart::Resume("sid-1".to_string()));
}

#[test]
fn an_overdue_pool_is_given_up() {
    let mut w = Workers::new();
    let mut p = Pools::new();
    pool_started(&mut w, &mut p, "/r", "sid-1", "@1", 1_000, false);
    assert!(overdue_pools(&w, 51_000).is_empty());
    let late = overdue_pools(&w, 51_001);
    assert_eq!(late.len(), 1);
    let gone = give_up_pool(&mut w, &mut p, &late[0]).unwrap();
    assert_eq!(gone.session_id, "sid-1");
    assert!(w.gave_up_on(&late[0]));
    assert_eq!(w.gave_up_count(), 1);
    assert_eq!(pool_start(&w, &p, "/r", true, true), PoolStart::Skip);
    w.clear_gave_up();
    assert!(!w.gave_up_on(&late[0]));
}

#[test]
fn a_pool_is_claimed_only_when_it_is_ready_and_alive() {
    let mut w = Workers::new();
    let mut p = Pools::new();
    pool_started(&mut w, &mut p, "/r", "sid-1", "@1", 0, false);
    let k = PoolKey::of_cwd("/r");
    assert_eq!(claimable(&w, &k), None);
    w.warm_mut("sid-1").mcp_ready = true;
    assert_eq!(claimable(&w, &k), None, "it has not had its first turn");
    w.clear_starting("sid-1");
    assert_eq!(claimable(&w, &k).as_deref(), Some("sid-1"));
    assert!(claim_pool_worker(&mut w, &k, false).is_none());
    pool_started(&mut w, &mut p, "/r", "sid-1", "@1", 0, false);
    w.warm_mut("sid-1").mcp_ready = true;
    w.clear_starting("sid-1");
    let claimed = claim_pool_worker(&mut w, &k, true).unwrap();
    let mut t = Threads::new();
    let target = assign_pool_worker(&mut t, &mut p, &w, &claimed, "1.0", "C1", "/r", "topic");
    assert_eq!(target, "@1");
    let e = t.get("1.0").unwrap();
    assert_eq!(e.agent_id.as_deref(), Some("sid-1"));
    assert_eq!(e.repo_path.as_deref(), Some("/r"));
    assert_eq!(p.session_of("/r"), None);
}

#[test]
fn restored_pools_are_taken_up_named_or_dropped() {
    let mut w = Workers::new();
    let mut p = Pools::new();
    p.nominate("/r", "sid-1");
    p.nominate("/old", "sid-2");
    let targets = strings(&["/r"]);
    assert_eq!(
        restore_pool(&mut w, &mut p, &targets, "/r", "sid-1", true, 5),
        PoolRestore::Adopt
    );
    assert!(w.has_pool(&PoolKey::of_cwd("/r")));
    assert_eq!(
        restore_pool(&mut w, &mut p, &targets, "/old", "sid-2", true, 5),
        PoolRestore::Discard
    );
    assert_eq!(p.session_of("/old"), None);
    let out = drop_untargeted(&mut w, &[]);
    assert_eq!(out.len(), 1);
    assert!(!w.has_pool(&PoolKey::of_cwd("/r")));
}

#[test]
fn nothing_is_started_while_the_limit_lasts() {
    assert!(!may_launch(99, 100));
    assert!(may_launch(100, 100));
    assert!(may_launch(0, 0));
}

#[test]
fn an_agent_that_never_started_is_forgotten_unless_it_has_a_history() {
    let mut t = Threads::new();
    let mut w = Workers::new();
    let k = ThreadKey::parse("C1:1.0");
    t.upsert("1.0", entry_of("sid-1"));
    worker_spawned(&mut w, "sid-1", "@3");
    assert!(w.is_starting("sid-1"));
    assert_eq!(w.window_of("sid-1").as_deref(), Some("@3"));
    let at = agent_never_started(&mut t, &mut w, &k, "sid-1", true);
    assert_eq!(at, ("C1".to_string(), Some("1.0".to_string())));
    assert!(!w.is_starting("sid-1"));
    assert_eq!(t.get("1.0").unwrap().agent_id.as_deref(), Some("sid-1"));
    agent_never_started(&mut t, &mut w, &k, "sid-1", false);
    assert_eq!(t.get("1.0").unwrap().agent_id, None);
    let s = never_started_text("dock", &product(), Lang::En);
    assert!(s.starts_with("Robin Shell on *dock* stopped before"), "{s}");
    let j = never_started_text("dock", &product(), Lang::Ja);
    assert!(j.starts_with("*dock* の Robin Shell が、"), "{j}");
    assert_eq!(
        farewell_text(&product(), Lang::En),
        "Thanks for your work! Ending the Robin Shell session."
    );
}

#[test]
fn threads_without_a_usable_session_are_forgotten() {
    let mut t = Threads::new();
    t.upsert("1.0", entry_of("sid-1"));
    t.upsert("2.0", entry_of("sid-2"));
    t.upsert("3.0", ThreadEntry { channel_id: Some("C1".to_string()), ..ThreadEntry::default() });
    let dropped = forget_unresumable_threads(&mut t, &strings(&["sid-1"]));
    assert_eq!(dropped, vec!["2.0"]);
    assert_eq!(t.roots(), vec!["1.0", "3.0"]);
    assert_eq!(thread_agents(&t).len(), 1);
}

fn window(id: &str, session: Option<&str>, is_empty_shell: bool) -> WindowRow {
    WindowRow { id: id.to_string(), session: session.map(|s| s.to_string()), is_empty_shell }
}

#[test]
fn stray_windows_are_closed_and_owned_ones_are_not() {
    let mut t = Threads::new();
    t.upsert("1.0", entry_of("sid-1"));
    let w = Workers::new();
    let p = Pools::new();
    let owned = owned_sessions(&t, &w, &p);
    assert_eq!(owned, vec!["sid-1"]);
    let mine = vec![window("@1", Some("sid-1"), false)];
    assert_eq!(stray_window(&owned, &w, &mine), None);
    assert!(safe_to_reap(&owned, &mine));
    let rows = vec![window("@1", Some("sid-1"), false), window("@2", Some("sid-9"), false)];
    assert_eq!(stray_window(&owned, &w, &rows), Some((1, Stray::Ownerless)));
    let empty = vec![window("@1", Some("sid-1"), true)];
    assert_eq!(stray_window(&owned, &w, &empty), Some((0, Stray::Empty)));
    assert_eq!(Stray::Empty.why(&product()), "robin exited and left an empty window");
    assert_eq!(Stray::Ownerless.why(&product()), "belongs to no thread and no warm pool");
}

#[test]
fn what_owes_an_answer_is_not_idle() {
    let mut t = Threads::new();
    t.upsert("1.0", entry_of("sid-1"));
    t.upsert("2.0", entry_of("sid-2"));
    let w = Workers::new();
    let mut l = Ledger::new();
    l.track(&ThreadKey::parse("C1:2.0"), "m1");
    let live = vec![
        LiveAgent { thread_ts: "1.0".to_string(), last_activity_ms: Some(1_000) },
        LiveAgent { thread_ts: "2.0".to_string(), last_activity_ms: Some(1_000) },
    ];
    let s = idle_snapshots(&t, &w, &l, &[], &live, 5_000);
    assert_eq!(s.len(), 2);
    assert_eq!((s[0].idle_ms, s[0].eligible), (4_000, true));
    assert!(!s[1].eligible);
    let asked = [ThreadKey::parse("C1:1.0")];
    assert!(!idle_snapshots(&t, &w, &l, &asked, &live, 5_000)[0].eligible);
}

#[test]
fn a_drain_is_due_at_its_deadline_or_once_it_is_settled() {
    let mut w = Workers::new();
    let k = ThreadKey::parse("C1:1.0");
    w.push_drain(DrainJob {
        key: ThreadKey::parse("C1:1.0"),
        session_id: "sid-1".to_string(),
        deadline_ms: 100,
        farewell: None,
    });
    assert!(w.is_draining(&k));
    assert_eq!(w.due_drain(50, |_k: &ThreadKey| false), None);
    assert_eq!(w.due_drain(50, |_k: &ThreadKey| true), Some(0));
    assert_eq!(w.due_drain(100, |_k: &ThreadKey| false), Some(0));
    let job = w.take_drain(0);
    assert_eq!(job.session_id, "sid-1");
    assert!(!w.is_draining(&k));
}

#[test]
fn the_standing_policy_keeps_the_limits() {
    let p = CleanupPolicy::standard();
    let v: Vec<IdleSnapshot> = (1..=12).map(|n| snap(n, n as u64)).collect();
    let out = select_cleanup_keys(v, &p);
    assert_eq!(12 - out.len(), p.max_concurrent);
    assert!(Access::new().owner.is_empty());
}

#[test]
fn only_threads_whose_agents_run_are_live() {
    let mut t = Threads::new();
    t.upsert("1.1", ThreadEntry::new("C1", "s1"));
    t.upsert("2.2", ThreadEntry::new("C2", "s2"));
    t.upsert("3.3", ThreadEntry { agent_id: Some("s3".to_string()), ..ThreadEntry::default() });
    assert_eq!(keys(live_thread_keys(&t, &strings(&["s2", "s3"]))), ["C2:2.2"]);
    assert_eq!(keys(live_thread_keys(&t, &strings(&["s1", "s2"]))), ["C1:1.1", "C2:2.2"]);
    assert!(live_thread_keys(&t, &[]).is_empty());
}

#[test]
fn the_pool_is_listed_and_taken_whole() {
    let mut w = Workers::new();
    w.insert_pool(PoolKey::of_cwd("/a"), pool_worker("s1", "/a", 1));
    w.insert_pool(PoolKey::of_cwd("/b"), pool_worker("s2", "/b", 2));
    w.warm_mut("s2").mcp_ready = true;
    let mut entries = w.pool_entries();
    entries.sort();
    assert_eq!(
        entries,
        vec![
            ("/a".to_string(), "s1".to_string(), false),
            ("/b".to_string(), "s2".to_string(), true)
        ]
    );
    assert_eq!(w.take_pools().len(), 2);
    assert!(w.pool_entries().is_empty());
}

#[test]
fn a_cleanup_is_due_once_an_interval_but_not_at_the_start() {
    let mut w = Workers::new();
    assert!(!w.cleanup_due(10 * MIN));
    assert!(!w.cleanup_due(10 * MIN + 1));
    assert!(w.cleanup_due(1_000 * MIN));
    assert!(!w.cleanup_due(1_000 * MIN));
}

#[test]
fn the_pool_of_an_earlier_process_is_taken_up() {
    let (mut w, mut p) = (Workers::new(), Pools::new());
    p.nominate("/a", "s1");
    p.nominate("/b", "s2");
    p.nominate("/c", "s3");
    let done =
        restore_pools(&mut w, &mut p, &strings(&["/a", "/b"]), &strings(&["s1", "s3"]), 500);
    let named: Vec<&str> = done.iter().map(|r| r.cwd.as_str()).collect();
    assert_eq!(named, ["/a", "/b", "/c"]);
    assert_eq!(done[0].what, PoolRestore::Adopt);
    assert_eq!(done[1].what, PoolRestore::Respawn);
    assert_eq!((done[2].what, done[2].session_id.as_str()), (PoolRestore::Discard, "s3"));
    assert!(w.pool_ready("s1") && w.has_pool(&PoolKey::of_cwd("/a")));
    assert!(!w.has_pool(&PoolKey::of_cwd("/b")));
    assert_eq!((p.session_of("/b"), p.session_of("/c")), (Some("s2"), None));
}

#[test]
fn a_round_fills_the_pool() {
    let (mut w, mut p) = (Workers::new(), Pools::new());
    w.insert_pool(PoolKey::of_cwd("/old"), pool_worker("s0", "/old", 1));
    p.nominate("/b", "s2");
    let dirs = strings(&["/a", "/b", "/gone"]);
    let (gone, mut round) = PoolRound::begin(&mut w, dirs.clone(), 10, 5);
    assert_eq!(gone.len(), 1);
    assert_eq!(gone[0].1, "s0");
    assert_eq!(round.next(), Some("/a"));
    assert_eq!(round.decide(&w, &p, true, false), Some(PoolStart::Launch));
    pool_started(&mut w, &mut p, "/a", "s1", "@1", 10, false);
    assert_eq!(round.next(), Some("/b"));
    assert_eq!(round.decide(&w, &p, true, true), Some(PoolStart::Resume("s2".to_string())));
    assert_eq!(round.decide(&w, &p, false, false), Some(PoolStart::Missing));
    assert_eq!(round.next(), None);
    assert_eq!(round.decide(&w, &p, true, true), None);
    let (_, mut again) = PoolRound::begin(&mut w, dirs.clone(), 10, 5);
    assert_eq!(again.decide(&w, &p, true, false), Some(PoolStart::Skip));
    let (_, limited) = PoolRound::begin(&mut w, dirs, 10, 11);
    assert_eq!(limited.next(), None);
}

#[test]
fn agents_that_do_not_come_up_are_given_up_on() {
    let (mut w, mut p) = (Workers::new(), Pools::new());
    pool_started(&mut w, &mut p, "/a", "s1", "@1", 0, false);
    p.nominate("/b", "s2");
    pool_started(&mut w, &mut p, "/b", "s2", "@2", 0, true);
    pool_started(&mut w, &mut p, "/c", "s3", "@3", 0, false);
    w.warm_mut("s3").mcp_ready = true;
    assert!(give_up_stale_pools(&mut w, &mut p, 1).is_empty());
    let torn = give_up_stale_pools(&mut w, &mut p, 1_000 * MIN);
    let mut sids: Vec<String> = torn.into_iter().map(|t| t.1.session_id).collect();
    sids.sort();
    assert_eq!(sids, strings(&["s1", "s2"]));
    assert!(w.gave_up_on(&PoolKey::of_cwd("/a")) && !w.gave_up_on(&PoolKey::of_cwd("/b")));
    assert_eq!((p.session_of("/a"), p.session_of("/b")), (Some("s1"), None));
    assert!(w.has_pool(&PoolKey::of_cwd("/c")));
}

#[test]
fn one_idle_agent_is_ended_at_a_time() {
    let mut t = Threads::new();
    t.upsert("1.1", ThreadEntry::new("C1", "s1"));
    t.upsert("2.2", ThreadEntry::new("C1", "s2"));
    let (w, mut l) = (Workers::new(), Ledger::new());
    let live = [
        LiveAgent { thread_ts: "1.1".to_string(), last_activity_ms: Some(10 * MIN) },
        LiveAgent { thread_ts: "2.2".to_string(), last_activity_ms: Some(0) },
    ];
    let end = |l: &Ledger, now: u64| {
        evict_idle_worker(&t, &w, l, &[], &live, now, &P).map(|k| k.as_str().to_string())
    };
    assert_eq!(end(&l, 20 * MIN), None);
    assert_eq!(end(&l, 90 * MIN).as_deref(), Some("C1:2.2"));
    l.track(&ThreadKey::new("C1", "2.2"), "m1");
    assert_eq!(end(&l, 90 * MIN).as_deref(), Some("C1:1.1"));
}

#[test]
fn one_stray_window_is_closed_at_a_time_and_none_where_the_memory_is_lost() {
    let rows = [
        window("@0", None, true),
        window("@1", Some("s1"), false),
        window("@2", Some("s2"), false),
        window("@3", Some("s3"), true),
    ];
    let (mut t, mut w, p) = (Threads::new(), Workers::new(), Pools::new());
    assert!(reap_stray_windows(&t, &w, &p, &rows).is_none());
    t.upsert("1.1", ThreadEntry::new("C1", "s1"));
    assert_eq!(reap_stray_windows(&t, &w, &p, &rows), Some((2, Stray::Ownerless)));
    w.mark_starting("s2");
    assert_eq!(reap_stray_windows(&t, &w, &p, &rows), Some((3, Stray::Empty)));
    t.upsert("2.2", ThreadEntry::new("C1", "s2"));
    assert!(reap_stray_windows(&t, &w, &p, &rows[..3]).is_none());
}
