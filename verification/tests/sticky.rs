use agentgw::chat::slack::diff::render_edit_diff;
use agentgw::chat::slack::input::{EditText, ToolInput};
use agentgw::chat::slack::lines::lines_of;
use agentgw::chat::slack::pages::{page, STICKY_BUDGET};
use agentgw::chat::slack::rows::{
    AgentRef, RenderItem, ToolStatus, INDENT_GUARD, NARR_GLYPH, TOOL_INDENT,
};
use agentgw::chat::slack::sticky::{StickyAction, StickyBoard};
use agentgw::chat::ThreadKey;
use agentgw::i18n::Lang;

type Drawn = Vec<(ThreadKey, Option<String>, String)>;

fn key(s: &str) -> ThreadKey {
    ThreadKey::parse(s)
}

fn put(b: &mut StickyBoard, k: &str, id: &str, name: &str, summary: &str, s: ToolStatus) {
    b.upsert_tool(&key(k), id, name, summary, s, &AgentRef::default(), &ToolInput::empty());
}

fn tool(b: &mut StickyBoard, id: &str, name: &str, summary: &str, s: ToolStatus) {
    put(b, "k", id, name, summary, s);
}

fn sub_tool(b: &mut StickyBoard, id: &str, name: &str, summary: &str, agent: &AgentRef) {
    b.upsert_tool(&key("k"), id, name, summary, ToolStatus::Done, agent, &ToolInput::empty());
}

fn dirty(b: &mut StickyBoard, now_ms: u64) -> Drawn {
    assert!(b.is_drawable(now_ms, Lang::En));
    b.take_dirty(now_ms, Lang::En)
}

fn body(b: &mut StickyBoard) -> String {
    dirty(b, 10_000).pop().unwrap().2
}

fn last_draw(b: &mut StickyBoard, k: &str) -> Option<(Option<String>, String)> {
    assert!(b.can_finish(&key(k), Lang::En));
    b.take_final(&key(k), Lang::En)
}

fn agent(id: &str, kind: &str) -> AgentRef {
    AgentRef {
        agent_id: Some(id.to_string()),
        agent_type: Some(kind.to_string()),
        ..AgentRef::default()
    }
}

fn input(fields: &[(&str, &str)]) -> ToolInput {
    let mut i = ToolInput::empty();
    for (k, v) in fields {
        i.put(k, v);
    }
    i
}

#[test]
fn a_bash_row_that_is_really_a_search_counts_as_one() {
    for (command, is_search) in [
        ("grep -rn foo src/", true),
        ("rg --hidden pattern", true),
        ("git grep TODO", true),
        ("LC_ALL=C grep x file", true),
        ("A=1 B=2 rg x", true),
        ("/usr/bin/grep x file", true),
        ("ps ax | grep x", false),
        ("cargo test", false),
        ("", false),
        ("git log --oneline", false),
    ] {
        assert_eq!(StickyBoard::bash_is_search(command), is_search, "{command:?}");
    }
}

#[test]
fn edit_diff_renders_git_style_hunks_with_counts() {
    let old = (1..=12).map(|i| format!("line{i}")).collect::<Vec<_>>().join("\n");
    let new = old.replace("line1\n", "LINE1\n");
    let d = render_edit_diff("Edit", &input(&[("old_string", &old), ("new_string", &new)])).unwrap();
    assert!(d.starts_with(" (+1 -1)\n```diff\n"), "{d}");
    assert!(d.contains("-line1\n+LINE1\n line2"), "{d}");
    assert!(d.contains("\n…"), "離れた文脈は … 1行に畳む: {d}");
    assert!(d.ends_with("\n```"), "{d}");

    assert!(
        render_edit_diff("Edit", &input(&[("old_string", "x"), ("new_string", "x")])).is_none()
    );
    let w = render_edit_diff("Write", &input(&[("content", "a\nb")])).unwrap();
    assert!(w.starts_with(" (+2 -0)\n"), "{w}");
    let f = render_edit_diff("Write", &input(&[("content", "```")])).unwrap();
    assert!(f.contains("`\u{200b}`\u{200b}`"), "{f}");
    let mut edits = ToolInput::empty();
    edits.edits = vec![
        EditText { old: "a".to_string(), new: "b".to_string() },
        EditText { old: "c".to_string(), new: "d".to_string() },
    ];
    let m = render_edit_diff("MultiEdit", &edits).unwrap();
    assert!(m.starts_with(" (+2 -2)\n"), "{m}");
    assert!(m.contains("-a\n+b\n…\n-c\n+d"), "{m}");
}

#[test]
fn a_tools_input_is_read_from_json() {
    let i = ToolInput::from_json(
        r#"{"tool_input":{"command":"ls","edits":[{"old_string":"a","new_string":"b"}]}}"#,
        "/tool_input",
    );
    assert_eq!(i.text("command"), "ls");
    assert_eq!(i.text("pattern"), "");
    assert_eq!(i.edits.len(), 1);
    assert_eq!((i.edits[0].old.as_str(), i.edits[0].new.as_str()), ("a", "b"));
}

#[test]
fn edit_diff_rides_the_main_row_only() {
    let k = key("k");
    let edit = input(&[("old_string", "a"), ("new_string", "b")]);

    let mut running = StickyBoard::new();
    running.upsert_tool(
        &k,
        "t1",
        "Edit",
        "/x.rs",
        ToolStatus::Pending,
        &AgentRef::default(),
        &edit,
    );
    let out = body(&mut running);
    assert!(!out.contains("```"), "走行中は出さない: {out}");

    let mut done = StickyBoard::new();
    done.upsert_tool(&k, "t1", "Edit", "/x.rs", ToolStatus::Done, &AgentRef::default(), &edit);
    let out = body(&mut done);
    assert!(out.contains("Edit `/x.rs` (+1 -1)"), "{out}");
    assert!(out.contains("```diff\n-a\n+b\n```"), "{out}");

    let mut folded = StickyBoard::new();
    folded.upsert_tool(
        &k,
        "t1",
        "Edit",
        "/x.rs",
        ToolStatus::Done,
        &agent("A1", "Explore"),
        &edit,
    );
    let out = body(&mut folded);
    assert!(!out.contains("```"), "畳んだ窓には持ち込まない: {out}");
}

#[test]
fn an_agent_row_folds_together_with_the_subagent_it_spawned() {
    let mut b = StickyBoard::new();
    sub_tool(
        &mut b,
        "t0",
        "Agent",
        "コードを調べる",
        &AgentRef { spawned_agent_id: Some("A1".to_string()), ..AgentRef::default() },
    );
    sub_tool(&mut b, "t1", "Read", "/a.rs", &agent("A1", "Explore"));
    let out = body(&mut b);
    assert!(
        out.contains(&format!("{TOOL_INDENT}▾ Agent `コードを調べる` : Explore · Read 1 file")),
        "{out}"
    );
    assert_eq!(out.matches('▾').count(), 1, "{out}");
}

#[test]
fn a_background_agent_joins_by_name_when_the_ids_never_match() {
    let mut b = StickyBoard::new();
    sub_tool(
        &mut b,
        "t0",
        "Agent",
        "レビューを頼む",
        &AgentRef {
            spawned_agent_id: Some("auditor@session-9".to_string()),
            launched_name: Some("auditor".to_string()),
            ..AgentRef::default()
        },
    );
    sub_tool(&mut b, "t1", "Bash", "cargo test", &agent("B7", "auditor"));
    let out = body(&mut b);
    assert!(out.contains("▾ Agent `レビューを頼む` : auditor · Ran 1 command"), "{out}");
    assert_eq!(out.matches('▾').count(), 1, "{out}");
}

#[test]
fn an_agent_row_without_a_linked_group_renders_as_a_plain_row() {
    let mut b = StickyBoard::new();
    tool(&mut b, "t0", "Agent", "調査", ToolStatus::Pending);
    let out = body(&mut b);
    assert_eq!(out, format!("{INDENT_GUARD}{TOOL_INDENT}◌ Agent `調査`"), "{out}");
}

#[test]
fn a_subagents_tools_collapse_into_one_section_with_a_rolling_window() {
    let mut b = StickyBoard::new();
    let sub = agent("A1", "Explore");
    for (i, f) in ["/a.rs", "/b.rs", "/c.rs"].iter().enumerate() {
        sub_tool(&mut b, &format!("t{i}"), "Read", f, &sub);
    }
    let out = body(&mut b);
    assert!(out.contains(&format!("{TOOL_INDENT}▾ Explore · Read 3 files")), "{out}");
    assert!(!out.contains("/a.rs"), "古い行はスクロールアウトする: {out}");
    assert!(out.contains("/b.rs"), "{out}");
    assert!(out.contains("/c.rs"), "{out}");
}

#[test]
fn parallel_subagents_stay_separate() {
    let mut b = StickyBoard::new();
    sub_tool(&mut b, "t1", "Read", "/a.rs", &agent("A1", "Explore"));
    sub_tool(&mut b, "t2", "Bash", "cargo test", &agent("A2", "general-purpose"));
    let out = body(&mut b);
    assert!(out.contains("▾ Explore · Read 1 file"), "{out}");
    assert!(out.contains("▾ general-purpose · Ran 1 command"), "{out}");
}

#[test]
fn a_subagent_section_sits_at_its_first_tools_position() {
    let mut b = StickyBoard::new();
    b.push_narration(&key("k"), "先に言うこと");
    sub_tool(&mut b, "t1", "Read", "/a.rs", &agent("A1", "Explore"));
    b.push_narration(&key("k"), "後で言うこと");
    let out = body(&mut b);
    let first = out.find("先に言うこと").unwrap();
    let sect = out.find("▾ Explore").unwrap();
    let last = out.find("後で言うこと").unwrap();
    assert!(first < sect && sect < last, "到着順のままであるべき: {out}");
}

#[test]
fn a_subagents_rows_are_never_folded_by_the_read_run_rule() {
    let mut b = StickyBoard::new();
    let sub = agent("A1", "Explore");
    sub_tool(&mut b, "t1", "Read", "/a.rs", &sub);
    sub_tool(&mut b, "t2", "Read", "/b.rs", &sub);
    let out = body(&mut b);
    assert!(out.contains("▾ Explore · Read 2 files"), "{out}");
    assert!(out.contains("/a.rs") && out.contains("/b.rs"), "窓は2件: {out}");
    assert!(!out.contains("·  Read 2 files"), "run 畳みは適用しない: {out}");
}

#[test]
fn perm_timeout_annotates_without_touching_the_row_and_deny_marks_only_the_row() {
    let k = key("k");

    let mut timed = StickyBoard::new();
    tool(&mut timed, "t1", "Bash", "rm -rf /tmp/x", ToolStatus::Pending);
    timed.on_perm_timeout(&k);
    let (_, out) = last_draw(&mut timed, "k").expect("付箋が出ていない");
    assert!(out.contains("⚠️ No answer to the permission request — timed out"), "{out}");
    assert!(out.contains("◌ Bash"), "行は触らず ◌ のまま: {out}");
    assert!(!out.contains("🚫"), "満期で行を落としてはいけない: {out}");

    let mut lone = StickyBoard::new();
    lone.on_perm_timeout(&key("k2"));
    let (_, out) = last_draw(&mut lone, "k2").expect("付箋が出ていない");
    assert!(out.contains("⚠️ No answer to the permission request — timed out"), "{out}");

    let mut denied = StickyBoard::new();
    tool(&mut denied, "t1", "Bash", "rm -rf /tmp/x", ToolStatus::Pending);
    denied.on_perm_denied(&k, "t1");
    let (_, out) = last_draw(&mut denied, "k").expect("付箋が出ていない");
    assert!(out.contains("🚫 Bash"), "{out}");
    assert!(!out.contains("ツール許可待ちタイムアウト"), "{out}");
}

#[test]
fn a_run_of_finished_reads_folds_into_one_line() {
    let mut b = StickyBoard::new();
    tool(&mut b, "t1", "Read", "/a.rs", ToolStatus::Done);
    tool(&mut b, "t2", "Read", "/b.rs", ToolStatus::Done);
    tool(&mut b, "t3", "Grep", "foo", ToolStatus::Done);
    let out = body(&mut b);
    assert_eq!(
        out,
        format!("{INDENT_GUARD}{TOOL_INDENT}·  Read 2 files, Searched for 1 pattern"),
        "{out}"
    );
}

#[test]
fn a_lone_finished_row_stays_expanded() {
    let mut b = StickyBoard::new();
    tool(&mut b, "t1", "Read", "/a.rs", ToolStatus::Done);
    let out = body(&mut b);
    assert_eq!(out, format!("{INDENT_GUARD}{TOOL_INDENT}· Read `/a.rs`"), "{out}");
}

#[test]
fn a_running_or_failed_row_is_never_folded() {
    let mut b = StickyBoard::new();
    tool(&mut b, "t1", "Read", "/a.rs", ToolStatus::Done);
    tool(&mut b, "t2", "Read", "/b.rs", ToolStatus::Pending);
    tool(&mut b, "t3", "Read", "/c.rs", ToolStatus::Error);
    let out = body(&mut b);
    assert!(out.contains("`/a.rs`"), "{out}");
    assert!(out.contains("◌ Read `/b.rs`"), "{out}");
    assert!(out.contains("× Read `/c.rs`"), "{out}");
    assert!(!out.contains("Read 2 files"), "{out}");
}

#[test]
fn a_narration_breaks_the_run_in_two() {
    let mut b = StickyBoard::new();
    tool(&mut b, "t1", "Read", "/a.rs", ToolStatus::Done);
    tool(&mut b, "t2", "Read", "/b.rs", ToolStatus::Done);
    b.push_narration(&key("k"), "次を調べます");
    tool(&mut b, "t3", "Bash", "cargo test", ToolStatus::Done);
    tool(&mut b, "t4", "Bash", "cargo fmt", ToolStatus::Done);
    let out = body(&mut b);
    assert!(out.contains("Read 2 files"), "{out}");
    assert!(out.contains("● 次を調べます"), "{out}");
    assert!(out.contains("Ran 2 commands"), "{out}");
}

#[test]
fn the_breakdown_groups_by_category_then_falls_back_to_the_tool_name() {
    let items = [
        ("Read", "/a.rs"),
        ("Grep", "foo"),
        ("Bash", "rg bar"),
        ("Bash", "cargo test"),
        ("Edit", "/b.rs"),
        ("Write", "/c.rs"),
        ("WebFetch", "https://x"),
        ("WebFetch", "https://y"),
    ];
    assert_eq!(
        StickyBoard::tool_breakdown(&items),
        "Read 1 file, Searched for 2 patterns, Ran 1 command, Edited 2 files, WebFetch 2"
    );
}

#[test]
fn summarize_picks_salient_arg() {
    for (name, field, value, want) in [
        ("Bash", "command", "cargo test", "cargo test"),
        ("Read", "file_path", "/a/b.rs", "/a/b.rs"),
        ("Grep", "pattern", "foo", "foo"),
        ("Bash", "command", "a`b`\nc", "ab c"),
    ] {
        assert_eq!(StickyBoard::summarize(name, &input(&[(field, value)])), want);
    }
    let long = input(&[("command", &"x".repeat(80))]);
    assert_eq!(StickyBoard::summarize("Bash", &long).chars().count(), 71);
}

#[test]
fn tool_status_classification() {
    for (event, is_error, text, want) in [
        ("PreToolUse", false, "", ToolStatus::Pending),
        ("PostToolUse", false, "", ToolStatus::Done),
        ("PostToolUse", true, "permission denied", ToolStatus::Deny),
        ("PostToolUse", true, "boom", ToolStatus::Error),
        ("PostToolUseFailure", false, "no such file", ToolStatus::Error),
        ("PostToolUseFailure", true, "permission denied", ToolStatus::Deny),
    ] {
        assert_eq!(ToolStatus::of(event, is_error, text), want);
    }
}

#[test]
fn a_denial_is_read_whatever_its_case() {
    assert_eq!(ToolStatus::of("PostToolUse", true, "Permission DENIED"), ToolStatus::Deny);
    assert_eq!(
        ToolStatus::of_lowered("PostToolUse", true, "permission denied"),
        ToolStatus::Deny
    );
    assert_eq!(ToolStatus::Pending.glyph(), "◌");
}

#[test]
fn denied_tools_never_become_rows() {
    assert!(StickyBoard::is_denied("TodoWrite"));
    assert!(StickyBoard::is_denied("mcp__agentgw__reply"));
    assert!(!StickyBoard::is_denied("Bash"));
    let mut b = StickyBoard::new();
    b.on_turn_start(&key("k"));
    tool(&mut b, "t", "TodoWrite", "x", ToolStatus::Done);
    tool(&mut b, "t2", "mcp__agentgw__reply", "hi", ToolStatus::Done);
    assert!(dirty(&mut b, 1_000).is_empty(), "denied tool must not even dirty the board");
}

#[test]
fn board_upserts_and_settles() {
    let k = key("k");
    let mut b = StickyBoard::new();
    b.on_turn_start(&k);
    tool(&mut b, "t1", "Bash", "cargo test", ToolStatus::Pending);
    tool(&mut b, "t1", "Bash", "cargo test", ToolStatus::Done);
    b.push_narration(&k, "ビルドを確認します");
    let d = dirty(&mut b, 10_000);
    assert_eq!(d.len(), 1);
    assert!(d[0].2.contains("· Bash `cargo test`") && d[0].2.contains("● ビルド"));
    b.push_narration(&k, "続き");
    assert!(dirty(&mut b, 10_500).is_empty());
    assert_eq!(dirty(&mut b, 11_100).len(), 1);
    b.set_posted(&k, "999.1");
    assert_eq!(b.sticky_ts(&k).as_deref(), Some("999.1"));
    assert!(matches!(b.settle(&k, "reply"), StickyAction::Keep));
    b.on_turn_start(&k);
    tool(&mut b, "t2", "Read", "/x", ToolStatus::Done);
    b.set_posted(&k, "999.2");
    assert!(matches!(b.settle(&k, "no_reply"), StickyAction::Delete(ts) if ts == "999.2"));
}

#[test]
fn an_overflowing_sticky_seals_the_page_and_continues_on_a_new_message() {
    let k = key("k");
    let mut b = StickyBoard::new();
    b.on_turn_start(&k);
    for i in 0..500 {
        tool(
            &mut b,
            &format!("t{i}"),
            "Edit",
            &format!("{i}-{}", "x".repeat(60)),
            ToolStatus::Done,
        );
    }
    b.set_posted(&k, "999.1");

    let first = dirty(&mut b, 10_000);
    assert_eq!(first.len(), 1);
    assert_eq!(first[0].1.as_deref(), Some("999.1"), "1枚目は編集で締める");
    assert!(first[0].2.len() <= STICKY_BUDGET + 32, "len={}", first[0].2.len());

    let second = dirty(&mut b, 10_100);
    assert_eq!(second.len(), 1);
    assert_eq!(second[0].1, None, "封じたページの続きは新規投稿");
    assert!(!second[0].2.is_empty());
    assert_ne!(first[0].2, second[0].2, "同じ内容を2度出さない");
}

#[test]
fn a_code_fence_split_by_a_page_boundary_is_closed_and_reopened() {
    let lines: Vec<String> =
        vec!["```".to_string(), "a".repeat(3000), "b".repeat(3000), "```".to_string()];
    let (p1, next, open) = page(&lines, 0, false);
    assert!(open, "1ページ目はフェンスが開いたまま終わる");
    assert!(p1.ends_with("\n```"), "封じる前に閉じる: {}", &p1[p1.len() - 8..]);
    assert!(next < lines.len());

    let (p2, end, still_open) = page(&lines, next, open);
    assert!(p2.starts_with("```diff\n"), "次のページで開き直す: {p2}");
    assert_eq!(end, lines.len());
    assert!(!still_open, "最後の ``` で閉じている");
}

fn row(id: &str, name: &str, summary: &str) -> RenderItem {
    RenderItem::Tool {
        id: id.to_string(),
        name: name.to_string(),
        summary: summary.to_string(),
        status: ToolStatus::Done,
        agent: AgentRef::default(),
        diff: None,
    }
}

#[test]
fn an_over_budget_single_line_is_clipped_so_the_page_still_sends() {
    let mut items = vec![RenderItem::Narration { text: "あ".repeat(2000) }];
    items.extend((0..3).map(|i| row(&format!("t{i}"), "Edit", "x")));
    let out = page(&lines_of(&items, false, Lang::En), 0, false).0;
    assert!(out.len() <= STICKY_BUDGET + 32, "len={}", out.len());
    assert!(
        out.starts_with("● あああ"),
        "頭出しされていない: {:?}",
        &out[..20.min(out.len())]
    );
    assert!(out.ends_with('…'), "切ったことを示す: {:?}", &out[out.len() - 8..]);
}

#[test]
fn the_top_row_keeps_its_indent() {
    let items = vec![row("t1", "WebFetch", "https://x")];
    let out = page(&lines_of(&items, false, Lang::En), 0, false).0;
    assert!(out.starts_with(&format!("{INDENT_GUARD}{TOOL_INDENT}")), "{out:?}");

    let said = vec![RenderItem::Narration { text: "hi".to_string() }];
    let out = page(&lines_of(&said, false, Lang::En), 0, false).0;
    assert!(out.starts_with(NARR_GLYPH), "{out:?}");
}

#[test]
fn work_after_a_reply_splits_into_a_new_sticky_but_silence_stays_silent() {
    let k = key("k");
    let mut b = StickyBoard::new();
    b.on_turn_start(&k);
    tool(&mut b, "t1", "Bash", "cargo test", ToolStatus::Done);
    b.set_posted(&k, "999.1");
    assert!(matches!(b.settle(&k, "reply"), StickyAction::Keep));

    b.push_narration(&k, "ついでに調べました");
    tool(&mut b, "t2", "Read", "/x", ToolStatus::Done);
    let d = dirty(&mut b, 99_000);
    assert_eq!(d.len(), 1);
    assert_eq!(d[0].1, None, "返事の下に**新しく**出す(編集ではない)");
    assert!(d[0].2.contains("● ついでに調べました"), "{}", d[0].2);
    assert!(d[0].2.contains("Read"), "{}", d[0].2);
    assert!(!d[0].2.contains("cargo test"), "前の付箋の行を持ち越さない: {}", d[0].2);

    b.on_turn_start(&k);
    b.push_narration(&k, "次のターン");
    let d = dirty(&mut b, 100_000);
    assert_eq!(d.len(), 1);
    assert!(d[0].2.contains("● 次のターン"), "{}", d[0].2);
    assert!(!d[0].2.contains("ついでに"), "前ターンの遅刻分が混ざった");

    let mut r = StickyBoard::new();
    r.on_turn_start(&k);
    tool(&mut r, "t1", "Bash", "ls", ToolStatus::Done);
    r.set_posted(&k, "999.3");
    assert!(matches!(r.settle(&k, "reply"), StickyAction::Keep));
    r.push_narration(&k, "Slack に返信しました。");
    assert!(
        dirty(&mut r, 99_000).is_empty(),
        "締めのナレーションだけでは新しい付箋を起こさない"
    );
    assert!(last_draw(&mut r, "k").is_none());
    r.on_turn_end(&k);
    tool(&mut r, "t2", "Read", "/x", ToolStatus::Done);
    assert!(dirty(&mut r, 100_000).is_empty(), "ターンが終わった後は何も起こさない");

    let mut q = StickyBoard::new();
    q.on_turn_start(&k);
    tool(&mut q, "t1", "Bash", "ls", ToolStatus::Done);
    q.set_posted(&k, "999.2");
    assert!(matches!(q.settle(&k, "no_reply"), StickyAction::Delete(ts) if ts == "999.2"));
    q.push_narration(&k, "黙りました");
    assert!(
        dirty(&mut q, 99_000).is_empty(),
        "沈黙のあとのナレーションだけでは何も出さない"
    );
    tool(&mut q, "t2", "Edit", "/x.rs", ToolStatus::Done);
    let after = dirty(&mut q, 99_000);
    assert_eq!(after.len(), 1);
    assert_eq!(after[0].1, None, "消した付箋を編集せず、新しく出す");
    assert!(after[0].2.contains("Edit"), "{}", after[0].2);
    assert!(last_draw(&mut q, "k").is_none());
}

#[test]
fn nothing_after_the_turn_ended_reaches_the_thread() {
    let k = key("k");
    let mut b = StickyBoard::new();
    b.on_turn_start(&k);
    tool(&mut b, "t1", "Bash", "cargo test", ToolStatus::Done);
    b.set_posted(&k, "999.1");
    assert!(matches!(b.settle(&k, "reply"), StickyAction::Keep));
    b.on_turn_end(&k);

    b.push_narration(&k, "Slack に返信しました。要点は…");
    tool(&mut b, "t2", "Bash", "git status", ToolStatus::Done);
    b.push_narration(&k, "まとめると以上です");
    assert!(dirty(&mut b, 99_000).is_empty(), "ターンが終わった後の地の文もツールも出さない");
    assert!(last_draw(&mut b, "k").is_none());

    b.on_turn_start(&k);
    b.push_narration(&k, "次のターン");
    let d = dirty(&mut b, 100_000);
    assert_eq!(d.len(), 1);
    assert!(d[0].2.contains("● 次のターン"), "{}", d[0].2);
}

#[test]
fn interrupted_appends_notice_and_settles() {
    let mut b = StickyBoard::new();
    b.on_turn_start(&key("k"));
    tool(&mut b, "t1", "Bash", "x", ToolStatus::Pending);
    b.on_interrupted(&key("k"));
    let d = dirty(&mut b, 10_000);
    assert_eq!(d.len(), 1);
    assert_eq!(
        d[0].2,
        "\u{200B}\u{A0}\u{A0}\u{A0}◌ Bash `x`\n\n└ `Interrupted by user.`"
    );
    b.push_narration(&key("k"), "続き");
    assert!(dirty(&mut b, 20_000).is_empty());
}

#[test]
fn interrupted_with_no_progress_stands_alone() {
    let mut b = StickyBoard::new();
    b.on_turn_start(&key("k"));
    b.on_interrupted(&key("k"));
    let d = dirty(&mut b, 10_000);
    assert_eq!(d.len(), 1);
    assert_eq!(d[0].2, "└ `Interrupted by user.`");
}

#[test]
fn final_flush_ignores_the_throttle() {
    let mut b = StickyBoard::new();
    b.on_turn_start(&key("k"));
    tool(&mut b, "t1", "Bash", "cargo test", ToolStatus::Pending);
    assert_eq!(dirty(&mut b, 10_000).len(), 1);
    tool(&mut b, "t1", "Bash", "cargo test", ToolStatus::Done);
    assert!(dirty(&mut b, 10_100).is_empty(), "通常 flush はスロットルで出ない");
    let (ts, out) = last_draw(&mut b, "k").expect("final draw");
    assert_eq!(ts, None);
    assert!(out.contains("· Bash `cargo test`"), "{out}");
    assert!(last_draw(&mut b, "k").is_none(), "2回目は返さない");
    assert!(matches!(b.settle(&key("k"), "reply"), StickyAction::Keep));
    assert!(last_draw(&mut b, "k").is_none(), "settle 後は entry ごと消えている");
}
