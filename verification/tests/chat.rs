use agentgw::chat::slack::events::{
    action_id, bot_id_of, channel_grant_label, channel_name_of, channels_of, clicks_of, deletion_of,
    dropped_line, edit_of, file_info_of, fleet_event_of, handed_on, inbound_from_relay, inbound_of,
    message_of, perm_buttons, perm_click_from_relay, perm_prompt_body, perm_prompt_title,
    read_action_id, received_changes, take_relayed, thinking_note, thread_root_gone, user_name_of,
    BotId, ButtonStyle, ChangedMessage, ChannelName, Content, FleetEvent, MessageEvent, Origin,
    PreviousMessage, ReactionEvent, ReactionItem, RelayKind, Relayed, Sender, SlackEvent,
};
use agentgw::chat::slack::limits::{
    attachment_file_name, attachment_too_large, chunk, connection_warning, inbox_file_is_stale,
    upload_refused, SlackId, Status, INBOX_TTL_MS, MAX_ATTACHMENT_BYTES, MAX_CHUNK_LIMIT,
    SILENCE_MS, THINKING_STATUS, TYPING_STATUS,
};
use agentgw::chat::slack::wire::read_message;
use agentgw::chat::{
    deletion_notice, edit_notice, ChannelKind, FetchedMsg, GivenMsg, MessageAt, Reaction, ThreadKey,
};
use agentgw::i18n::Lang;

fn some(s: &str) -> Option<String> {
    Some(s.to_string())
}

#[test]
fn a_stop_reaction_is_only_a_stop_when_added() {
    let r = |emoji: &str, added: bool| Reaction {
        emoji: emoji.to_string(),
        item_ts: "1.1".to_string(),
        added,
    };
    assert!(r("red_circle", true).is_stop());
    assert!(r("raised_hand", true).is_stop(), "hand の別名も通す");
    assert!(!r("red_circle", false).is_stop(), "外したのは停止ではない");
    assert!(!r("eyes", true).is_stop());

    let added = r("tada", true).synthetic_text("U1", "done");
    assert!(
        added.starts_with("[reaction added] <@U1> reacted with :tada: on your message: done"),
        "{added}"
    );
    assert!(added.contains("Do not stay silent"));
    let removed = r("tada", false).synthetic_text("U1", "done");
    assert!(
        removed
            .starts_with("[reaction removed] <@U1> removed reaction :tada: on your message: done"),
        "{removed}"
    );
    assert!(!removed.contains("Do not stay silent"), "外した側は促さない");
    let long = r("eyes", true).synthetic_text("U1", &"あ".repeat(400));
    assert!(long.contains(&format!("{}…", "あ".repeat(280))));
}

#[test]
fn an_edit_tells_the_worker_to_redo_only_when_it_is_the_current_work() {
    let now = edit_notice("1.2", "こっちでお願い", false, true);
    assert!(now.contains("the message you are CURRENTLY working on (id 1.2)"));
    assert!(now.contains("Throw away the work you were doing for the OLD wording"));
    assert!(now.contains("The new content is:\n\"\"\"\nこっちでお願い\n\"\"\""));

    let past = edit_notice("1.2", "こっちでお願い", false, false);
    assert!(past.contains("EDITED an earlier message (id 1.2)"));
    assert!(past.contains("Do NOT abandon your current work"));
    for n in [&now, &past] {
        assert!(n.ends_with("if the edit changes nothing you need to do, call no_reply."));
    }
    assert!(edit_notice("1.2", "", true, true).contains("a file/attachment only"));
    assert!(edit_notice("1.2", "", false, true).contains("Its new text is unavailable."));
    assert!(edit_notice("1.2", &"あ".repeat(1500), false, true).contains("… (truncated)"));
}

#[test]
fn thread_key_roundtrip() {
    assert_eq!(ThreadKey::new("C0AAA", "123.456").as_str(), "C0AAA:123.456");
    assert_eq!(
        ThreadKey::parse("C0AAA:123.456").split(),
        ("C0AAA".to_string(), some("123.456"))
    );
    assert_eq!(ThreadKey::parse("C0AAA").split(), ("C0AAA".to_string(), None));
    assert_eq!(ThreadKey::parse("C0AAA:1:2").split(), ("C0AAA".to_string(), some("1:2")));
}

#[test]
fn a_deleted_message_is_quoted() {
    let n = deletion_notice("1.2", "x", false);
    assert!(n.contains("\"\"\"\nx\n\"\"\""), "{n}");
}

#[test]
fn the_chunk_limit_stays_inside_what_slack_takes() {
    assert!(MAX_CHUNK_LIMIT <= 11_900, "measured ceiling");
    assert!(MAX_CHUNK_LIMIT > 3_900, "the old section-block value");
    let ja: String = "あ".repeat(MAX_CHUNK_LIMIT);
    assert_eq!(chunk(&ja, MAX_CHUNK_LIMIT, false).len(), 1, "one post");
    assert_eq!(chunk(&"あ".repeat(MAX_CHUNK_LIMIT + 1), MAX_CHUNK_LIMIT, false).len(), 2);
}

#[test]
fn a_third_socket_connection_is_someone_else() {
    for ok in [1, 2] {
        assert!(connection_warning(ok).is_none(), "{ok}");
    }
    for n in [3, 5] {
        let w = connection_warning(n).unwrap_or_default();
        assert!(w.contains(&format!("{n} live connections")), "{w}");
        assert!(w.contains("SPLIT"), "{w}");
    }
}

#[test]
fn a_file_in_the_inbox_is_stale_strictly_past_its_time() {
    assert!(!inbox_file_is_stale(1_000, 1_000));
    assert!(!inbox_file_is_stale(1_000, 1_000 + INBOX_TTL_MS));
    assert!(inbox_file_is_stale(1_000, 1_001 + INBOX_TTL_MS));
    assert!(!inbox_file_is_stale(2_000, 1_000));
}

#[test]
fn attachment_name_never_escapes_the_inbox() {
    assert_eq!(attachment_file_name("F1", "shot.png"), "F1-shot.png");
    assert_eq!(attachment_file_name("F1", "../../etc/passwd"), "F1-passwd");
    assert_eq!(attachment_file_name("F1", "a/b.txt"), "F1-b.txt");
    assert_eq!(attachment_file_name("F1", "..\\..\\win.txt"), "F1-....win.txt");
    assert_eq!(attachment_file_name("F1", ".."), "F1", "残らなければ id だけ");
    assert_eq!(attachment_file_name("F1", ""), "F1");
    assert_eq!(attachment_file_name("F1", "   "), "F1");
    assert_eq!(attachment_file_name("F1", "スクショ 1.png"), "F1-スクショ 1.png");
    assert_eq!(attachment_file_name("../../F1", "a.png"), "F1-a.png");
    assert_eq!(attachment_file_name("/", "a.png"), "attachment-a.png");
    let inbox = std::path::Path::new("/s/inbox");
    for (id, name) in [
        ("F1", "../../etc/passwd"),
        ("..", ".."),
        ("", "a/../../b"),
        (" .. ", " .. "),
        ("\"..\"", "\"..\""),
        (".", "."),
    ] {
        let s = attachment_file_name(id, name);
        assert!(!matches!(s.as_str(), "." | ".."), "{id:?}/{name:?} → {s:?}");
        let p = inbox.join(&s);
        assert_eq!(p.parent(), Some(inbox), "{p:?} escaped the inbox");
    }
    assert_eq!(attachment_file_name("F1", "a\"b.png"), "F1-ab.png");
}

#[test]
fn files_that_are_too_large_are_not_sent() {
    assert!(!attachment_too_large(MAX_ATTACHMENT_BYTES));
    assert!(attachment_too_large(MAX_ATTACHMENT_BYTES + 1));
    assert_eq!(upload_refused("/x", MAX_ATTACHMENT_BYTES), None);
    assert_eq!(
        upload_refused("/x", MAX_ATTACHMENT_BYTES + 1).as_deref(),
        Some("/x is 52428801 bytes (max 52428800)")
    );
}

#[test]
fn a_received_message_loses_its_marks_and_gets_the_robot() {
    let names: Vec<&str> = received_changes().iter().map(|c| c.emoji("eyes")).collect();
    assert_eq!(names, vec!["eyes", "arrows_counterclockwise", "robot_face"]);
}

fn fetched(ts: &str, user: &str, text: &str) -> FetchedMsg {
    FetchedMsg {
        ts: ts.to_string(),
        user: user.to_string(),
        text: text.to_string(),
        thread_ts: None,
    }
}

#[test]
fn fetch_formatting_is_oldest_first() {
    let msgs = vec![fetched("2.0", "U2", "second"), fetched("1.0", "U1", "first")];
    assert_eq!(FetchedMsg::render_all(&msgs), "[1.0] U1: first\n[2.0] U2: second");
}

#[test]
fn fetched_messages_are_shown_alike_in_any_order() {
    let m = |i: usize| fetched(["1.0", "2.0", "3.0"][i], "U", ["a", "b", "c"][i]);
    let shown = |order: [usize; 3]| {
        FetchedMsg::render_all(&order.iter().map(|i| m(*i)).collect::<Vec<_>>())
    };
    for order in [[0, 1, 2], [2, 1, 0], [1, 2, 0]] {
        assert_eq!(shown(order), "[1.0] U: a\n[2.0] U: b\n[3.0] U: c");
    }
    assert_eq!(FetchedMsg::render_all(&[]), "");
    let twins = [fetched("1.0", "U", "x"), fetched("1.0", "U", "y")];
    assert_eq!(FetchedMsg::render_all(&twins), "[1.0] U: x\n[1.0] U: y");
}

fn given(ts: &str, user: Option<&str>, bot: Option<&str>, root: Option<&str>) -> GivenMsg {
    GivenMsg {
        ts: ts.to_string(),
        user: user.map(|s| s.to_string()),
        bot_id: bot.map(|s| s.to_string()),
        text: None,
        thread_ts: root.map(|s| s.to_string()),
    }
}

#[test]
fn only_the_message_that_was_asked_for_counts() {
    let m = MessageAt::of("1.2", Some(&given("1.2", Some("U1"), None, Some("1.0")))).unwrap();
    assert_eq!((m.user.as_deref(), m.is_bot, m.thread_ts.as_str()), (Some("U1"), false, "1.0"));
    let root = MessageAt::of("1.0", Some(&given("1.0", None, Some("B1"), None))).unwrap();
    assert_eq!((root.user, root.is_bot, root.thread_ts.as_str()), (None, true, "1.0"));
    assert!(MessageAt::of("1.2", Some(&given("1.0", None, None, None))).is_none());
    assert!(MessageAt::of("1.2", None).is_none());
    let f = FetchedMsg::of(&given("1.0", None, Some("B1"), None));
    assert_eq!((f.user.as_str(), f.text.as_str()), ("bot", ""));
}

#[test]
fn a_long_reply_is_split_into_slack_sized_posts() {
    assert_eq!(chunk("short", 10, false), vec!["short"]);
    assert_eq!(chunk("0123456789", 10, false), vec!["0123456789"]);
    assert_eq!(chunk("0123456789a", 10, false), vec!["0123456789", "a"]);
    let ja = "あ".repeat(25);
    let parts = chunk(&ja, 10, false);
    assert_eq!(parts.len(), 3);
    assert_eq!(parts[0].chars().count(), 10);
    assert_eq!(parts.concat(), ja);
    let text = format!("{}\n\n{}", "a".repeat(60), "b".repeat(60));
    let parts = chunk(&text, 100, true);
    assert_eq!(parts[0], "a".repeat(60));
    assert_eq!(parts[1], "b".repeat(60));
    let text = format!("{}\n{}", "a".repeat(10), "b".repeat(200));
    let parts = chunk(&text, 100, true);
    assert_eq!(parts[0].chars().count(), 100);
}

#[test]
fn a_break_in_the_first_half_of_the_limit_is_not_taken() {
    assert_eq!(chunk("ab cdefghijklmnop", 10, true), vec!["ab cdefghi", "jklmnop"]);
    assert_eq!(chunk("abcdef ghijklmnop", 10, true), vec!["abcdef", " ghijklmno", "p"]);
    assert_eq!(chunk("abcde fghijklmnop", 10, true), vec!["abcde fghi", "jklmnop"]);
}

#[test]
fn thinking_status_wording_is_pinned() {
    assert_eq!(TYPING_STATUS, "is typing\u{2026}");
    assert_eq!(THINKING_STATUS, "is thinking\u{2026}");
    assert_eq!(SILENCE_MS, 3_000);
    assert_eq!(Status::Gathering.text(Lang::Ja), "集計中\u{2026}");
    assert_eq!(Status::Login.text(Lang::Ja), "サインイン中\u{2026}");
    assert_eq!(Status::Restart.text(Lang::En), "Restarting\u{2026}");
}

fn message(ts: &str, channel: Option<&str>, kind: Option<&str>, user: Option<&str>) -> MessageEvent {
    MessageEvent {
        origin: Origin {
            ts: ts.to_string(),
            channel: channel.map(|s| s.to_string()),
            channel_type: kind.map(|s| s.to_string()),
            thread_ts: None,
        },
        sender: Sender { user: user.map(|s| s.to_string()), bot_id: None },
        content: Some(Content { text: None, files: vec![] }),
        subtype: None,
        deleted_ts: None,
        message: None,
        previous_message: None,
    }
}

fn says(mut ev: MessageEvent, text: &str) -> MessageEvent {
    ev.content = Some(Content { text: some(text), files: vec![] });
    ev
}

fn ev(json: &str) -> MessageEvent {
    read_message(json).expect("event json")
}

#[test]
fn normalize_keeps_a_text_less_file_share() {
    let share = read_message(
        r#"{"type":"message","subtype":"file_share","ts":"171.002","channel":"D1",
            "channel_type":"im","user":"U1",
            "files":[{"id":"F1","name":"shot.png"},{"id":"F2"}]}"#,
    )
    .expect("file_share event must deserialize");
    let m = message_of(&share).expect("a message with files is answerable even without text");
    assert_eq!(m.text, "");
    assert_eq!(
        m.files.iter().map(|f| (f.id.as_str(), f.name.as_str())).collect::<Vec<_>>(),
        [("F1", "shot.png"), ("F2", "F2")],
        "name が無ければ id を表示名に使う(劣化ノート用)"
    );
    let empty = read_message(
        r#"{"type":"message","ts":"171.003","channel":"D1","channel_type":"im","user":"U1"}"#,
    )
    .unwrap();
    assert!(message_of(&empty).is_none());
}

#[test]
fn normalizes_channel_message() {
    let m = message_of(&ev(
        r#"{"ts":"1.1","channel":"C1","channel_type":"channel","user":"U1","text":"hi"}"#,
    ))
    .expect("should normalize");
    assert_eq!(m.channel, "C1");
    assert_eq!(m.channel_kind, ChannelKind::Channel);
    assert_eq!(m.ts, "1.1");
    assert_eq!(m.thread_ts, None);
    assert_eq!(m.user.as_deref(), Some("U1"));
    assert!(!m.is_bot);
    assert_eq!(m.text, "hi");
}

#[test]
fn normalizes_dm_with_thread() {
    let m = message_of(&ev(
        r#"{"ts":"2.2","thread_ts":"2.0","channel":"D1","channel_type":"im","user":"U1","text":"yo"}"#,
    ))
    .expect("should normalize");
    assert_eq!(m.channel_kind, ChannelKind::Dm);
    assert_eq!(m.thread_ts.as_deref(), Some("2.0"));
}

#[test]
fn marks_bot_and_system_senders() {
    let m = message_of(&ev(
        r#"{"ts":"3.3","channel":"C1","user":"U1","bot_id":"B1","text":"echo"}"#,
    ))
    .expect("should normalize");
    assert!(m.is_bot, "bot_id present must mark is_bot");
    let m = message_of(&ev(r#"{"ts":"3.4","channel":"C1","text":"joined"}"#)).expect("normalize");
    assert!(m.is_bot, "missing user must mark is_bot");
}

#[test]
fn skips_messages_we_cannot_answer() {
    assert!(
        message_of(&ev(r#"{"ts":"4.4","channel":"C1","user":"U1"}"#)).is_none(),
        "no text"
    );
    assert!(
        message_of(&ev(r#"{"ts":"4.5","user":"U1","text":"x"}"#)).is_none(),
        "no channel"
    );
}

#[test]
fn edits_and_deletions_are_told_apart_from_posts() {
    let mut edit = message("9.9", Some("C1"), Some("channel"), None);
    edit.content = None;
    edit.subtype = some("MessageChanged");
    edit.message = Some(ChangedMessage {
        ts: "1.1".to_string(),
        sender: Sender { user: some("U1"), bot_id: None },
        content: Some(Content { text: some("new"), files: vec![] }),
        edited_ts: some("9.9"),
    });
    edit.previous_message = Some(PreviousMessage {
        sender: Sender { user: some("U1"), bot_id: None },
        content: Some(Content { text: some("old"), files: vec![] }),
    });
    let m = edit_of(&edit).expect("an edit");
    assert_eq!(m.text, "new");
    assert_eq!(m.edited.as_ref().unwrap().ts, "1.1");
    assert!(matches!(inbound_of(&SlackEvent::Message(edit)), Some(m) if m.edited.is_some()));

    let mut gone = message("9.9", Some("C1"), Some("channel"), None);
    gone.deleted_ts = some("1.1");
    gone.previous_message = Some(PreviousMessage {
        sender: Sender { user: some("U1"), bot_id: None },
        content: Some(Content { text: some("old"), files: vec![] }),
    });
    let m = deletion_of(&gone).expect("a deletion");
    assert_eq!(m.deleted_ts.as_deref(), Some("1.1"));
    assert_eq!(m.text, deletion_notice("1.1", "old", false));
    assert!(inbound_of(&SlackEvent::Other).is_none());
}

fn reaction(user: &str, item: bool) -> ReactionEvent {
    ReactionEvent {
        user: user.to_string(),
        reaction: "eyes".to_string(),
        item: if item {
            Some(ReactionItem {
                origin: Origin {
                    ts: "1.1".to_string(),
                    channel: some("C1"),
                    channel_type: None,
                    thread_ts: None,
                },
                text: some("body"),
            })
        } else {
            None
        },
    }
}

#[test]
fn reactions_are_taken_on_messages_only() {
    let m = inbound_of(&SlackEvent::ReactionAdded(reaction("U1", true))).unwrap();
    let r = m.reaction.unwrap();
    assert_eq!((r.emoji.as_str(), r.item_ts.as_str(), r.added), ("eyes", "1.1", true));
    let m = inbound_of(&SlackEvent::ReactionRemoved(reaction("U1", true))).unwrap();
    assert!(!m.reaction.unwrap().added);
    assert!(inbound_of(&SlackEvent::ReactionAdded(reaction("U1", false))).is_none());
}

#[test]
fn dropped_events_say_which_and_whose() {
    let mut gone = message("9.9", Some("C1"), None, None);
    gone.deleted_ts = some("1.1");
    gone.previous_message = Some(PreviousMessage {
        sender: Sender { user: some("U1"), bot_id: some("B\"1") },
        content: None,
    });
    assert!(inbound_of(&SlackEvent::Message(ev(
        r#"{"ts":"9.9","channel":"C1","deleted_ts":"1.1","subtype":"message_deleted",
            "previous_message":{"ts":"1.1","user":"U1","bot_id":"B1","text":"x"}}"#,
    )))
    .is_none());
    assert_eq!(
        dropped_line(&SlackEvent::Message(gone)).as_deref(),
        Some(
            "message_deleted ignored ts=Some(SlackTs(\"1.1\")) \
             sender=Some((Some(SlackUserId(\"U1\")), Some(SlackBotId(\"B\\\"1\"))))"
        )
    );
    let bare = ev(r#"{"ts":"9.9","deleted_ts":"1.1"}"#);
    assert_eq!(
        dropped_line(&SlackEvent::Message(bare)).as_deref(),
        Some("message_deleted ignored ts=Some(SlackTs(\"1.1\")) sender=None")
    );
    let same = ev(
        r#"{"ts":"9.9","channel":"C1","subtype":"message_changed",
            "message":{"ts":"1.1","user":"U1","text":"a"},
            "previous_message":{"ts":"1.1","user":"U1","text":"a"}}"#,
    );
    assert!(edit_of(&same).is_none());
    assert_eq!(
        dropped_line(&SlackEvent::Message(same)).as_deref(),
        Some("message_changed ignored ts=Some(\"1.1\") sender=Some(SlackUserId(\"U1\"))")
    );
    let own = ev(
        r#"{"ts":"9.9","channel":"C1","subtype":"message_changed",
            "message":{"ts":"1.1","user":"U1","bot_id":"B1","text":"a"}}"#,
    );
    assert_eq!(dropped_line(&SlackEvent::Message(own)), None);
    let join = ev(r#"{"ts":"9.9","channel":"C1","subtype":"channel_join","user":"U1","text":"x"}"#);
    assert_eq!(
        dropped_line(&SlackEvent::Message(join)).as_deref(),
        Some("dropped unanswerable message subtype=Some(ChannelJoin)")
    );
    let odd = ev(r#"{"ts":"9.9","channel":"C1","subtype":"brand_new","user":"U1","text":"x"}"#);
    assert_eq!(
        dropped_line(&SlackEvent::Message(odd)).as_deref(),
        Some("dropped unanswerable message subtype=Some(Other(\"brand_new\"))")
    );
    assert_eq!(
        dropped_line(&SlackEvent::Message(message("4.4", Some("C1"), None, Some("U1")))).as_deref(),
        Some("dropped unanswerable message subtype=None")
    );
    assert_eq!(dropped_line(&SlackEvent::MemberJoined), None);
}

#[test]
fn an_event_handed_on_is_taken_like_one_that_came_here() {
    let hi = r#"{"ts":"1.1","channel":"C1","user":"U1","text":"hi"}"#;
    assert!(matches!(inbound_from_relay("message", hi), Relayed::Deliver(m) if m.text == "hi"));
    let edit = r#"{"ts":"9.9","channel":"C1","thread_ts":"1.0","subtype":"message_changed",
        "message":{"ts":"1.1","user":"U1","text":"new","edited":{"user":"U1","ts":"2.2"},
            "files":[{"id":"F1"}]},
        "previous_message":{"ts":"1.1","user":"U1","text":"old"}}"#;
    let Relayed::Deliver(m) = inbound_from_relay("message", edit) else { panic!("an edit") };
    let e = m.edited.unwrap();
    assert_eq!((m.text.as_str(), e.ts.as_str(), e.revision.as_str()), ("new", "1.1", "2.2"));
    assert_eq!((m.files.len(), m.thread_ts.as_deref()), (1, Some("1.0")));
    let gone = r#"{"ts":"9.9","channel":"C1","deleted_ts":"1.1",
        "previous_message":{"ts":"1.1","user":"U1","text":"old"}}"#;
    assert!(matches!(
        inbound_from_relay("message", gone),
        Relayed::Deliver(m) if m.text == deletion_notice("1.1", "old", false)
    ));
    assert!(matches!(inbound_from_relay("message", r#"{"ts":"4.4"}"#), Relayed::Drop));
    let react = r#"{"user":"U1","reaction":"eyes","event_ts":"3.3",
        "item":{"type":"message","channel":"C1","ts":"1.1","text":"body"}}"#;
    let Relayed::Deliver(m) = inbound_from_relay("reaction_added", react) else { panic!("added") };
    assert_eq!(m.channel, "C1");
    let r = m.reaction.unwrap();
    assert_eq!((r.emoji.as_str(), r.item_ts.as_str(), r.added), ("eyes", "1.1", true));
    let Relayed::Deliver(m) = inbound_from_relay("reaction_removed", react) else {
        panic!("removed")
    };
    assert!(!m.reaction.unwrap().added);
    let file = r#"{"user":"U1","reaction":"eyes","event_ts":"3.3",
        "item":{"type":"file","id":"F1"}}"#;
    assert!(matches!(inbound_from_relay("reaction_added", file), Relayed::Drop));
    let joined = r#"{"user":"U1","channel":"C1","channel_type":"C","team":"T1"}"#;
    assert!(matches!(inbound_from_relay("member_joined_channel", joined), Relayed::Drop));
    assert!(matches!(
        inbound_from_relay("pin_added", hi),
        Relayed::Unhandled(l) if l == "relay sent a \"pin_added\" we do not handle"
    ));
}

#[test]
fn an_event_that_cannot_be_read_is_told_of() {
    for name in ["message", "reaction_added", "reaction_removed", "member_joined_channel"] {
        let Relayed::Unread(l) = inbound_from_relay(name, "{}") else { panic!("{name}") };
        let head = format!("could not read a \"{name}\" the relay forwarded: missing field `");
        assert!(l.starts_with(&head), "{l}");
    }
    assert!(matches!(
        take_relayed("reaction_added", &Err("no field".to_string())),
        Relayed::Unread(l)
            if l == "could not read a \"reaction_added\" the relay forwarded: no field"
    ));
    assert!(matches!(take_relayed("message", &Ok(SlackEvent::Other)), Relayed::Drop));
}

#[test]
fn only_events_that_are_handled_are_handed_on() {
    let hi = || SlackEvent::Message(says(message("1.1", Some("C1"), None, Some("U1")), "hi"));
    assert_eq!(handed_on(&hi()), Some(RelayKind::Message));
    let r = || reaction("U1", true);
    assert_eq!(handed_on(&SlackEvent::ReactionAdded(r())), Some(RelayKind::ReactionAdded));
    assert_eq!(handed_on(&SlackEvent::ReactionRemoved(r())), Some(RelayKind::ReactionRemoved));
    assert_eq!(handed_on(&SlackEvent::MemberJoined), Some(RelayKind::MemberJoined));
    assert_eq!(handed_on(&SlackEvent::Other), None);
    assert!(matches!(
        fleet_event_of(&hi(), some("{}")),
        Some(FleetEvent::Event { name, event }) if name == "message" && event == "{}"
    ));
    assert!(fleet_event_of(&hi(), None).is_none());
    assert!(fleet_event_of(&SlackEvent::Other, some("{}")).is_none());
    for k in [
        RelayKind::Message,
        RelayKind::ReactionAdded,
        RelayKind::ReactionRemoved,
        RelayKind::MemberJoined,
    ] {
        assert_eq!(RelayKind::of(k.name()), Some(k));
    }
}

#[test]
fn a_button_says_what_was_pressed() {
    let id = action_id("allow-thread", "r1");
    assert_eq!(id, "perm:allow-thread:r1");
    let c = read_action_id(&id, "U1").unwrap();
    assert_eq!((c.action.as_str(), c.req_id.as_str(), c.by.as_str()), ("allow-thread", "r1", "U1"));
    assert!(read_action_id("other:allow:r1", "U1").is_none());
    assert!(read_action_id("perm:allow", "U1").is_none());
    let ids = vec![id, "other:x:y".to_string(), "perm:deny:r2".to_string()];
    let clicks = clicks_of(&ids, "U2");
    assert_eq!(clicks.len(), 2);
    assert_eq!((clicks[1].action.as_str(), clicks[1].by.as_str()), ("deny", "U2"));
    let c = perm_click_from_relay(
        r#"{"action_id":"perm:allow:r7"}"#,
        r#"{"user":{"id":"U9"}}"#,
    )
    .unwrap();
    assert_eq!((c.action.as_str(), c.req_id.as_str(), c.by.as_str()), ("allow", "r7", "U9"));
    assert!(perm_click_from_relay("{}", "{}").is_none());
}

#[test]
fn a_permission_prompt_shows_the_tool_and_its_buttons() {
    let body = perm_prompt_body("Bash", &"x".repeat(700));
    assert!(body.starts_with(":lock: *Permission requested* — `Bash`\n```xxx"));
    assert_eq!(body.matches('x').count(), 600);
    assert_eq!(perm_prompt_title("Bash"), "Permission: Bash");
    let b = perm_buttons("D1", "r1");
    let labels: Vec<&str> = b.iter().map(|b| b.label.as_str()).collect();
    assert_eq!(labels, vec!["Allow", "Allow for thread", "Allow for User", "Deny"]);
    assert_eq!(b[2].action_id, "perm:allow-channel:r1");
    assert_eq!((b[0].style, b[3].style), (ButtonStyle::Primary, ButtonStyle::Danger));
    assert_eq!(channel_grant_label("C1"), "Allow for Channel");
}

#[test]
fn a_root_is_gone_only_where_slack_says_so() {
    assert_eq!(thread_root_gone("C1", "1.0", &Ok(0)), (true, None));
    assert_eq!(thread_root_gone("C1", "1.0", &Ok(1)), (false, None));
    assert_eq!(thread_root_gone("C1", "1.0", &Err("thread_not_found".to_string())), (true, None));
    let (gone, line) = thread_root_gone("C1", "1.0", &Err("timeout".to_string()));
    assert!(!gone);
    assert_eq!(line.as_deref(), Some("thread-root probe C1:1.0 inconclusive: timeout"));
    assert_eq!(thinking_note(""), "cleared");
    assert_eq!(thinking_note("is typing…"), "set \"is typing…\"");
}

#[test]
fn what_slack_answers_is_read() {
    assert!(matches!(
        channel_name_of(r#"{"channel":{"id":"C1","name":"general"}}"#),
        ChannelName::Named(n) if n == "#general"
    ));
    assert!(matches!(
        bot_id_of(r#"{"user":{"is_bot":true,"profile":{"bot_id":"B42"}}}"#),
        BotId::Bot(b) if b == "B42"
    ));
    assert!(matches!(bot_id_of(r#"{"user":{"is_bot":false}}"#), BotId::Human));
    assert!(matches!(bot_id_of(r#"{"user":{"is_bot":true}}"#), BotId::Hidden));
    assert!(matches!(bot_id_of("{}"), BotId::NoUser));
    assert!(user_name_of("{}").is_none());
    let f = file_info_of(
        r#"{"file":{"url_private":"https://x","name":"a.png","size":12}}"#,
        "F1",
    )
    .unwrap();
    assert_eq!((f.url.as_str(), f.name.as_str(), f.size), ("https://x", "a.png", 12));
    assert_eq!(
        file_info_of("{}", "F1").unwrap_err(),
        "files.info returned no file for F1"
    );
    assert_eq!(
        file_info_of(r#"{"file":{}}"#, "F1").unwrap_err(),
        "file has no url_private"
    );
    assert_eq!(
        channels_of(r#"{"channels":[{"id":"C1","name":"a"},{"name":"x"},{"id":"C2"}]}"#),
        vec![("C1".to_string(), "a".to_string()), ("C2".to_string(), String::new())]
    );
}

#[test]
fn ids_and_mentions_are_told_by_their_shape() {
    assert!(SlackId::is_user("U123"));
    assert!(!SlackId::is_user("C123"));
    assert!(SlackId::is_bot("B123"));
    assert!(SlackId::is_channel("C123"));
    assert!(SlackId::is_dm("D123"));
    assert_eq!(SlackId::from_user_mention("<@U1>").as_deref(), Some("U1"));
    assert_eq!(SlackId::from_user_mention("<@U1|name>").as_deref(), Some("U1"));
    assert_eq!(SlackId::from_channel_mention("<#C1|general>").as_deref(), Some("C1"));
    assert_eq!(SlackId::from_channel_mention("nobody"), None);
}
