use agentgw::chat::ThreadKey;
use agentgw::i18n::{lang, pin, Lang};
use agentgw::log::{is_full, kept_extension, LogCtx, LogPath, MAX_LOG_BYTES, MAX_RECORD};

#[test]
fn english_unless_japanese_is_asked_for() {
    assert_eq!(Lang::parse(None), Lang::En);
    assert_eq!(Lang::parse(Some("")), Lang::En);
    assert_eq!(Lang::parse(Some("en")), Lang::En);
    assert_eq!(Lang::parse(Some("fr")), Lang::En);
    assert_eq!(Lang::parse(Some("ja")), Lang::Ja);
    assert_eq!(Lang::parse(Some(" JA ")), Lang::Ja);
    assert_eq!(Lang::parse(Some("ja_JP.UTF-8")), Lang::Ja);
}

#[test]
fn t_speaks_the_pinned_language_with_inline_captures() {
    let name = "laptop";
    let n = 3;
    let t = |l: Lang| match l {
        Lang::En => format!("Linked {name} ({n})"),
        Lang::Ja => format!("{name} をつなぎました({n})"),
    };
    let mut slot = None;
    {
        let p = pin(&mut slot, Lang::En);
        assert_eq!(t(lang(slot, Some("ja"))), "Linked laptop (3)");
        p.release(&mut slot);
    }
    {
        let p = pin(&mut slot, Lang::Ja);
        assert_eq!(t(lang(slot, None)), "laptop をつなぎました(3)");
        let files = format!("{n}{}", lang(slot, None).pick(" files", " ファイル"));
        assert_eq!(files, "3 ファイル");
        p.release(&mut slot);
    }
    assert_eq!(slot, None);
    assert_eq!(lang(slot, Some("ja")), Lang::Ja);
}

#[test]
fn pins_are_taken_off_in_turn() {
    let mut slot = Some(Lang::En);
    let p = pin(&mut slot, Lang::Ja);
    assert_eq!(slot, Some(Lang::Ja));
    p.release(&mut slot);
    assert_eq!(slot, Some(Lang::En));
}

fn ctx(session: Option<&str>, key: Option<&str>) -> LogCtx {
    LogCtx {
        session_id: session.map(|s| s.to_string()),
        thread_key: key.map(|k| ThreadKey::parse(k)),
    }
}

#[test]
fn log_line_format_is_scp44_compatible() {
    let line = ctx(Some("abc"), None).line(0, 123, "info", "bridge", "hello world");
    let parts: Vec<&str> = line.trim_end().splitn(6, ' ').collect();
    assert_eq!(parts[1], "info");
    assert_eq!(parts[2], "bridge");
    assert!(parts[3].starts_with("pid="));
    assert_eq!(parts[4], "session=abc");
    assert_eq!(parts[5], "hello world");
    assert_eq!(
        line,
        "1970-01-01T00:00:00.000Z info bridge pid=123 session=abc hello world\n"
    );
}

#[test]
fn log_line_timestamp_is_iso8601_millis_z() {
    let line = ctx(None, None).line(1_785_155_696_007, 1, "info", "bridge", "x");
    let ts = line.split(' ').next().unwrap();
    assert_eq!(ts.len(), 24, "{ts}");
    assert_eq!(&ts[4..5], "-");
    assert_eq!(&ts[10..11], "T");
    assert_eq!(&ts[19..20], ".");
    assert!(ts.ends_with('Z'), "{ts}");
    assert!(line.contains("session=-"), "{line}");
}

#[test]
fn log_message_newlines_are_escaped() {
    let line = ctx(None, None).line(0, 1, "info", "bridge", "a\nb");
    assert!(line.contains("a\\nb"), "{line}");
    assert_eq!(line.matches('\n').count(), 1, "record must be one line: {line}");
}

#[test]
fn sanitize_thread_key_replaces_colon_and_dot() {
    let c = ctx(None, Some("C0AAA:123.456"));
    assert_eq!(c.sanitized_key().unwrap(), "C0AAA-123-456");
}

#[test]
fn a_record_goes_to_its_threads_file() {
    let by_thread = ctx(Some("s"), Some("C1:1.0")).path().components();
    assert!(by_thread.iter().any(|c| c == "C1-1-0"), "{by_thread:?}");
    assert!(matches!(ctx(Some("s"), None).path(), LogPath::Session(s) if s == "s"));
    assert!(matches!(ctx(None, None).path(), LogPath::Global));
    let long = ctx(None, None).info(0, 1, "bridge", &"x".repeat(MAX_RECORD * 2));
    assert!(long.len() < MAX_RECORD * 2, "{}", long.len());
    assert!(is_full(MAX_LOG_BYTES + 1));
    assert!(!is_full(MAX_LOG_BYTES));
    assert_eq!(kept_extension(Some("log")), "log.1");
    assert!(ctx(None, None).error(0, 1, "b", "m").contains(" error b "));
    assert!(ctx(None, None).debug(0, 1, "b", "m").contains(" debug b "));
}
