use agentgw::command::Command;
use agentgw::i18n::Lang;

fn service() -> Vec<String> {
    ["status", "restart", "shutdown", "start"].iter().map(|s| s.to_string()).collect()
}

#[test]
fn a_word_says_what_is_asked_for() {
    for (word, command) in [
        ("serve", Command::Serve),
        ("link", Command::Link),
        ("add-machine", Command::AddMachine),
        ("install", Command::Setup),
        ("uninstall", Command::Setup),
        ("status", Command::Service),
        ("--version", Command::Version),
        ("-V", Command::Version),
        ("version", Command::Version),
        ("", Command::Usage),
        ("sevre", Command::Usage),
    ] {
        assert_eq!(Command::of(word, &service()), command, "{word:?}");
    }
}

#[test]
fn the_directory_of_another_bot_is_left_alone() {
    let why = Command::refused("serve", "/s", true, Lang::En).unwrap();
    assert!(why.starts_with("/s belongs to a different bot (it has a bridge.sock).\n"), "{why}");
    assert!(Command::refused("serve", "/s", true, Lang::Ja).unwrap().starts_with("/s は別の"));
    assert!(Command::refused("serve", "/s", false, Lang::En).is_none());
    assert!(Command::refused("-V", "/s", true, Lang::En).is_none());
    assert!(Command::refused("", "/s", true, Lang::En).is_none());
}

#[test]
fn the_usage_names_the_version() {
    let u = Command::usage("0.18.5", Lang::En);
    assert!(u.starts_with("agentgw 0.18.5\n\nFirst:      install"), "{u}");
    assert!(u.contains("\n  add-machine user@host"), "{u}");
    assert!(Command::usage("1", Lang::Ja).starts_with("agentgw 1\n\nまず:"));
}
