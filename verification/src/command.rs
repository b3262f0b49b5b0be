//! What the program was called with.
use crate::i18n::Lang;
use crate::text;
use vstd::prelude::*;

verus! {

/// What the program is asked to do.
#[derive(Clone, Copy, Debug, PartialEq, Eq, Structural)]
pub enum Command {
    /// To run the bridge.
    Serve,
    /// To write down how this machine connects to the gateway.
    Link,
    /// To add a machine.
    AddMachine,
    /// To set this machine up, or to undo that.
    Setup,
    /// To look at the service, or to start or stop it.
    Service,
    /// To say which version it is.
    Version,
    /// Nothing that is known: how it is used is told.
    Usage,
}

/// What a word asks for. `service` are the words for the service.
pub open spec fn asked(word: Seq<char>, service: Seq<Seq<char>>) -> Command {
    if word == "serve"@ {
        Command::Serve
    } else if word == "link"@ {
        Command::Link
    } else if word == "add-machine"@ {
        Command::AddMachine
    } else if word == "install"@ || word == "uninstall"@ {
        Command::Setup
    } else if service.contains(word) {
        Command::Service
    } else if is_version(word) {
        Command::Version
    } else {
        Command::Usage
    }
}

/// The words that ask for the version.
pub open spec fn is_version(word: Seq<char>) -> bool {
    word == "--version"@ || word == "-V"@ || word == "version"@
}

/// Whether a word asks for the version.
fn asks_version(word: &str) -> (r: bool)
    ensures
        r == is_version(word@),
{
    text::same(word, "--version") || text::same(word, "-V") || text::same(word, "version")
}

/// What is said where the state directory belongs to another bot.
pub open spec fn not_ours(dir: Seq<char>, lang: Lang) -> Seq<char> {
    dir + lang.of(
        " belongs to a different bot (it has a bridge.sock).\nA second process on the same Slack app makes Slack split events between the two,\nso both bots would half-work. Nothing was done.\n\nPoint agentgw at its own state directory and try again:\n  AGENTGW_STATE_DIR=$HOME/.local/state/agentgw-dev agentgw …"@,
        " は別の実装のボットの置き場です(bridge.sock があります)。\n同じ Slack app に2本目が繋がると、Slack はイベントを複製せず半分ずつ振り分けるので、\nどちらのボットも動いたり動かなかったりします。何もしていません。\n\n置き場を指定してやり直してください:\n  AGENTGW_STATE_DIR=$HOME/.local/state/agentgw-dev agentgw …"@,
    )
}

/// How the program is used.
pub open spec fn how_to_use(version: Seq<char>, lang: Lang) -> Seq<char> {
    "agentgw "@ + version + lang.of(
        "\n\nFirst:      install  set up this machine (as the gateway or as a machine) and start it\nDay to day: status | restart | shutdown | start | uninstall\n\nAdd a machine (run on the gateway):\n  add-machine user@host   install agentgw on another machine and connect it here\n\n`serve` is what the service runs; you don't need to type it."@,
        "\n\nまず:   install            このマシンを設定して起動する(ゲートウェイかマシンかを訊きます)\nふだん: status | restart | shutdown | start | uninstall\n\nマシンを足すとき(ゲートウェイで):\n  add-machine user@host   ほかのマシンに agentgw を入れて、ここにつなぐ\n\nserve はサービスが呼ぶ本体です(手で打つ必要はありません)。"@,
    )
}

impl Command {
    /// What a word asks for.
    pub fn of(word: &str, service: &[String]) -> (c: Command)
        ensures
            c == asked(word@, text::views(service@)),
    {
        if text::same(word, "serve") {
            Command::Serve
        } else if text::same(word, "link") {
            Command::Link
        } else if text::same(word, "add-machine") {
            Command::AddMachine
        } else if text::same(word, "install") || text::same(word, "uninstall") {
            Command::Setup
        } else if text::among(service, word) {
            Command::Service
        } else if asks_version(word) {
            Command::Version
        } else {
            Command::Usage
        }
    }

    /// Why nothing may be done: the state directory has the socket of another bot. To ask for the
    /// version, or for nothing, is always in order.
    pub fn refused(word: &str, dir: &str, has_socket: bool, lang: Lang) -> (r: Option<String>)
        ensures
            match r {
                Some(why) => has_socket && word@.len() > 0 && !is_version(word@) && why@ == not_ours(
                    dir@,
                    lang,
                ),
                None => !has_socket || word@.len() == 0 || is_version(word@),
            },
    {
        if !has_socket || word.is_empty() || asks_version(word) {
            return None;
        }
        Some(
            text::cat(
                dir,
                lang.pick(
                    " belongs to a different bot (it has a bridge.sock).\nA second process on the same Slack app makes Slack split events between the two,\nso both bots would half-work. Nothing was done.\n\nPoint agentgw at its own state directory and try again:\n  AGENTGW_STATE_DIR=$HOME/.local/state/agentgw-dev agentgw …",
                    " は別の実装のボットの置き場です(bridge.sock があります)。\n同じ Slack app に2本目が繋がると、Slack はイベントを複製せず半分ずつ振り分けるので、\nどちらのボットも動いたり動かなかったりします。何もしていません。\n\n置き場を指定してやり直してください:\n  AGENTGW_STATE_DIR=$HOME/.local/state/agentgw-dev agentgw …",
                ),
            ),
        )
    }

    /// How the program is used.
    pub fn usage(version: &str, lang: Lang) -> (out: String)
        ensures
            out@ == how_to_use(version@, lang),
    {
        text::cat3(
            "agentgw ",
            version,
            lang.pick(
                "\n\nFirst:      install  set up this machine (as the gateway or as a machine) and start it\nDay to day: status | restart | shutdown | start | uninstall\n\nAdd a machine (run on the gateway):\n  add-machine user@host   install agentgw on another machine and connect it here\n\n`serve` is what the service runs; you don't need to type it.",
                "\n\nまず:   install            このマシンを設定して起動する(ゲートウェイかマシンかを訊きます)\nふだん: status | restart | shutdown | start | uninstall\n\nマシンを足すとき(ゲートウェイで):\n  add-machine user@host   ほかのマシンに agentgw を入れて、ここにつなぐ\n\nserve はサービスが呼ぶ本体です(手で打つ必要はありません)。",
            ),
        )
    }
}

} // verus!
