//! One step after another until an added machine is connected.
use super::add::Request;
use super::{
    candidate, candidate_url, choose_source, dial_url, dialled, download_args, gh_download_args,
    nothing_to_send, remote_state_prefix, state_prefix, tailnet_name, triple_for, triple_of, Inlet,
    Source, Transport, TransportView, TUNNEL_PORT,
};
use crate::i18n::Lang;
use crate::text;
use vstd::prelude::*;

verus! {

/// How far the machine is.
#[derive(Clone, Copy, Debug, PartialEq, Eq, Structural)]
pub enum Stage {
    /// What kind of machine is it?
    Checking,
    /// What is it called?
    Naming,
    /// Which binaries are there to send?
    Choosing,
    /// A directory to download into.
    Staging,
    Downloading,
    /// A directory for the binary over there.
    MakingDir,
    /// A binary that runs cannot be overwritten, so it is put aside.
    MovingOld,
    Copying,
    /// The binary is made one that runs, the old one is removed.
    Marking,
    /// The installer is sent.
    Putting,
    MarkingInstaller,
    /// What was downloaded is removed here.
    Clearing,
    /// This machine's door is opened.
    Opening,
    /// Is there a way without a tunnel?
    Looking,
    /// There is none, so a tunnel is asked for.
    Tunnelling,
    /// The machine is told where to dial.
    Linking,
    Installing,
    /// The installer is removed, whether it worked or not.
    Tidying,
    /// Does it connect?
    Waiting,
    /// It did without a tunnel, so none is needed any more.
    Dropping,
    /// It did not without a tunnel, so one is asked for.
    Falling,
    Relinking,
    Restarting,
    /// Does it connect now?
    WaitingAgain,
    Over,
}

/// What this machine is to do next. What it did is told to [`Adding::reply`].
#[derive(Debug)]
pub enum Act {
    /// Run a command over there for what it prints.
    Capture(String),
    /// Find out whether releases can be downloaded, and whether a binary for this triple was built.
    FindBinary(String),
    /// Make the directory to download into.
    MakeStaging,
    /// Run `gh` with these arguments.
    Download(Vec<String>),
    /// Run a command over there.
    Run(String),
    /// Copy a file from here to there.
    Copy { binary: String, to: String },
    /// Write the installer over there.
    PutInstaller(String),
    /// Remove the directory that was downloaded into.
    ClearStaging,
    /// Open this machine's door.
    OpenInlet,
    /// Look at the settings and the tailnet for an address.
    Look,
    /// Put the tunnel to the machine on the list, or take it off.
    SetTunnel { child: String, target: Option<String> },
    /// Run a command over there that reads the address and the key.
    Link { command: String, url: String, token: String },
    /// Run a command over there on this terminal.
    Interactive(String),
    /// Wait until the machine of this name is connected, or for long enough.
    Await(String),
    /// That was all: what is said at the end, or why it went wrong.
    Done(Result<String, String>),
}

/// What is to be done next, as a value.
#[verifier::ext_equal]
pub enum ActView {
    Capture(Seq<char>),
    FindBinary(Seq<char>),
    MakeStaging,
    Download(Seq<Seq<char>>),
    Run(Seq<char>),
    Copy { binary: Seq<char>, to: Seq<char> },
    PutInstaller(Seq<char>),
    ClearStaging,
    OpenInlet,
    Look,
    SetTunnel { child: Seq<char>, target: Option<Seq<char>> },
    Link { command: Seq<char>, url: Seq<char>, token: Seq<char> },
    Interactive(Seq<char>),
    Await(Seq<char>),
    Done(Result<Seq<char>, Seq<char>>),
}

pub open spec fn result_view(r: Result<String, String>) -> Result<Seq<char>, Seq<char>> {
    match r {
        Ok(t) => Ok(t@),
        Err(why) => Err(why@),
    }
}

impl View for Act {
    type V = ActView;

    open spec fn view(&self) -> ActView {
        match self {
            Act::Capture(c) => ActView::Capture(c@),
            Act::FindBinary(t) => ActView::FindBinary(t@),
            Act::MakeStaging => ActView::MakeStaging,
            Act::Download(args) => ActView::Download(text::views(args@)),
            Act::Run(c) => ActView::Run(c@),
            Act::Copy { binary, to } => ActView::Copy { binary: binary@, to: to@ },
            Act::PutInstaller(to) => ActView::PutInstaller(to@),
            Act::ClearStaging => ActView::ClearStaging,
            Act::OpenInlet => ActView::OpenInlet,
            Act::Look => ActView::Look,
            Act::SetTunnel { child, target } => ActView::SetTunnel {
                child: child@,
                target: text::opt_view(*target),
            },
            Act::Link { command, url, token } => ActView::Link {
                command: command@,
                url: url@,
                token: token@,
            },
            Act::Interactive(c) => ActView::Interactive(c@),
            Act::Await(child) => ActView::Await(child@),
            Act::Done(r) => ActView::Done(result_view(*r)),
        }
    }
}

/// What came of an act.
#[derive(Debug)]
pub enum Reply {
    /// It worked and gave this text, or it did not.
    Text(Result<String, String>),
    /// Whether releases can be downloaded, and the path of a binary that was built here.
    Found { has_gh: bool, dist: Option<String> },
    /// The door is open, or why it is not.
    Opened(Result<Inlet, String>),
    /// The remembered address, what `tailscale status --json` prints, the state directory chosen
    /// here, and the home directory.
    Ways {
        env_url: Option<String>,
        tailscale_json: Option<String>,
        state_dir: Option<String>,
        home: String,
    },
    /// Whether the machine is connected.
    Seen(bool),
}

/// What came of an act, as a value. Of the door only the key counts.
pub enum ReplyView {
    Text(Result<Seq<char>, Seq<char>>),
    Found { has_gh: bool, dist: Option<Seq<char>> },
    Opened(Result<Seq<char>, Seq<char>>),
    Ways {
        env_url: Option<Seq<char>>,
        tailscale_json: Option<Seq<char>>,
        state_dir: Option<Seq<char>>,
        home: Seq<char>,
    },
    Seen(bool),
}

impl View for Reply {
    type V = ReplyView;

    open spec fn view(&self) -> ReplyView {
        match self {
            Reply::Text(r) => ReplyView::Text(result_view(*r)),
            Reply::Found { has_gh, dist } => ReplyView::Found {
                has_gh: *has_gh,
                dist: text::opt_view(*dist),
            },
            Reply::Opened(Ok(inlet)) => ReplyView::Opened(Ok(inlet.token@)),
            Reply::Opened(Err(why)) => ReplyView::Opened(Err(why@)),
            Reply::Ways { env_url, tailscale_json, state_dir, home } => ReplyView::Ways {
                env_url: text::opt_view(*env_url),
                tailscale_json: text::opt_view(*tailscale_json),
                state_dir: text::opt_view(*state_dir),
                home: home@,
            },
            Reply::Seen(b) => ReplyView::Seen(*b),
        }
    }
}

/// A machine that is being added.
#[derive(Debug)]
pub struct Adding {
    target: String,
    name: Option<String>,
    from: Option<String>,
    version: String,
    staging: String,
    lang: Lang,
    triple: String,
    tag: String,
    binary: String,
    child: String,
    prefix: String,
    token: String,
    way: Transport,
    installed: Option<String>,
    end: Result<String, String>,
    stage: Stage,
}

/// A machine that is being added, as a value.
#[verifier::ext_equal]
pub struct AddingView {
    /// Where `ssh` leads.
    pub target: Seq<char>,
    /// The name that was asked for.
    pub name: Option<Seq<char>>,
    /// The binary that was asked for.
    pub from: Option<Seq<char>>,
    /// The version of this program.
    pub version: Seq<char>,
    /// The directory to download into.
    pub staging: Seq<char>,
    pub lang: Lang,
    pub triple: Seq<char>,
    /// The release that is downloaded.
    pub tag: Seq<char>,
    /// The binary that is sent.
    pub binary: Seq<char>,
    /// The machine's name.
    pub child: Seq<char>,
    /// What stands in front of a command over there.
    pub prefix: Seq<char>,
    /// The key to this machine's door.
    pub token: Seq<char>,
    pub way: TransportView,
    /// Why the installer failed, if it did.
    pub installed: Option<Seq<char>>,
    pub end: Result<Seq<char>, Seq<char>>,
    pub stage: Stage,
}

impl View for Adding {
    type V = AddingView;

    closed spec fn view(&self) -> AddingView {
        AddingView {
            target: self.target@,
            name: text::opt_view(self.name),
            from: text::opt_view(self.from),
            version: self.version@,
            staging: self.staging@,
            lang: self.lang,
            triple: self.triple@,
            tag: self.tag@,
            binary: self.binary@,
            child: self.child@,
            prefix: self.prefix@,
            token: self.token@,
            way: self.way@,
            installed: text::opt_view(self.installed),
            end: result_view(self.end),
            stage: self.stage,
        }
    }
}

// ── what is said ────────────────────────────────────────────────────────────

/// The machine is looked at.
pub open spec fn checking_said(target: Seq<char>, lang: Lang) -> Seq<char> {
    match lang {
        Lang::En => "==> Checking "@ + target,
        Lang::Ja => "==> "@ + target + " を確認しています"@,
    }
}

/// No binary is built for this kind of machine.
pub open spec fn no_binary_for(uname: Seq<char>, lang: Lang) -> Seq<char> {
    match lang {
        Lang::En => "There is no prebuilt binary for "@ + uname + ". Build and install agentgw there by hand."@,
        Lang::Ja => uname + " 用のバイナリは配布していません。そのマシンでビルドして入れてください。"@,
    }
}

/// What kind of machine it is.
pub open spec fn kind_said(uname: Seq<char>, triple: Seq<char>) -> Seq<char> {
    "  "@ + uname + " ("@ + triple + ")"@
}

/// The machine has no name.
pub open spec fn no_name(lang: Lang) -> Seq<char> {
    match lang {
        Lang::En => "Couldn't work out this machine's name. Pass --name <name>."@,
        Lang::Ja => "このマシンの名前が決められません。--name <名前> を付けてください"@,
    }
}

/// The name the machine goes by.
pub open spec fn name_said(child: Seq<char>, lang: Lang) -> Seq<char> {
    match lang {
        Lang::En => "  Name: "@ + child,
        Lang::Ja => "  名前: "@ + child,
    }
}

/// A release is downloaded.
pub open spec fn downloading_said(tag: Seq<char>, lang: Lang) -> Seq<char> {
    match lang {
        Lang::En => "==> Downloading release "@ + tag + " from GitHub"@,
        Lang::Ja => "==> GitHub から "@ + tag + " をダウンロードしています"@,
    }
}

/// A binary that was built here is sent.
pub open spec fn built_here_said(lang: Lang) -> Seq<char> {
    match lang {
        Lang::En => "==> Using the binary built on this machine"@,
        Lang::Ja => "==> このマシンでビルドしたバイナリを使います"@,
    }
}

/// The binary is copied.
pub open spec fn copying_said(target: Seq<char>, lang: Lang) -> Seq<char> {
    match lang {
        Lang::En => "==> Copying agentgw to "@ + target,
        Lang::Ja => "==> "@ + target + " に agentgw をコピーしています"@,
    }
}

/// A way without a tunnel is tried.
pub open spec fn direct_said(url: Seq<char>, lang: Lang) -> Seq<char> {
    match lang {
        Lang::En => "==> Trying a direct connection to "@ + url,
        Lang::Ja => "==> "@ + url + " への直結を試しています"@,
    }
}

/// There is no address to try.
pub open spec fn no_address_said(child: Seq<char>, lang: Lang) -> Seq<char> {
    match lang {
        Lang::En => "==> This gateway has no public address, so "@ + child + " will connect over an ssh tunnel"@,
        Lang::Ja => "==> このゲートウェイには公開アドレスが無いので、"@ + child + " を ssh トンネルでつなぎます"@,
    }
}

/// The binary is installed.
pub open spec fn installing_said(target: Seq<char>, lang: Lang) -> Seq<char> {
    match lang {
        Lang::En => "==> Installing and starting agentgw on "@ + target,
        Lang::Ja => "==> "@ + target + " に agentgw をインストールして起動しています"@,
    }
}

/// A tunnel takes the place of the direct way.
pub open spec fn falling_said(lang: Lang) -> Seq<char> {
    match lang {
        Lang::En => "==> The direct connection didn't work. Switching to an ssh tunnel."@,
        Lang::Ja => "==> 直結ではつながりませんでした。ssh トンネルに切り替えます。"@,
    }
}

/// Neither way leads here.
pub open spec fn unreachable(child: Seq<char>, target: Seq<char>, lang: Lang) -> Seq<char> {
    match lang {
        Lang::En => child + " can't reach the gateway, either directly or over an ssh tunnel.\nIts log: ssh "@ + target + " 'tail ~/.local/state/agentgw/plugin-debug.log'"@,
        Lang::Ja => child + " がゲートウェイにつながりません。直結でも ssh トンネルでもだめでした。\n"@ + child + " のログ: ssh "@ + target + " 'tail ~/.local/state/agentgw/plugin-debug.log'"@,
    }
}

/// The tunnel does not lead here.
pub open spec fn unreachable_by_tunnel(child: Seq<char>, target: Seq<char>, lang: Lang) -> Seq<char> {
    match lang {
        Lang::En => child + " can't reach the gateway over the ssh tunnel.\nThis machine's log: grep tunnel ~/.local/state/agentgw/plugin-debug.log\n"@ + child + "'s log: ssh "@ + target + " 'tail ~/.local/state/agentgw/plugin-debug.log'"@,
        Lang::Ja => child + " が ssh トンネル経由でゲートウェイにつながりません。\nこのマシンのログ: grep tunnel ~/.local/state/agentgw/plugin-debug.log\n"@ + child + " のログ: ssh "@ + target + " 'tail ~/.local/state/agentgw/plugin-debug.log'"@,
    }
}

/// Without a tunnel.
pub open spec fn directly(url: Seq<char>, lang: Lang) -> Seq<char> {
    match lang {
        Lang::En => "directly ("@ + url + ")"@,
        Lang::Ja => "直結("@ + url + ")"@,
    }
}

/// Through a tunnel.
pub open spec fn by_tunnel(lang: Lang) -> Seq<char> {
    match lang {
        Lang::En => "over an ssh tunnel"@,
        Lang::Ja => "ssh トンネル経由"@,
    }
}

/// The machine is connected.
pub open spec fn connected_said(child: Seq<char>, how: Seq<char>, lang: Lang) -> Seq<char> {
    match lang {
        Lang::En => "\n"@ + child + " is connected "@ + how + ".\nTo hand a Slack channel to it, type `route "@ + child + "` in that channel."@,
        Lang::Ja => "\n"@ + child + " がつながりました("@ + how + ")。\nSlack のチャンネルを任せるには、そのチャンネルで `route "@ + child + "` と打ってください。"@,
    }
}

fn say_checking_said(target: &str, lang: Lang) -> (out: String)
    ensures
        out@ == checking_said(target@, lang),
{
    match lang {
        Lang::En => {
            text::cat("==> Checking ", target)
        },
        Lang::Ja => {
            text::cat3("==> ", target, " を確認しています")
        },
    }
}

fn say_no_binary_for(uname: &str, lang: Lang) -> (out: String)
    ensures
        out@ == no_binary_for(uname@, lang),
{
    match lang {
        Lang::En => {
            text::cat3("There is no prebuilt binary for ", uname, ". Build and install agentgw there by hand.")
        },
        Lang::Ja => {
            text::cat(uname, " 用のバイナリは配布していません。そのマシンでビルドして入れてください。")
        },
    }
}

fn say_kind_said(uname: &str, triple: &str) -> (out: String)
    ensures
        out@ == kind_said(uname@, triple@),
{
    text::cat5("  ", uname, " (", triple, ")")
}

fn say_no_name(lang: Lang) -> (out: String)
    ensures
        out@ == no_name(lang),
{
    match lang {
        Lang::En => {
            "Couldn't work out this machine's name. Pass --name <name>.".to_owned()
        },
        Lang::Ja => {
            "このマシンの名前が決められません。--name <名前> を付けてください".to_owned()
        },
    }
}

fn say_name_said(child: &str, lang: Lang) -> (out: String)
    ensures
        out@ == name_said(child@, lang),
{
    match lang {
        Lang::En => {
            text::cat("  Name: ", child)
        },
        Lang::Ja => {
            text::cat("  名前: ", child)
        },
    }
}

fn say_downloading_said(tag: &str, lang: Lang) -> (out: String)
    ensures
        out@ == downloading_said(tag@, lang),
{
    match lang {
        Lang::En => {
            text::cat3("==> Downloading release ", tag, " from GitHub")
        },
        Lang::Ja => {
            text::cat3("==> GitHub から ", tag, " をダウンロードしています")
        },
    }
}

fn say_built_here_said(lang: Lang) -> (out: String)
    ensures
        out@ == built_here_said(lang),
{
    match lang {
        Lang::En => {
            "==> Using the binary built on this machine".to_owned()
        },
        Lang::Ja => {
            "==> このマシンでビルドしたバイナリを使います".to_owned()
        },
    }
}

fn say_copying_said(target: &str, lang: Lang) -> (out: String)
    ensures
        out@ == copying_said(target@, lang),
{
    match lang {
        Lang::En => {
            text::cat("==> Copying agentgw to ", target)
        },
        Lang::Ja => {
            text::cat3("==> ", target, " に agentgw をコピーしています")
        },
    }
}

fn say_direct_said(url: &str, lang: Lang) -> (out: String)
    ensures
        out@ == direct_said(url@, lang),
{
    match lang {
        Lang::En => {
            text::cat("==> Trying a direct connection to ", url)
        },
        Lang::Ja => {
            text::cat3("==> ", url, " への直結を試しています")
        },
    }
}

fn say_no_address_said(child: &str, lang: Lang) -> (out: String)
    ensures
        out@ == no_address_said(child@, lang),
{
    match lang {
        Lang::En => {
            text::cat3("==> This gateway has no public address, so ", child, " will connect over an ssh tunnel")
        },
        Lang::Ja => {
            text::cat3("==> このゲートウェイには公開アドレスが無いので、", child, " を ssh トンネルでつなぎます")
        },
    }
}

fn say_installing_said(target: &str, lang: Lang) -> (out: String)
    ensures
        out@ == installing_said(target@, lang),
{
    match lang {
        Lang::En => {
            text::cat("==> Installing and starting agentgw on ", target)
        },
        Lang::Ja => {
            text::cat3("==> ", target, " に agentgw をインストールして起動しています")
        },
    }
}

fn say_falling_said(lang: Lang) -> (out: String)
    ensures
        out@ == falling_said(lang),
{
    match lang {
        Lang::En => {
            "==> The direct connection didn't work. Switching to an ssh tunnel.".to_owned()
        },
        Lang::Ja => {
            "==> 直結ではつながりませんでした。ssh トンネルに切り替えます。".to_owned()
        },
    }
}

fn say_unreachable(child: &str, target: &str, lang: Lang) -> (out: String)
    ensures
        out@ == unreachable(child@, target@, lang),
{
    match lang {
        Lang::En => {
            text::cat4(child, " can't reach the gateway, either directly or over an ssh tunnel.\nIts log: ssh ", target, " 'tail ~/.local/state/agentgw/plugin-debug.log'")
        },
        Lang::Ja => {
            let mut out: String = text::cat5(child, " がゲートウェイにつながりません。直結でも ssh トンネルでもだめでした。\n", child, " のログ: ssh ", target);
            out.append(" 'tail ~/.local/state/agentgw/plugin-debug.log'");
            out
        },
    }
}

fn say_unreachable_by_tunnel(child: &str, target: &str, lang: Lang) -> (out: String)
    ensures
        out@ == unreachable_by_tunnel(child@, target@, lang),
{
    match lang {
        Lang::En => {
            let mut out: String = text::cat5(child, " can't reach the gateway over the ssh tunnel.\nThis machine's log: grep tunnel ~/.local/state/agentgw/plugin-debug.log\n", child, "'s log: ssh ", target);
            out.append(" 'tail ~/.local/state/agentgw/plugin-debug.log'");
            out
        },
        Lang::Ja => {
            let mut out: String = text::cat5(child, " が ssh トンネル経由でゲートウェイにつながりません。\nこのマシンのログ: grep tunnel ~/.local/state/agentgw/plugin-debug.log\n", child, " のログ: ssh ", target);
            out.append(" 'tail ~/.local/state/agentgw/plugin-debug.log'");
            out
        },
    }
}

fn say_directly(url: &str, lang: Lang) -> (out: String)
    ensures
        out@ == directly(url@, lang),
{
    match lang {
        Lang::En => {
            text::cat3("directly (", url, ")")
        },
        Lang::Ja => {
            text::cat3("直結(", url, ")")
        },
    }
}

fn say_by_tunnel(lang: Lang) -> (out: String)
    ensures
        out@ == by_tunnel(lang),
{
    match lang {
        Lang::En => {
            "over an ssh tunnel".to_owned()
        },
        Lang::Ja => {
            "ssh トンネル経由".to_owned()
        },
    }
}

fn say_connected_said(child: &str, how: &str, lang: Lang) -> (out: String)
    ensures
        out@ == connected_said(child@, how@, lang),
{
    match lang {
        Lang::En => {
            let mut out: String = text::cat5("\n", child, " is connected ", how, ".\nTo hand a Slack channel to it, type `route ");
            out.append(child);
            out.append("` in that channel.");
            out
        },
        Lang::Ja => {
            let mut out: String = text::cat5("\n", child, " がつながりました(", how, ")。\nSlack のチャンネルを任せるには、そのチャンネルで `route ");
            out.append(child);
            out.append("` と打ってください。");
            out
        },
    }
}

// ── the steps ───────────────────────────────────────────────────────────────

/// A machine one step on, and what is said meanwhile.
pub struct StepView {
    pub next: AddingView,
    pub says: Seq<Seq<char>>,
}

impl AddingView {
    /// At another stage, saying nothing.
    pub open spec fn at(self, stage: Stage) -> StepView {
        StepView { next: AddingView { stage, ..self }, says: Seq::empty() }
    }

    /// At its end.
    pub open spec fn over(self, end: Result<Seq<char>, Seq<char>>) -> StepView {
        StepView { next: AddingView { stage: Stage::Over, end, ..self }, says: Seq::empty() }
    }

    /// What is to be done now.
    pub open spec fn question(self) -> ActView {
        match self.stage {
            Stage::Checking => ActView::Capture("uname -sm"@),
            Stage::Naming => ActView::Capture("hostname -s 2>/dev/null || hostname"@),
            Stage::Choosing => ActView::FindBinary(self.triple),
            Stage::Staging => ActView::MakeStaging,
            Stage::Downloading => ActView::Download(
                download_args(self.tag, self.triple, self.staging),
            ),
            Stage::MakingDir => ActView::Run("mkdir -p ~/.local/bin"@),
            Stage::MovingOld => ActView::Run(
                "[ -e .local/bin/agentgw ] && mv -f .local/bin/agentgw .local/bin/agentgw.old || true"@,
            ),
            Stage::Copying => ActView::Copy { binary: self.binary, to: ".local/bin/agentgw"@ },
            Stage::Marking => ActView::Run(
                "chmod 755 .local/bin/agentgw && rm -f .local/bin/agentgw.old"@,
            ),
            Stage::Putting => ActView::PutInstaller(".local/bin/agentgw-install.sh"@),
            Stage::MarkingInstaller => ActView::Run("chmod 755 .local/bin/agentgw-install.sh"@),
            Stage::Clearing => ActView::ClearStaging,
            Stage::Opening => ActView::OpenInlet,
            Stage::Looking => ActView::Look,
            Stage::Tunnelling | Stage::Falling => ActView::SetTunnel {
                child: self.child,
                target: Some(self.target),
            },
            Stage::Dropping => ActView::SetTunnel { child: self.child, target: None },
            Stage::Linking | Stage::Relinking => ActView::Link {
                command: self.prefix + "~/.local/bin/agentgw link --name '"@ + self.child + "' -"@,
                url: dialled(self.way),
                token: self.token,
            },
            Stage::Installing => ActView::Interactive(
                self.prefix + "~/.local/bin/agentgw-install.sh --from ~/.local/bin/agentgw"@,
            ),
            Stage::Tidying => ActView::Run("rm -f ~/.local/bin/agentgw-install.sh"@),
            Stage::Waiting | Stage::WaitingAgain => ActView::Await(self.child),
            Stage::Restarting => ActView::Run(self.prefix + "~/.local/bin/agentgw restart"@),
            Stage::Over => ActView::Done(self.end),
        }
    }

    /// The machine goes by this name: what it is sent is next.
    pub open spec fn named(self, says: Seq<Seq<char>>, child: Seq<char>) -> StepView {
        if child.len() == 0 {
            StepView {
                next: AddingView { child, ..self.over(Err(no_name(self.lang))).next },
                says,
            }
        } else {
            let told = says.push(name_said(child, self.lang));
            match self.from {
                Some(p) => AddingView { child, ..self }.sent(told, p),
                None => StepView {
                    next: AddingView { child, stage: Stage::Choosing, ..self },
                    says: told,
                },
            }
        }
    }

    /// This binary is sent.
    pub open spec fn sent(self, says: Seq<Seq<char>>, binary: Seq<char>) -> StepView {
        StepView {
            next: AddingView { binary, stage: Stage::MakingDir, ..self },
            says: says.push(copying_said(self.target, self.lang)),
        }
    }

    /// The machine is of this kind.
    pub open spec fn checked(self, uname: Seq<char>) -> StepView {
        match triple_of(uname) {
            None => self.over(Err(no_binary_for(uname, self.lang))),
            Some(triple) => {
                let kind = seq![kind_said(uname, triple)];
                match self.name {
                    Some(n) => AddingView { triple, ..self }.named(kind, text::trimmed(n)),
                    None => StepView {
                        next: AddingView { triple, stage: Stage::Naming, ..self },
                        says: kind,
                    },
                }
            },
        }
    }

    /// These binaries are there.
    pub open spec fn chosen(self, has_gh: bool, dist: Option<Seq<char>>) -> StepView {
        if has_gh {
            StepView {
                next: AddingView { tag: "v"@ + self.version, stage: Stage::Staging, ..self },
                says: Seq::empty(),
            }
        } else {
            match dist {
                Some(p) => self.sent(seq![built_here_said(self.lang)], p),
                None => self.over(Err(nothing_to_send(self.lang))),
            }
        }
    }

    /// This address may be dialled without a tunnel, if there is one.
    pub open spec fn looked(self, address: Option<Seq<char>>, prefix: Seq<char>) -> StepView {
        match address {
            Some(url) => StepView {
                next: AddingView {
                    prefix,
                    way: TransportView::Direct { url },
                    stage: Stage::Linking,
                    ..self
                },
                says: seq![direct_said(url, self.lang)],
            },
            None => StepView {
                next: AddingView { prefix, stage: Stage::Tunnelling, ..self },
                says: seq![no_address_said(self.child, self.lang)],
            },
        }
    }

    /// Through a tunnel from here on.
    pub open spec fn tunnelled(self, stage: Stage) -> StepView {
        AddingView { way: TransportView::Tunnel { remote_port: TUNNEL_PORT }, ..self }.at(stage)
    }

    /// What is said at the end of all.
    pub open spec fn connected(self) -> Seq<char> {
        connected_said(
            self.child,
            match self.way {
                TransportView::Direct { url } => directly(url, self.lang),
                TransportView::Tunnel { .. } => by_tunnel(self.lang),
            },
            self.lang,
        )
    }

    /// The machine was waited for.
    pub open spec fn waited(self, seen: bool) -> StepView {
        match self.way {
            TransportView::Direct { .. } => if seen {
                self.at(Stage::Dropping)
            } else {
                StepView {
                    next: AddingView { stage: Stage::Falling, ..self },
                    says: seq![falling_said(self.lang)],
                }
            },
            TransportView::Tunnel { .. } => if seen {
                self.over(Ok(self.connected()))
            } else {
                self.over(Err(unreachable_by_tunnel(self.child, self.target, self.lang)))
            },
        }
    }

    /// An act worked and gave this text.
    pub open spec fn worked(self, out: Seq<char>) -> StepView {
        match self.stage {
            Stage::Checking => self.checked(out),
            Stage::Naming => self.named(Seq::empty(), text::trimmed(out)),
            Stage::Staging => StepView {
                next: AddingView { stage: Stage::Downloading, ..self },
                says: seq![downloading_said(self.tag, self.lang)],
            },
            Stage::Downloading => self.sent(Seq::empty(), out),
            Stage::MakingDir => self.at(Stage::MovingOld),
            Stage::MovingOld => self.at(Stage::Copying),
            Stage::Copying => self.at(Stage::Marking),
            Stage::Marking => self.at(Stage::Putting),
            Stage::Putting => self.at(Stage::MarkingInstaller),
            Stage::MarkingInstaller => self.at(Stage::Clearing),
            Stage::Clearing => self.at(Stage::Opening),
            Stage::Tunnelling => self.tunnelled(Stage::Linking),
            Stage::Linking => StepView {
                next: AddingView { stage: Stage::Installing, ..self },
                says: seq![installing_said(self.target, self.lang)],
            },
            Stage::Installing => AddingView { installed: None, ..self }.at(Stage::Tidying),
            Stage::Tidying => self.tidied(),
            Stage::Dropping => self.over(Ok(self.connected())),
            Stage::Falling => self.tunnelled(Stage::Relinking),
            Stage::Relinking => self.at(Stage::Restarting),
            Stage::Restarting => self.at(Stage::WaitingAgain),
            _ => self.at(self.stage),
        }
    }

    /// The installer is gone, so it counts whether it worked.
    pub open spec fn tidied(self) -> StepView {
        match self.installed {
            Some(why) => self.over(Err(why)),
            None => self.at(Stage::Waiting),
        }
    }

    /// An act did not work. Most of them end it all.
    pub open spec fn failed(self, why: Seq<char>) -> StepView {
        match self.stage {
            Stage::Naming => self.named(Seq::empty(), text::trimmed(""@)),
            Stage::Clearing => self.at(Stage::Opening),
            Stage::Installing => AddingView { installed: Some(why), ..self }.at(Stage::Tidying),
            Stage::Tidying => self.tidied(),
            Stage::Choosing | Stage::Opening | Stage::Looking | Stage::Waiting
            | Stage::WaitingAgain | Stage::Over => self.at(self.stage),
            _ => self.over(Err(why)),
        }
    }

    /// What follows on a reply. A reply to something else than what was asked changes nothing.
    pub open spec fn after(self, r: ReplyView) -> StepView {
        match (self.stage, r) {
            (_, ReplyView::Text(Ok(out))) => self.worked(out),
            (_, ReplyView::Text(Err(why))) => self.failed(why),
            (Stage::Choosing, ReplyView::Found { has_gh, dist }) => self.chosen(has_gh, dist),
            (Stage::Opening, ReplyView::Opened(Ok(token))) => AddingView { token, ..self }.at(
                Stage::Looking,
            ),
            (Stage::Opening, ReplyView::Opened(Err(why))) => self.over(Err(why)),
            (
                Stage::Looking,
                ReplyView::Ways { env_url, tailscale_json, state_dir, home },
            ) => self.looked(
                candidate(env_url, tailnet_name(tailscale_json)),
                state_prefix(state_dir, home),
            ),
            (Stage::Waiting, ReplyView::Seen(seen)) => self.waited(seen),
            (Stage::WaitingAgain, ReplyView::Seen(true)) => self.over(Ok(self.connected())),
            (Stage::WaitingAgain, ReplyView::Seen(false)) => self.over(
                Err(unreachable(self.child, self.target, self.lang)),
            ),
            _ => self.at(self.stage),
        }
    }
}

impl Adding {
    /// Begins to add a machine. `version` is this program's, `staging` a directory to download into.
    pub fn new(request: Request, version: &str, staging: &str, lang: Lang) -> (r: (Self, Vec<String>))
        ensures
            ({
                let a = r.0@;
                &&& a.target == request.target@
                &&& a.name == text::opt_view(request.name)
                &&& a.from == text::opt_view(request.from)
                &&& a.version == version@
                &&& a.staging == staging@
                &&& a.lang == lang
                &&& a.stage == Stage::Checking
                &&& text::views(r.1@) == seq![checking_said(request.target@, lang)]
            }),
    {
        broadcast use text::lemma_views_push, text::lemma_views_empty;

        let mut says: Vec<String> = Vec::new();
        says.push(say_checking_said(request.target.as_str(), lang));
        proof {
            assert(text::views(says@) =~= seq![checking_said(request.target@, lang)]);
        }
        let a: Adding = Adding {
            target: request.target,
            name: request.name,
            from: request.from,
            version: version.to_owned(),
            staging: staging.to_owned(),
            lang,
            triple: String::new(),
            tag: String::new(),
            binary: String::new(),
            child: String::new(),
            prefix: String::new(),
            token: String::new(),
            way: Transport::Tunnel { remote_port: TUNNEL_PORT },
            installed: None,
            end: Ok(String::new()),
            stage: Stage::Checking,
        };
        (a, says)
    }

    /// What is to be done now.
    pub fn act(&self) -> (act: Act)
        ensures
            act@ == self@.question(),
    {
        match self.stage {
            Stage::Checking => Act::Capture("uname -sm".to_owned()),
            Stage::Naming => Act::Capture("hostname -s 2>/dev/null || hostname".to_owned()),
            Stage::Choosing => Act::FindBinary(self.triple.clone()),
            Stage::Staging => Act::MakeStaging,
            Stage::Downloading => Act::Download(
                gh_download_args(self.tag.as_str(), self.triple.as_str(), self.staging.as_str()),
            ),
            Stage::MakingDir => Act::Run("mkdir -p ~/.local/bin".to_owned()),
            Stage::MovingOld => Act::Run(
                "[ -e .local/bin/agentgw ] && mv -f .local/bin/agentgw .local/bin/agentgw.old || true".to_owned(),
            ),
            Stage::Copying => Act::Copy {
                binary: self.binary.clone(),
                to: ".local/bin/agentgw".to_owned(),
            },
            Stage::Marking => Act::Run(
                "chmod 755 .local/bin/agentgw && rm -f .local/bin/agentgw.old".to_owned(),
            ),
            Stage::Putting => Act::PutInstaller(".local/bin/agentgw-install.sh".to_owned()),
            Stage::MarkingInstaller => Act::Run(
                "chmod 755 .local/bin/agentgw-install.sh".to_owned(),
            ),
            Stage::Clearing => Act::ClearStaging,
            Stage::Opening => Act::OpenInlet,
            Stage::Looking => Act::Look,
            Stage::Tunnelling | Stage::Falling => Act::SetTunnel {
                child: self.child.clone(),
                target: Some(self.target.clone()),
            },
            Stage::Dropping => Act::SetTunnel { child: self.child.clone(), target: None },
            Stage::Linking | Stage::Relinking => Act::Link {
                command: text::cat4(
                    self.prefix.as_str(),
                    "~/.local/bin/agentgw link --name '",
                    self.child.as_str(),
                    "' -",
                ),
                url: dial_url(&self.way),
                token: self.token.clone(),
            },
            Stage::Installing => Act::Interactive(
                text::cat(
                    self.prefix.as_str(),
                    "~/.local/bin/agentgw-install.sh --from ~/.local/bin/agentgw",
                ),
            ),
            Stage::Tidying => Act::Run("rm -f ~/.local/bin/agentgw-install.sh".to_owned()),
            Stage::Waiting | Stage::WaitingAgain => Act::Await(self.child.clone()),
            Stage::Restarting => Act::Run(
                text::cat(self.prefix.as_str(), "~/.local/bin/agentgw restart"),
            ),
            Stage::Over => match &self.end {
                Ok(said) => Act::Done(Ok(said.clone())),
                Err(why) => Act::Done(Err(why.clone())),
            },
        }
    }

    fn finish(&mut self, end: Result<String, String>)
        ensures
            final(self)@ == old(self)@.over(result_view(end)).next,
    {
        self.end = end;
        self.stage = Stage::Over;
    }

    fn take_name(&mut self, says: &mut Vec<String>, child: String)
        ensures
            final(self)@ == old(self)@.named(text::views(old(says)@), child@).next,
            text::views(final(says)@) == old(self)@.named(text::views(old(says)@), child@).says,
    {
        broadcast use text::lemma_views_push;

        if child.as_str().is_empty() {
            self.child = child;
            let why: String = say_no_name(self.lang);
            self.finish(Err(why));
            return;
        }
        says.push(say_name_said(child.as_str(), self.lang));
        self.child = child;
        match &self.from {
            Some(p) => {
                let binary: String = p.clone();
                self.send(says, binary);
            },
            None => {
                self.stage = Stage::Choosing;
            },
        }
    }

    fn send(&mut self, says: &mut Vec<String>, binary: String)
        ensures
            final(self)@ == old(self)@.sent(text::views(old(says)@), binary@).next,
            text::views(final(says)@) == old(self)@.sent(text::views(old(says)@), binary@).says,
    {
        broadcast use text::lemma_views_push;

        says.push(say_copying_said(self.target.as_str(), self.lang));
        self.binary = binary;
        self.stage = Stage::MakingDir;
    }

    fn check(&mut self, uname: &str) -> (says: Vec<String>)
        ensures
            final(self)@ == old(self)@.checked(uname@).next,
            text::views(says@) == old(self)@.checked(uname@).says,
    {
        broadcast use text::lemma_views_push, text::lemma_views_empty;

        let mut says: Vec<String> = Vec::new();
        match triple_for(uname) {
            None => {
                let why: String = say_no_binary_for(uname, self.lang);
                self.finish(Err(why));
            },
            Some(triple) => {
                says.push(say_kind_said(uname, triple));
                proof {
                    assert(text::views(says@) =~= seq![kind_said(uname@, triple@)]);
                }
                self.triple = triple.to_owned();
                let name: Option<String> = match &self.name {
                    Some(n) => Some(text::trim(n.as_str())),
                    None => None,
                };
                match name {
                    Some(child) => {
                        self.take_name(&mut says, child);
                    },
                    None => {
                        self.stage = Stage::Naming;
                    },
                }
            },
        }
        says
    }

    fn choose_binary(&mut self, has_gh: bool, dist: Option<String>) -> (says: Vec<String>)
        ensures
            final(self)@ == old(self)@.chosen(has_gh, text::opt_view(dist)).next,
            text::views(says@) == old(self)@.chosen(has_gh, text::opt_view(dist)).says,
    {
        broadcast use text::lemma_views_push, text::lemma_views_empty;

        let mut says: Vec<String> = Vec::new();
        match choose_source(has_gh, dist, self.version.as_str(), self.lang) {
            Ok(Source::Release { tag }) => {
                self.tag = tag;
                self.stage = Stage::Staging;
            },
            Ok(Source::Dist(path)) => {
                says.push(say_built_here_said(self.lang));
                proof {
                    assert(text::views(says@) =~= seq![built_here_said(self.lang)]);
                }
                self.send(&mut says, path);
            },
            Err(why) => {
                self.finish(Err(why));
            },
        }
        says
    }

    fn look(&mut self, address: Option<String>, prefix: String) -> (says: Vec<String>)
        ensures
            final(self)@ == old(self)@.looked(text::opt_view(address), prefix@).next,
            text::views(says@) == old(self)@.looked(text::opt_view(address), prefix@).says,
    {
        broadcast use text::lemma_views_push, text::lemma_views_empty;

        let mut says: Vec<String> = Vec::new();
        self.prefix = prefix;
        match address {
            Some(url) => {
                says.push(say_direct_said(url.as_str(), self.lang));
                proof {
                    assert(text::views(says@) =~= seq![direct_said(url@, self.lang)]);
                }
                self.way = Transport::Direct { url };
                self.stage = Stage::Linking;
            },
            None => {
                says.push(say_no_address_said(self.child.as_str(), self.lang));
                proof {
                    assert(text::views(says@) =~= seq![no_address_said(self.child@, self.lang)]);
                }
                self.stage = Stage::Tunnelling;
            },
        }
        says
    }

    fn say_connected(&self) -> (out: String)
        ensures
            out@ == self@.connected(),
    {
        let how: String = match &self.way {
            Transport::Direct { url } => say_directly(url.as_str(), self.lang),
            Transport::Tunnel { remote_port } => say_by_tunnel(self.lang),
        };
        say_connected_said(self.child.as_str(), how.as_str(), self.lang)
    }

    fn wait(&mut self, seen: bool) -> (says: Vec<String>)
        ensures
            final(self)@ == old(self)@.waited(seen).next,
            text::views(says@) == old(self)@.waited(seen).says,
    {
        broadcast use text::lemma_views_push, text::lemma_views_empty;

        let mut says: Vec<String> = Vec::new();
        let direct: bool = match &self.way {
            Transport::Direct { url } => true,
            Transport::Tunnel { remote_port } => false,
        };
        if direct {
            if seen {
                self.stage = Stage::Dropping;
            } else {
                says.push(say_falling_said(self.lang));
                proof {
                    assert(text::views(says@) =~= seq![falling_said(self.lang)]);
                }
                self.stage = Stage::Falling;
            }
        } else if seen {
            let said: String = self.say_connected();
            self.finish(Ok(said));
        } else {
            let why: String = say_unreachable_by_tunnel(
                self.child.as_str(),
                self.target.as_str(),
                self.lang,
            );
            self.finish(Err(why));
        }
        says
    }

    fn tidy(&mut self)
        ensures
            final(self)@ == old(self)@.tidied().next,
    {
        let why: Option<String> = self.installed.clone();
        match why {
            Some(w) => {
                self.finish(Err(w));
            },
            None => {
                self.stage = Stage::Waiting;
            },
        }
    }

    fn work(&mut self, out: String) -> (says: Vec<String>)
        ensures
            final(self)@ == old(self)@.worked(out@).next,
            text::views(says@) == old(self)@.worked(out@).says,
    {
        broadcast use text::lemma_views_push, text::lemma_views_empty;

        let mut says: Vec<String> = Vec::new();
        match self.stage {
            Stage::Checking => {
                says = self.check(out.as_str());
            },
            Stage::Naming => {
                let child: String = text::trim(out.as_str());
                self.take_name(&mut says, child);
            },
            Stage::Staging => {
                says.push(say_downloading_said(self.tag.as_str(), self.lang));
                proof {
                    assert(text::views(says@) =~= seq![downloading_said(self.tag@, self.lang)]);
                }
                self.stage = Stage::Downloading;
            },
            Stage::Downloading => {
                self.send(&mut says, out);
            },
            Stage::MakingDir => {
                self.stage = Stage::MovingOld;
            },
            Stage::MovingOld => {
                self.stage = Stage::Copying;
            },
            Stage::Copying => {
                self.stage = Stage::Marking;
            },
            Stage::Marking => {
                self.stage = Stage::Putting;
            },
            Stage::Putting => {
                self.stage = Stage::MarkingInstaller;
            },
            Stage::MarkingInstaller => {
                self.stage = Stage::Clearing;
            },
            Stage::Clearing => {
                self.stage = Stage::Opening;
            },
            Stage::Tunnelling => {
                self.way = Transport::Tunnel { remote_port: TUNNEL_PORT };
                self.stage = Stage::Linking;
            },
            Stage::Linking => {
                says.push(say_installing_said(self.target.as_str(), self.lang));
                proof {
                    assert(text::views(says@) =~= seq![installing_said(self.target@, self.lang)]);
                }
                self.stage = Stage::Installing;
            },
            Stage::Installing => {
                self.installed = None;
                self.stage = Stage::Tidying;
            },
            Stage::Tidying => {
                self.tidy();
            },
            Stage::Dropping => {
                let said: String = self.say_connected();
                self.finish(Ok(said));
            },
            Stage::Falling => {
                self.way = Transport::Tunnel { remote_port: TUNNEL_PORT };
                self.stage = Stage::Relinking;
            },
            Stage::Relinking => {
                self.stage = Stage::Restarting;
            },
            Stage::Restarting => {
                self.stage = Stage::WaitingAgain;
            },
            Stage::Choosing
            | Stage::Opening
            | Stage::Looking
            | Stage::Waiting
            | Stage::WaitingAgain
            | Stage::Over => {},
        }
        says
    }

    fn fail(&mut self, why: String) -> (says: Vec<String>)
        ensures
            final(self)@ == old(self)@.failed(why@).next,
            text::views(says@) == old(self)@.failed(why@).says,
    {
        broadcast use text::lemma_views_push, text::lemma_views_empty;

        let mut says: Vec<String> = Vec::new();
        match self.stage {
            Stage::Naming => {
                let child: String = text::trim("");
                self.take_name(&mut says, child);
            },
            Stage::Clearing => {
                self.stage = Stage::Opening;
            },
            Stage::Installing => {
                self.installed = Some(why);
                self.stage = Stage::Tidying;
            },
            Stage::Tidying => {
                self.tidy();
            },
            Stage::Choosing
            | Stage::Opening
            | Stage::Looking
            | Stage::Waiting
            | Stage::WaitingAgain
            | Stage::Over => {},
            Stage::Checking
            | Stage::Staging
            | Stage::Downloading
            | Stage::MakingDir
            | Stage::MovingOld
            | Stage::Copying
            | Stage::Marking
            | Stage::Putting
            | Stage::MarkingInstaller
            | Stage::Tunnelling
            | Stage::Linking
            | Stage::Dropping
            | Stage::Falling
            | Stage::Relinking
            | Stage::Restarting => {
                self.finish(Err(why));
            },
        }
        says
    }

    /// Takes in what came of the act, and gives what is to be said. A reply to something else than
    /// what was asked changes nothing.
    pub fn reply(&mut self, r: Reply) -> (says: Vec<String>)
        ensures
            final(self)@ == old(self)@.after(r@).next,
            text::views(says@) == old(self)@.after(r@).says,
    {
        broadcast use text::lemma_views_empty;

        match r {
            Reply::Text(Ok(out)) => self.work(out),
            Reply::Text(Err(why)) => self.fail(why),
            Reply::Found { has_gh, dist } => {
                if matches!(self.stage, Stage::Choosing) {
                    self.choose_binary(has_gh, dist)
                } else {
                    Vec::new()
                }
            },
            Reply::Opened(opened) => {
                if matches!(self.stage, Stage::Opening) {
                    match opened {
                        Ok(inlet) => {
                            self.token = inlet.token;
                            self.stage = Stage::Looking;
                        },
                        Err(why) => {
                            self.finish(Err(why));
                        },
                    }
                }
                Vec::new()
            },
            Reply::Ways { env_url, tailscale_json, state_dir, home } => {
                if matches!(self.stage, Stage::Looking) {
                    let address: Option<String> = candidate_url(
                        as_text(&env_url),
                        as_text(&tailscale_json),
                    );
                    let prefix: String = remote_state_prefix(as_text(&state_dir), home.as_str());
                    self.look(address, prefix)
                } else {
                    Vec::new()
                }
            },
            Reply::Seen(seen) => {
                if matches!(self.stage, Stage::Waiting) {
                    return self.wait(seen);
                }
                if matches!(self.stage, Stage::WaitingAgain) {
                    if seen {
                        let said: String = self.say_connected();
                        self.finish(Ok(said));
                    } else {
                        let why: String = say_unreachable(
                            self.child.as_str(),
                            self.target.as_str(),
                            self.lang,
                        );
                        self.finish(Err(why));
                    }
                }
                Vec::new()
            },
        }
    }
}

fn as_text(s: &Option<String>) -> (r: Option<&str>)
    ensures
        text::opt_view(*s) == (match r {
            Some(t) => Some(t@),
            None => None,
        }),
{
    match s {
        Some(t) => Some(t.as_str()),
        None => None,
    }
}

// ── what holds ──────────────────────────────────────────────────────────────

/// How many steps there are still to come, at most.
pub open spec fn steps_left(stage: Stage) -> nat {
    match stage {
        Stage::Checking => 24,
        Stage::Naming => 23,
        Stage::Choosing => 22,
        Stage::Staging => 21,
        Stage::Downloading => 20,
        Stage::MakingDir => 19,
        Stage::MovingOld => 18,
        Stage::Copying => 17,
        Stage::Marking => 16,
        Stage::Putting => 15,
        Stage::MarkingInstaller => 14,
        Stage::Clearing => 13,
        Stage::Opening => 12,
        Stage::Looking => 11,
        Stage::Tunnelling => 10,
        Stage::Linking => 9,
        Stage::Installing => 8,
        Stage::Tidying => 7,
        Stage::Waiting => 6,
        Stage::Falling => 5,
        Stage::Relinking => 4,
        Stage::Restarting => 3,
        Stage::WaitingAgain => 2,
        Stage::Dropping => 1,
        Stage::Over => 0,
    }
}

/// Whether a reply is one to what was asked.
pub open spec fn answers(stage: Stage, r: ReplyView) -> bool {
    match stage {
        Stage::Choosing => r is Found,
        Stage::Opening => r is Opened,
        Stage::Looking => r is Ways,
        Stage::Waiting | Stage::WaitingAgain => r is Seen,
        Stage::Over => false,
        _ => r is Text,
    }
}

/// Adding a machine comes to an end: each answer brings it nearer to it.
pub proof fn law_adding_ends(a: AddingView, r: ReplyView)
    requires
        answers(a.stage, r),
    ensures
        steps_left(a.after(r).next.stage) < steps_left(a.stage),
{
}

/// It ends well only where the machine was seen to be connected: through the way it has at the end,
/// or without a tunnel, and then the tunnel was taken off the list.
pub proof fn law_connected_was_seen(a: AddingView, r: ReplyView)
    requires
        a.stage != Stage::Over,
        a.after(r).next.stage == Stage::Over,
        a.after(r).next.end is Ok,
    ensures
        a.stage == Stage::Dropping || ((a.stage == Stage::Waiting || a.stage == Stage::WaitingAgain)
            && r == ReplyView::Seen(true)),
        a.after(r).next.end == Ok::<Seq<char>, Seq<char>>(a.connected()),
{
}

/// A tunnel is taken off the list only once the machine was seen to be connected without it.
pub proof fn law_dropped_was_seen(a: AddingView, r: ReplyView)
    requires
        a.stage != Stage::Dropping,
        a.after(r).next.stage == Stage::Dropping,
    ensures
        a.stage == Stage::Waiting,
        r == ReplyView::Seen(true),
        a.way is Direct,
{
}

/// Where the direct way does not work, a tunnel is asked for; then the machine is told to dial
/// through it, and is started over and waited for again.
pub proof fn law_falls_back_to_a_tunnel(a: AddingView, x: Seq<char>, y: Seq<char>, z: Seq<char>)
    requires
        a.stage == Stage::Waiting,
        a.way is Direct,
    ensures
        ({
            let asked = a.after(ReplyView::Seen(false)).next;
            let linked = asked.after(ReplyView::Text(Ok(x))).next;
            let restarted = linked.after(ReplyView::Text(Ok(y))).next;
            let again = restarted.after(ReplyView::Text(Ok(z))).next;
            &&& asked.question() == (ActView::SetTunnel { child: a.child, target: Some(a.target) })
            &&& linked.way == TransportView::Tunnel { remote_port: TUNNEL_PORT }
            &&& linked.question() is Link
            &&& linked.question()->url == dialled(linked.way)
            &&& restarted.question() is Run
            &&& again.question() == ActView::Await(a.child)
        }),
{
}

/// The installer is removed over there whether it worked or not.
pub proof fn law_installer_is_removed(a: AddingView, r: Result<Seq<char>, Seq<char>>)
    requires
        a.stage == Stage::Installing,
    ensures
        a.after(ReplyView::Text(r)).next.question() == ActView::Run(
            "rm -f ~/.local/bin/agentgw-install.sh"@,
        ),
{
}

/// The key is in no command: with another key everything is asked for in the same words, and only
/// what the linking command reads differs.
pub proof fn law_key_is_in_no_command(a: AddingView, token: Seq<char>)
    ensures
        ({
            let b = AddingView { token, ..a };
            match (a.question(), b.question()) {
                (
                    ActView::Link { command: c, url: u, .. },
                    ActView::Link { command: d, url: v, .. },
                ) => c == d && u == v,
                (p, q) => p == q,
            }
        }),
{
}

/// The target never changes, and the name does not once it is known.
pub proof fn law_target_stays(a: AddingView, r: ReplyView)
    ensures
        a.after(r).next.target == a.target,
        steps_left(a.stage) < steps_left(Stage::Naming) ==> a.after(r).next.child == a.child,
{
}

} // verus!
