//! Other machines that answer through this one: how a machine is added and how it connects.
use crate::i18n::Lang;
use crate::json;
use crate::text;
use vstd::prelude::*;

pub mod add;
pub mod adding;
pub mod tunnel;

verus! {

/// What `uname -sm` prints, as the triple that binaries are built for.
pub open spec fn triple_of(uname: Seq<char>) -> Option<Seq<char>> {
    let u = text::trimmed(uname);
    if u == "Linux x86_64"@ {
        Some("x86_64-unknown-linux-musl"@)
    } else if u == "Linux aarch64"@ || u == "Linux arm64"@ {
        Some("aarch64-unknown-linux-musl"@)
    } else if u == "Darwin arm64"@ {
        Some("aarch64-apple-darwin"@)
    } else if u == "Darwin x86_64"@ {
        Some("x86_64-apple-darwin"@)
    } else {
        None
    }
}

/// The triple that binaries are built for, from what `uname -sm` prints; `None` for a machine that
/// none is built for.
pub fn triple_for(uname_sm: &str) -> (r: Option<&'static str>)
    ensures
        triple_of(uname_sm@) == (match r {
            Some(t) => Some(t@),
            None => None,
        }),
{
    let u: String = text::trim(uname_sm);
    if text::same(u.as_str(), "Linux x86_64") {
        Some("x86_64-unknown-linux-musl")
    } else if text::same(u.as_str(), "Linux aarch64") || text::same(u.as_str(), "Linux arm64") {
        Some("aarch64-unknown-linux-musl")
    } else if text::same(u.as_str(), "Darwin arm64") {
        Some("aarch64-apple-darwin")
    } else if text::same(u.as_str(), "Darwin x86_64") {
        Some("x86_64-apple-darwin")
    } else {
        None
    }
}

/// How a state directory is handed to a shell on another machine.
pub open spec fn state_prefix(state_dir: Option<Seq<char>>, home: Seq<char>) -> Seq<char> {
    match state_dir {
        None => ""@,
        Some(dir) => match text::after_prefix(dir, home + "/"@) {
            Some(rel) => "AGENTGW_STATE_DIR=\"$HOME/"@ + rel + "\" "@,
            None => "AGENTGW_STATE_DIR='"@ + dir + "' "@,
        },
    }
}

/// The state directory chosen here, in front of a command for another machine. The home directory
/// differs there, so what lies under it is left for that machine's shell to find.
pub fn remote_state_prefix(state_dir: Option<&str>, home: &str) -> (out: String)
    ensures
        out@ == state_prefix(
            match state_dir {
                Some(d) => Some(d@),
                None => None,
            },
            home@,
        ),
{
    match state_dir {
        None => "".to_owned(),
        Some(dir) => {
            let under: String = text::cat(home, "/");
            match text::strip_prefix(dir, under.as_str()) {
                Some(rel) => text::cat3("AGENTGW_STATE_DIR=\"$HOME/", rel.as_str(), "\" "),
                None => text::cat3("AGENTGW_STATE_DIR='", dir, "' "),
            }
        },
    }
}

/// Where the binary comes from that another machine is sent.
#[derive(Debug, PartialEq, Eq)]
pub enum Source {
    /// A release, so that both machines run the same version.
    Release { tag: String },
    /// A binary that was built on this machine, at this path.
    Dist(String),
}

/// The repository that releases are downloaded from.
pub const REPO: &'static str = "takashito/agentgw";

/// The arguments of `gh` that download a release.
pub open spec fn download_args(
    tag: Seq<char>,
    triple: Seq<char>,
    out_dir: Seq<char>,
) -> Seq<Seq<char>> {
    seq![
        "release"@,
        "download"@,
        tag,
        "--repo"@,
        REPO@,
        "--pattern"@,
        "agentgw-"@ + triple,
        "--dir"@,
        out_dir,
        "--clobber"@,
    ]
}

/// The arguments of `gh` that download a release for a machine into a directory.
pub fn gh_download_args(tag: &str, triple: &str, out_dir: &str) -> (out: Vec<String>)
    ensures
        text::views(out@) == download_args(tag@, triple@, out_dir@),
{
    broadcast use text::lemma_views_push, text::lemma_views_empty;

    let mut out: Vec<String> = Vec::new();
    out.push("release".to_owned());
    out.push("download".to_owned());
    out.push(tag.to_owned());
    out.push("--repo".to_owned());
    out.push(REPO.to_owned());
    out.push("--pattern".to_owned());
    out.push(text::cat("agentgw-", triple));
    out.push("--dir".to_owned());
    out.push(out_dir.to_owned());
    out.push("--clobber".to_owned());
    proof {
        assert(text::views(out@) =~= download_args(tag@, triple@, out_dir@));
    }
    out
}

/// What is said where there is no binary to send.
pub open spec fn nothing_to_send(lang: Lang) -> Seq<char> {
    lang.of(
        "No agentgw binary to send. Either run `gh auth login` so it can be downloaded from a release,\nor build one with `cargo dist`, then try again."@,
        "送るバイナリがありません。`gh auth login` で release から落とせるようにするか、\n`cargo dist` で手元に焼いてから、もう一度。"@,
    )
}

/// A release comes first, a binary built here second. `dist` is the path of such a binary, where
/// there is one.
pub fn choose_source(has_gh: bool, dist: Option<String>, version: &str, lang: Lang) -> (r: Result<
    Source,
    String,
>)
    ensures
        match r {
            Ok(Source::Release { tag }) => has_gh && tag@ == "v"@ + version@,
            Ok(Source::Dist(path)) => !has_gh && dist is Some && path@ == dist->0@,
            Err(why) => !has_gh && dist is None && why@ == nothing_to_send(lang),
        },
{
    if has_gh {
        return Ok(Source::Release { tag: text::cat("v", version) });
    }
    match dist {
        Some(path) => Ok(Source::Dist(path)),
        None => Err(
            lang.pick(
                "No agentgw binary to send. Either run `gh auth login` so it can be downloaded from a release,\nor build one with `cargo dist`, then try again.",
                "送るバイナリがありません。`gh auth login` で release から落とせるようにするか、\n`cargo dist` で手元に焼いてから、もう一度。",
            ).to_owned(),
        ),
    }
}

// ── the way to this machine ─────────────────────────────────────────────────

/// The way on which another machine reaches this one.
#[derive(Debug, PartialEq, Eq)]
pub enum Transport {
    /// It dials this machine's public name.
    Direct { url: String },
    /// It dials its own loopback, from where a tunnel leads here.
    Tunnel { remote_port: u16 },
}

/// A way, as a value.
#[verifier::ext_equal]
pub enum TransportView {
    Direct { url: Seq<char> },
    Tunnel { remote_port: u16 },
}

impl View for Transport {
    type V = TransportView;

    open spec fn view(&self) -> TransportView {
        match self {
            Transport::Direct { url } => TransportView::Direct { url: url@ },
            Transport::Tunnel { remote_port } => TransportView::Tunnel {
                remote_port: *remote_port,
            },
        }
    }
}

impl Clone for Transport {
    fn clone(&self) -> (r: Self)
        ensures
            r@ == self@,
    {
        match self {
            Transport::Direct { url } => Transport::Direct { url: url.clone() },
            Transport::Tunnel { remote_port } => Transport::Tunnel { remote_port: *remote_port },
        }
    }
}

/// The port on the other machine's loopback that a tunnel leads from.
pub const TUNNEL_PORT: u16 = 8799;

/// `s` without any `c` at its end.
pub open spec fn without_end(s: Seq<char>, c: char) -> Seq<char>
    decreases s.len(),
{
    if s.len() > 0 && s.last() == c {
        without_end(s.drop_last(), c)
    } else {
        s
    }
}

fn drop_end(s: &str, c: char) -> (out: String)
    ensures
        out@ == without_end(s@, c),
{
    let chars: Vec<char> = text::chars_of(s);
    let mut n: usize = chars.len();
    proof {
        assert(s@.take(n as int) =~= s@);
    }
    while n > 0 && chars[n - 1] == c
        invariant
            n <= chars@.len(),
            chars@ == s@,
            without_end(s@, c) == without_end(s@.take(n as int), c),
        decreases n,
    {
        proof {
            assert(s@.take(n as int).drop_last() =~= s@.take(n - 1));
        }
        n = n - 1;
    }
    proof {
        assert(s@.take(n as int) =~= s@.subrange(0, n as int));
    }
    text::text_of(&chars, 0, n)
}

/// The address to try without a tunnel: the one that is remembered, or this machine's name in its
/// tailnet.
pub open spec fn candidate(env_url: Option<Seq<char>>, name: Option<Seq<char>>) -> Option<Seq<char>> {
    let remembered = match env_url {
        Some(u) => text::trimmed(u),
        None => ""@,
    };
    if env_url is Some && remembered.len() > 0 {
        Some(without_end(remembered, '/'))
    } else {
        match name {
            Some(n) => if without_end(n, '.').len() > 0 {
                Some("wss://"@ + without_end(n, '.'))
            } else {
                None
            },
            None => None,
        }
    }
}

/// The address to try without a tunnel, where this machine's name in its tailnet is known. The name
/// may end in dots.
pub fn candidate_from(env_url: Option<&str>, name: Option<&str>) -> (r: Option<String>)
    ensures
        text::opt_view(r) == candidate(
            match env_url {
                Some(u) => Some(u@),
                None => None,
            },
            match name {
                Some(n) => Some(n@),
                None => None,
            },
        ),
{
    match env_url {
        Some(u) => {
            let t: String = text::trim(u);
            if !t.as_str().is_empty() {
                return Some(drop_end(t.as_str(), '/'));
            }
        },
        None => {},
    }
    match name {
        Some(n) => {
            let bare: String = drop_end(n, '.');
            if bare.as_str().is_empty() {
                None
            } else {
                Some(text::cat("wss://", bare.as_str()))
            }
        },
        None => None,
    }
}

/// Where `tailscale status --json` gives this machine's name.
pub const DNS_NAME: &'static str = "/Self/DNSName";

/// This machine's name in its tailnet, from what `tailscale status --json` prints.
pub open spec fn tailnet_name(tailscale_json: Option<Seq<char>>) -> Option<Seq<char>> {
    match tailscale_json {
        Some(doc) => json::json_text(doc, DNS_NAME@),
        None => None,
    }
}

/// The address to try without a tunnel: the remembered one first, then this machine's name in what
/// `tailscale status --json` prints.
pub fn candidate_url(env_url: Option<&str>, tailscale_json: Option<&str>) -> (r: Option<String>)
    ensures
        text::opt_view(r) == candidate(
            match env_url {
                Some(u) => Some(u@),
                None => None,
            },
            tailnet_name(
                match tailscale_json {
                    Some(doc) => Some(doc@),
                    None => None,
                },
            ),
        ),
{
    let name: Option<String> = match tailscale_json {
        Some(doc) => json::text_at(doc, DNS_NAME),
        None => None,
    };
    match &name {
        Some(n) => candidate_from(env_url, Some(n.as_str())),
        None => candidate_from(env_url, None),
    }
}

/// The address that the other machine dials.
pub open spec fn dialled(t: TransportView) -> Seq<char> {
    match t {
        TransportView::Direct { url } => url,
        TransportView::Tunnel { remote_port } => "ws://127.0.0.1:"@ + text::decimal(
            remote_port as int,
        ),
    }
}

/// The address that the other machine dials.
pub fn dial_url(t: &Transport) -> (out: String)
    ensures
        out@ == dialled(t@),
{
    match t {
        Transport::Direct { url } => url.clone(),
        Transport::Tunnel { remote_port } => {
            let p: String = text::number(*remote_port as u64);
            text::cat("ws://127.0.0.1:", p.as_str())
        },
    }
}

/// This machine's door for others, and the key to it.
#[derive(Debug)]
pub struct Inlet {
    pub listen: String,
    pub token: String,
    pub name: String,
}

/// What opening the door takes.
#[derive(Debug)]
pub struct Opening {
    pub inlet: Inlet,
    /// What to write into the settings, and what to say once it is written; then this machine starts
    /// over. `None` where the key was there already.
    pub write: Option<(Vec<(String, String)>, String)>,
}

/// What is said where this machine has no name.
pub open spec fn nameless(lang: Lang) -> Seq<char> {
    lang.of(
        "This machine has no name yet (AGENTGW_BRIDGE_ID in .env). Run `agentgw install` first."@,
        "このマシンにはまだ名前がありません(.env の AGENTGW_BRIDGE_ID)。先に `agentgw install` を実行してください。"@,
    )
}

/// What is said once others are let in with a new key.
pub open spec fn opened_said(listen: Seq<char>, lang: Lang) -> Seq<char> {
    lang.of(
        "==> This gateway now accepts machines on "@,
        "==> このゲートウェイがマシンを受け入れるようにしました("@,
    ) + listen + lang.of(
        ", with a new secret key. Restarting to apply it."@,
        "、新しい秘密鍵)。反映のため再起動します。"@,
    )
}

/// Opens the door: `listen` and `name` are what the settings say, `token` is the key, and `minted`
/// says that the key is new. Only a new key has to be written down and takes a new start: a machine
/// that runs holds the old one.
pub fn open_inlet(
    listen: Option<&str>,
    default_listen: &str,
    token: &str,
    minted: bool,
    name: Option<&str>,
    lang: Lang,
) -> (r: Result<Opening, String>)
    ensures
        match r {
            Err(why) => (name is None || text::trimmed(name->0@).len() == 0) && why@ == nameless(
                lang,
            ),
            Ok(o) => {
                let at = if listen is Some {
                    listen->0@
                } else {
                    default_listen@
                };
                &&& name is Some && text::trimmed(name->0@).len() > 0
                &&& o.inlet.listen@ == at
                &&& o.inlet.token@ == token@
                &&& o.inlet.name@ == name->0@
                &&& match o.write {
                    Some((list, line)) => minted && text::pair_views(list@) == seq![
                        ("AGENTGW_LINK_LISTEN"@, at),
                        ("AGENTGW_LINK_TOKEN"@, token@),
                    ] && line@ == opened_said(at, lang),
                    None => !minted,
                }
            },
        },
{
    let at: &str = match listen {
        Some(l) => l,
        None => default_listen,
    };
    let named: &str = match name {
        Some(n) => n,
        None => "",
    };
    proof {
        reveal_strlit("");
    }
    let bare: String = text::trim(named);
    if bare.as_str().is_empty() {
        return Err(
            lang.pick(
                "This machine has no name yet (AGENTGW_BRIDGE_ID in .env). Run `agentgw install` first.",
                "このマシンにはまだ名前がありません(.env の AGENTGW_BRIDGE_ID)。先に `agentgw install` を実行してください。",
            ).to_owned(),
        );
    }
    let inlet: Inlet = Inlet {
        listen: at.to_owned(),
        token: token.to_owned(),
        name: named.to_owned(),
    };
    if !minted {
        return Ok(Opening { inlet, write: None });
    }
    let mut list: Vec<(String, String)> = Vec::new();
    list.push(("AGENTGW_LINK_LISTEN".to_owned(), at.to_owned()));
    list.push(("AGENTGW_LINK_TOKEN".to_owned(), token.to_owned()));
    proof {
        assert(text::pair_views(list@) =~= seq![
            ("AGENTGW_LINK_LISTEN"@, at@),
            ("AGENTGW_LINK_TOKEN"@, token@),
        ]);
    }
    let line: String = text::cat3(
        lang.pick(
            "==> This gateway now accepts machines on ",
            "==> このゲートウェイがマシンを受け入れるようにしました(",
        ),
        at,
        lang.pick(
            ", with a new secret key. Restarting to apply it.",
            "、新しい秘密鍵)。反映のため再起動します。",
        ),
    );
    Ok(Opening { inlet, write: Some((list, line)) })
}

/// What is said where the settings could not be written.
pub fn env_not_written(error: &str, lang: Lang) -> (out: String)
    ensures
        out@ == lang.of("Couldn't write .env: "@, ".env が書けません: "@) + error@,
{
    text::cat(lang.pick("Couldn't write .env: ", ".env が書けません: "), error)
}

// ── what holds ──────────────────────────────────────────────────────────────

/// What is handed over is the same for every home directory that the state directory lies under at
/// the same place: the machine that reads it finds its own.
pub proof fn law_state_dir_moves_with_home(rel: Seq<char>, home: Seq<char>)
    ensures
        state_prefix(Some(home + "/"@ + rel), home) == "AGENTGW_STATE_DIR=\"$HOME/"@ + rel
            + "\" "@,
{
    let dir = home + "/"@ + rel;
    let under = home + "/"@;
    assert(under.is_prefix_of(dir));
    assert(dir.skip(under.len() as int) =~= rel);
}

/// A remembered address is tried whatever the tailnet says.
pub proof fn law_remembered_comes_first(
    url: Seq<char>,
    name: Option<Seq<char>>,
    other: Option<Seq<char>>,
)
    requires
        text::trimmed(url).len() > 0,
    ensures
        candidate(Some(url), name) == candidate(Some(url), other),
{
}

/// The address that is dialled without a tunnel ends in none of the marks that may follow a
/// remembered address or a name.
pub proof fn law_candidate_is_bare(env_url: Option<Seq<char>>, name: Option<Seq<char>>)
    requires
        candidate(env_url, name) is Some,
        candidate(env_url, name)->0.len() > 0,
    ensures
        candidate(env_url, name)->0.last() != (if env_url is Some && text::trimmed(env_url->0).len()
            > 0 {
            '/'
        } else {
            '.'
        }),
{
    if env_url is Some && text::trimmed(env_url->0).len() > 0 {
        lemma_without_end(text::trimmed(env_url->0), '/');
    } else {
        lemma_without_end(name->0, '.');
        let n = without_end(name->0, '.');
        assert(("wss://"@ + n).last() == n.last());
    }
}

proof fn lemma_without_end(s: Seq<char>, c: char)
    ensures
        without_end(s, c).len() > 0 ==> without_end(s, c).last() != c,
    decreases s.len(),
{
    if s.len() > 0 && s.last() == c {
        lemma_without_end(s.drop_last(), c);
    }
}

} // verus!
