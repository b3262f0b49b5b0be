use agentgw::fleet::add::{finish_cli, parse_cli, Request};
use agentgw::fleet::adding::{Act, Adding, Reply};
use agentgw::fleet::tunnel::{
    child_urls, set_tunnel, tunnel_ssh_args, tunnels_with, wait_step, SshEnd, TunnelKeeper, WaitStep,
};
use agentgw::fleet::{
    candidate_from, candidate_url, choose_source, dial_url, env_not_written, gh_download_args,
    open_inlet, remote_state_prefix, triple_for, Inlet, Source, Transport, REPO,
};
use agentgw::i18n::Lang;

fn strings(list: &[&str]) -> Vec<String> {
    list.iter().map(|s| s.to_string()).collect()
}

#[test]
fn maps_uname_to_a_rust_triple() {
    assert_eq!(triple_for("Linux x86_64"), Some("x86_64-unknown-linux-musl"));
    assert_eq!(triple_for("Linux aarch64"), Some("aarch64-unknown-linux-musl"));
    assert_eq!(triple_for("Linux arm64"), Some("aarch64-unknown-linux-musl"));
    assert_eq!(triple_for("Darwin arm64"), Some("aarch64-apple-darwin"));
    assert_eq!(triple_for("Darwin x86_64"), Some("x86_64-apple-darwin"));
    assert_eq!(triple_for("Plan9 386"), None, "知らない形は空で返す");
}

#[test]
fn trims_what_ssh_gives_back() {
    assert_eq!(triple_for("Linux x86_64\n"), Some("x86_64-unknown-linux-musl"));
}

#[test]
fn carries_the_state_dir_as_a_home_relative_path() {
    assert_eq!(
        remote_state_prefix(Some("/home/me/.local/state/agentgw-dev"), "/home/me"),
        "AGENTGW_STATE_DIR=\"$HOME/.local/state/agentgw-dev\" "
    );
}

#[test]
fn keeps_an_absolute_path_outside_home_as_is() {
    assert_eq!(
        remote_state_prefix(Some("/srv/agentgw"), "/home/me"),
        "AGENTGW_STATE_DIR='/srv/agentgw' "
    );
}

#[test]
fn passes_nothing_when_the_parent_uses_the_default() {
    assert_eq!(remote_state_prefix(None, "/home/me"), "");
}

#[test]
fn builds_the_gh_download_argv() {
    let args = gh_download_args("v0.18.5", "x86_64-unknown-linux-musl", "/tmp/x");
    assert_eq!(
        args,
        vec![
            "release",
            "download",
            "v0.18.5",
            "--repo",
            REPO,
            "--pattern",
            "agentgw-x86_64-unknown-linux-musl",
            "--dir",
            "/tmp/x",
            "--clobber",
        ]
    );
}

#[test]
fn prefers_the_release_over_the_local_build() {
    let s = choose_source(true, Some("/t/agentgw".to_string()), "0.18.5", Lang::En).unwrap();
    assert_eq!(s, Source::Release { tag: "v0.18.5".to_string() });
}

#[test]
fn falls_back_to_the_local_build_without_gh() {
    let s = choose_source(false, Some("/t/agentgw".to_string()), "0.18.5", Lang::En).unwrap();
    assert_eq!(s, Source::Dist("/t/agentgw".to_string()));
}

#[test]
fn says_what_to_do_when_there_is_nothing_to_send() {
    let why = choose_source(false, None, "0.18.5", Lang::En).unwrap_err();
    assert!(why.contains("cargo dist"), "打つべきコマンドを出す: {why}");
}

#[test]
fn uses_the_remembered_public_url_first() {
    assert_eq!(
        candidate_url(Some("wss://mac.tailnet.ts.net/"), None).as_deref(),
        Some("wss://mac.tailnet.ts.net")
    );
}

#[test]
fn falls_back_to_the_tailscale_name() {
    let json = r#"{"Self":{"DNSName":"mac.tail1234.ts.net."}}"#;
    assert_eq!(
        candidate_url(None, Some(json)).as_deref(),
        Some("wss://mac.tail1234.ts.net")
    );
    assert_eq!(
        candidate_from(None, Some("mac.tail1234.ts.net.")).as_deref(),
        Some("wss://mac.tail1234.ts.net")
    );
    assert_eq!(candidate_from(None, Some(".")), None);
}

#[test]
fn has_no_candidate_without_either() {
    assert_eq!(candidate_url(None, None), None);
    assert_eq!(candidate_url(Some("  "), None), None, "空白だけは候補でない");
    assert_eq!(candidate_url(None, Some("not json")), None);
}

#[test]
fn the_child_dials_its_own_loopback_through_the_tunnel() {
    assert_eq!(dial_url(&Transport::Tunnel { remote_port: 8799 }), "ws://127.0.0.1:8799");
    assert_eq!(dial_url(&Transport::Direct { url: "wss://p".to_string() }), "wss://p");
}

#[test]
fn the_tunnel_forwards_the_childs_loopback_to_the_parents_listener() {
    let args = tunnel_ssh_args("me@laptop", 8799, "127.0.0.1:8787");
    assert!(args.contains(&"-N".to_string()), "コマンドは流さない: {args:?}");
    assert!(
        args.contains(&"127.0.0.1:8799:127.0.0.1:8787".to_string()),
        "子の 8799 を親の listener へ: {args:?}"
    );
    assert!(
        args.contains(&"ExitOnForwardFailure=yes".to_string()),
        "転送に失敗したら黙って生き残らない: {args:?}"
    );
    assert_eq!(args.last().unwrap(), "me@laptop", "ssh 先は最後: {args:?}");
}

#[test]
fn a_tunnel_is_added_replaced_and_removed_by_child_name() {
    assert_eq!(tunnels_with("", "laptop", Some("me@laptop")), "laptop=me@laptop");
    assert_eq!(
        tunnels_with("desktop=me@desktop", "laptop", Some("me@laptop")),
        "desktop=me@desktop,laptop=me@laptop"
    );
    assert_eq!(
        tunnels_with("laptop=old@laptop,desktop=me@desktop", "laptop", Some("me@laptop")),
        "desktop=me@desktop,laptop=me@laptop",
        "同じ子は1本だけ(差し替え)"
    );
    assert_eq!(
        tunnels_with("laptop=me@laptop,desktop=me@desktop", "laptop", None),
        "desktop=me@desktop",
        "直結で繋がったら外す"
    );
}

#[test]
fn a_list_is_read_back_as_it_was_written() {
    let once = tunnels_with("a=1, b=2,,c", "d", Some("4"));
    assert_eq!(once, "a=1,b=2,d=4");
    assert_eq!(tunnels_with(&once, "d", Some("4")), once);
    let pairs = child_urls(&once);
    assert_eq!(pairs.len(), 3);
    assert_eq!(pairs[2], ("d".to_string(), "4".to_string()));
}

#[test]
fn a_tunnel_that_is_there_already_changes_nothing() {
    assert!(set_tunnel("a=1", "a", Some("1"), Lang::En).is_none());
    let c = set_tunnel("", "a", Some("me@a"), Lang::En).unwrap();
    assert_eq!(c.list, "a=me@a");
    assert_eq!(
        c.line,
        "  This gateway will keep an ssh tunnel open to a (ssh me@a). Restarting to apply it."
    );
    let gone = set_tunnel("a=me@a", "a", None, Lang::En).unwrap();
    assert_eq!((gone.list.as_str(), gone.line.as_str()), (
        "",
        "  a no longer needs an ssh tunnel. Restarting to apply it."
    ));
}

#[test]
fn only_a_change_of_a_tunnel_is_made_known() {
    let mut k = TunnelKeeper::new(
        "laptop".to_string(),
        "me@laptop".to_string(),
        "127.0.0.1:8787".to_string(),
    );
    assert_eq!(k.args(), tunnel_ssh_args("me@laptop", 8799, "127.0.0.1:8787"));
    let up = k.ended(&SshEnd::Handed);
    assert_eq!(up.wait_secs, 60);
    assert_eq!(up.tunnel.unwrap().error, None);
    assert_eq!(
        up.log.unwrap(),
        (
            false,
            "tunnel laptop: up via ssh me@laptop (child 127.0.0.1:8799 -> 127.0.0.1:8787)"
                .to_string()
        )
    );
    assert!(k.ended(&SshEnd::Handed).log.is_none());
    let down = k.ended(&SshEnd::Exited {
        status: "exit status: 255".to_string(),
        stderr: " no route \n".to_string(),
    });
    assert_eq!(down.wait_secs, 5);
    assert_eq!(
        down.log.unwrap(),
        (true, "tunnel laptop: exited (exit status: 255) no route — retrying".to_string())
    );
    let again = k.ended(&SshEnd::NotStarted { error: "no ssh".to_string() });
    assert!(again.log.is_none() && again.tunnel.is_none());
}

#[test]
fn a_machine_is_waited_for_ten_times() {
    let here = strings(&["a", "laptop"]);
    assert_eq!(wait_step(0, Some(&here), "laptop"), WaitStep::Connected);
    assert_eq!(wait_step(0, None, "laptop"), WaitStep::AskAgain { secs: 2 });
    assert_eq!(wait_step(8, Some(&[]), "laptop"), WaitStep::AskAgain { secs: 2 });
    assert_eq!(wait_step(9, Some(&[]), "laptop"), WaitStep::GiveUp);
    assert_eq!(wait_step(9, Some(&here), "laptop"), WaitStep::Connected);
}

#[test]
fn the_door_is_written_down_only_with_a_new_key() {
    let o = open_inlet(None, "127.0.0.1:8787", "k1", true, Some("dock"), Lang::En).unwrap();
    assert_eq!(o.inlet.listen, "127.0.0.1:8787");
    let (list, line) = o.write.unwrap();
    assert_eq!(list[0], ("AGENTGW_LINK_LISTEN".to_string(), "127.0.0.1:8787".to_string()));
    assert_eq!(list[1], ("AGENTGW_LINK_TOKEN".to_string(), "k1".to_string()));
    assert!(line.starts_with("==> This gateway now accepts machines on 127.0.0.1:8787, with"));
    let same = open_inlet(Some("0.0.0.0:1"), "x", "k1", false, Some("dock"), Lang::En).unwrap();
    assert_eq!(same.inlet.listen, "0.0.0.0:1");
    assert!(same.write.is_none());
    let nameless = open_inlet(None, "x", "k1", true, Some("  "), Lang::En).unwrap_err();
    assert!(nameless.starts_with("This machine has no name yet"), "{nameless}");
    assert!(open_inlet(None, "x", "k1", true, None, Lang::En).is_err());
    assert_eq!(env_not_written("disk full", Lang::En), "Couldn't write .env: disk full");
}

#[test]
fn the_command_line_is_read() {
    let r = parse_cli(&strings(&["me@host", "--name", "dock", "--from=/b"]), Lang::En).unwrap();
    assert_eq!(r.target, "me@host");
    assert_eq!(r.name.as_deref(), Some("dock"));
    assert_eq!(r.from.as_deref(), Some("/b"));
    let r = parse_cli(&strings(&["--name=x", "h", "--from", "/c", "--name"]), Lang::En).unwrap();
    assert_eq!((r.target.as_str(), r.name, r.from.as_deref()), ("h", None, Some("/c")));
    let why = parse_cli(&strings(&["h", "--force"]), Lang::En).unwrap_err();
    assert_eq!(why, "Unknown option: --force");
    let usage = parse_cli(&[], Lang::En).unwrap_err();
    assert!(usage.starts_with("usage: agentgw add-machine <ssh destination>"), "{usage}");
    assert_eq!(finish_cli(Ok("done".to_string())), (0, "done".to_string()));
    assert_eq!(finish_cli(Err("no".to_string())), (1, "add-machine: no".to_string()));
}

fn begin(name: Option<&str>, from: Option<&str>) -> Adding {
    let r = Request {
        target: "me@laptop".to_string(),
        name: name.map(|s| s.to_string()),
        from: from.map(|s| s.to_string()),
    };
    let (a, says) = Adding::new(r, "0.18.5", "/tmp/stage", Lang::En);
    assert_eq!(says, vec!["==> Checking me@laptop"]);
    a
}

fn worked(out: &str) -> Reply {
    Reply::Text(Ok(out.to_string()))
}

fn failed(why: &str) -> Reply {
    Reply::Text(Err(why.to_string()))
}

fn inlet() -> Reply {
    Reply::Opened(Ok(Inlet {
        listen: "127.0.0.1:8787".to_string(),
        token: "k1".to_string(),
        name: "home".to_string(),
    }))
}

fn ways(env_url: Option<&str>) -> Reply {
    Reply::Ways {
        env_url: env_url.map(|s| s.to_string()),
        tailscale_json: None,
        state_dir: None,
        home: "/home/me".to_string(),
    }
}

// Up to the question whether there is a way without a tunnel.
fn delivered() -> Adding {
    let mut a = begin(Some(" laptop "), Some("/b/agentgw"));
    let says = a.reply(worked("Linux x86_64\n"));
    assert_eq!(says.len(), 3, "{says:?}");
    assert_eq!(says[1], "  Name: laptop");
    assert!(matches!(a.act(), Act::Run(c) if c == "mkdir -p ~/.local/bin"));
    a.reply(worked(""));
    assert!(matches!(a.act(), Act::Run(c) if c.starts_with("[ -e .local/bin/agentgw ] && mv -f ")));
    a.reply(worked(""));
    assert!(matches!(a.act(), Act::Copy { binary, to }
        if binary == "/b/agentgw" && to == ".local/bin/agentgw"));
    a.reply(worked(""));
    assert!(matches!(a.act(), Act::Run(c) if c.starts_with("chmod 755 .local/bin/agentgw && rm")));
    a.reply(worked(""));
    assert!(matches!(a.act(), Act::PutInstaller(to) if to == ".local/bin/agentgw-install.sh"));
    a.reply(worked(""));
    assert!(matches!(a.act(), Act::Run(c) if c == "chmod 755 .local/bin/agentgw-install.sh"));
    a.reply(worked(""));
    assert!(matches!(a.act(), Act::ClearStaging));
    a.reply(failed("never made"));
    assert!(matches!(a.act(), Act::OpenInlet));
    a.reply(inlet());
    assert!(matches!(a.act(), Act::Look));
    a
}

fn installed(a: &mut Adding, url: &str) {
    assert!(matches!(a.act(), Act::Link { command, url: u, token }
        if command == "~/.local/bin/agentgw link --name 'laptop' -" && u == url && token == "k1"));
    a.reply(worked(""));
    assert!(matches!(a.act(), Act::Interactive(c)
        if c == "~/.local/bin/agentgw-install.sh --from ~/.local/bin/agentgw"));
    a.reply(worked(""));
    assert!(matches!(a.act(), Act::Run(c) if c == "rm -f ~/.local/bin/agentgw-install.sh"));
    a.reply(failed("busy"));
    assert!(matches!(a.act(), Act::Await(n) if n == "laptop"));
}

#[test]
fn a_machine_that_connects_directly_needs_no_tunnel() {
    let mut a = delivered();
    let says = a.reply(ways(Some("wss://home/")));
    assert_eq!(says, vec!["==> Trying a direct connection to wss://home"]);
    installed(&mut a, "wss://home");
    a.reply(Reply::Seen(true));
    assert!(matches!(a.act(), Act::SetTunnel { target: None, .. }));
    a.reply(worked(""));
    assert!(matches!(a.act(), Act::Done(Ok(m))
        if m == "\nlaptop is connected directly (wss://home).\nTo hand a Slack channel to it, type `route laptop` in that channel."));
}

#[test]
fn a_machine_that_does_not_connect_directly_gets_a_tunnel() {
    let mut a = delivered();
    a.reply(ways(Some("wss://home")));
    installed(&mut a, "wss://home");
    let says = a.reply(Reply::Seen(false));
    assert!(says[0].starts_with("==> The direct connection didn't work."), "{says:?}");
    assert!(matches!(a.act(), Act::SetTunnel { child, target: Some(t) } if child == "laptop" && t == "me@laptop"));
    a.reply(worked(""));
    assert!(matches!(a.act(), Act::Link { url, .. } if url == "ws://127.0.0.1:8799"));
    a.reply(worked(""));
    assert!(matches!(a.act(), Act::Run(c) if c == "~/.local/bin/agentgw restart"));
    a.reply(worked(""));
    assert!(matches!(a.act(), Act::Await(_)));
    a.reply(Reply::Seen(false));
    assert!(matches!(a.act(), Act::Done(Err(w)) if w.contains("either directly or over an ssh")));
}

#[test]
fn a_machine_without_an_address_goes_through_a_tunnel() {
    let mut a = delivered();
    let says = a.reply(ways(None));
    assert!(says[0].contains("laptop will connect over an ssh tunnel"), "{says:?}");
    assert!(matches!(a.act(), Act::SetTunnel { child, target: Some(t) } if child == "laptop" && t == "me@laptop"));
    a.reply(worked(""));
    installed(&mut a, "ws://127.0.0.1:8799");
    a.reply(Reply::Seen(true));
    assert!(matches!(a.act(), Act::Done(Ok(m)) if m.contains("is connected over an ssh tunnel.")));
    let mut b = delivered();
    b.reply(ways(None));
    b.reply(worked(""));
    installed(&mut b, "ws://127.0.0.1:8799");
    b.reply(Reply::Seen(false));
    assert!(matches!(b.act(), Act::Done(Err(w)) if w.contains("over the ssh tunnel.\n")));
}

#[test]
fn a_machine_of_an_unknown_kind_or_without_a_name_is_refused() {
    let mut a = begin(None, None);
    a.reply(worked("Plan9 386"));
    assert!(matches!(a.act(), Act::Done(Err(w)) if w.starts_with("There is no prebuilt binary for Plan9 386.")));
    let mut b = begin(None, None);
    b.reply(worked("Darwin arm64"));
    assert!(matches!(b.act(), Act::Capture(c) if c.starts_with("hostname -s")));
    b.reply(failed("lost"));
    assert!(matches!(b.act(), Act::Done(Err(w)) if w.contains("Pass --name <name>")));
    let mut c = begin(None, None);
    c.reply(failed("no route"));
    assert!(matches!(c.act(), Act::Done(Err(w)) if w == "no route"));
}

#[test]
fn a_release_is_downloaded_before_it_is_sent() {
    let mut a = begin(None, None);
    a.reply(worked("Darwin arm64"));
    a.reply(worked("mac\n"));
    assert!(matches!(a.act(), Act::FindBinary(t) if t == "aarch64-apple-darwin"));
    a.reply(Reply::Found { has_gh: true, dist: Some("/d".to_string()) });
    assert!(matches!(a.act(), Act::MakeStaging));
    let says = a.reply(worked(""));
    assert_eq!(says, vec!["==> Downloading release v0.18.5 from GitHub"]);
    assert!(matches!(a.act(), Act::Download(args)
        if args == gh_download_args("v0.18.5", "aarch64-apple-darwin", "/tmp/stage")));
    a.reply(worked("/tmp/stage/agentgw"));
    assert!(matches!(a.act(), Act::Run(_)));
    let mut b = begin(Some("x"), None);
    b.reply(worked("Darwin arm64"));
    let says = b.reply(Reply::Found { has_gh: false, dist: Some("/d".to_string()) });
    assert_eq!(says[0], "==> Using the binary built on this machine");
    let mut c = begin(Some("x"), None);
    c.reply(worked("Darwin arm64"));
    c.reply(Reply::Found { has_gh: false, dist: None });
    assert!(matches!(c.act(), Act::Done(Err(w)) if w.contains("cargo dist")));
}

#[test]
fn the_installer_is_removed_even_where_it_failed() {
    let mut a = delivered();
    a.reply(ways(Some("wss://home")));
    a.reply(worked(""));
    a.reply(failed("no space"));
    assert!(matches!(a.act(), Act::Run(c) if c == "rm -f ~/.local/bin/agentgw-install.sh"));
    a.reply(worked(""));
    assert!(matches!(a.act(), Act::Done(Err(w)) if w == "no space"));
    // A reply that nobody asked for changes nothing.
    a.reply(Reply::Seen(true));
    assert!(matches!(a.act(), Act::Done(Err(_))));
}
