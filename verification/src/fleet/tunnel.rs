//! The tunnels that this machine keeps open to others.
use super::TUNNEL_PORT;
use crate::i18n::Lang;
use crate::text;
use vstd::prelude::*;

verus! {

/// A machine's name and what belongs to it.
pub type Entry = (Seq<char>, Seq<char>);

// ── the list ────────────────────────────────────────────────────────────────

/// One entry of a list, `laptop=me@laptop`; `None` where either side is empty or there is no `=`.
pub open spec fn entry_of(piece: Seq<char>) -> Option<Entry> {
    match text::split_first(piece, '=') {
        Some((a, b)) => if text::trimmed(a).len() > 0 && text::trimmed(b).len() > 0 {
            Some((text::trimmed(a), text::trimmed(b)))
        } else {
            None
        },
        None => None,
    }
}

/// The entries among some pieces of a list.
pub open spec fn entries_in(pieces: Seq<Seq<char>>) -> Seq<Entry>
    decreases pieces.len(),
{
    if pieces.len() == 0 {
        Seq::empty()
    } else {
        let before = entries_in(pieces.drop_last());
        match entry_of(pieces.last()) {
            Some(e) => before.push(e),
            None => before,
        }
    }
}

/// The entries of a list, `laptop=me@laptop,desktop=me@desktop`.
pub open spec fn entries(raw: Seq<char>) -> Seq<Entry> {
    entries_in(text::split_on(raw, ','))
}

/// The entries that belong to other machines than `child`.
pub open spec fn others(list: Seq<Entry>, child: Seq<char>) -> Seq<Entry>
    decreases list.len(),
{
    if list.len() == 0 {
        list
    } else {
        let before = others(list.drop_last(), child);
        if list.last().0 == child {
            before
        } else {
            before.push(list.last())
        }
    }
}

/// Entries, each as it is written in a list.
pub open spec fn written(list: Seq<Entry>) -> Seq<Seq<char>> {
    list.map_values(|e: Entry| e.0 + "="@ + e.1)
}

/// A list with one machine's entry put at its end or, without a target, taken out.
pub open spec fn changed(list: Seq<Entry>, child: Seq<char>, target: Option<Seq<char>>) -> Seq<
    Entry,
> {
    match target {
        Some(t) => others(list, child).push((child, t)),
        None => others(list, child),
    }
}

/// A written list with one machine's entry put at its end or taken out.
pub open spec fn tunnels(raw: Seq<char>, child: Seq<char>, target: Option<Seq<char>>) -> Seq<char> {
    text::joined(written(changed(entries(raw), child, target)), ","@)
}

/// The machines of a list and what belongs to each. A piece without a name or without anything
/// behind its `=` is passed over.
pub fn child_urls(raw: &str) -> (out: Vec<(String, String)>)
    ensures
        text::pair_views(out@) == entries(raw@),
{
    let pieces: Vec<String> = text::split(raw, ',');
    let ghost all = text::views(pieces@);
    let mut out: Vec<(String, String)> = Vec::new();
    let mut i: usize = 0;
    proof {
        assert(all.take(0) =~= Seq::<Seq<char>>::empty());
    }
    while i < pieces.len()
        invariant
            i <= pieces@.len(),
            all == text::views(pieces@),
            text::pair_views(out@) =~= entries_in(all.take(i as int)),
        decreases pieces@.len() - i,
    {
        let ghost before = out@;
        proof {
            assert(all.take(i + 1).drop_last() =~= all.take(i as int));
            assert(all.take(i + 1).last() == pieces@[i as int]@);
        }
        match text::cut_first(pieces[i].as_str(), '=') {
            Some((a, b)) => {
                let id: String = text::trim(a.as_str());
                let target: String = text::trim(b.as_str());
                if !id.as_str().is_empty() && !target.as_str().is_empty() {
                    out.push((id, target));
                    proof {
                        assert(text::pair_views(out@) =~= text::pair_views(before).push(
                            (id@, target@),
                        ));
                    }
                }
            },
            None => {},
        }
        i = i + 1;
    }
    proof {
        assert(all.take(all.len() as int) =~= all);
    }
    out
}

/// The list of tunnels with the one to `child` put at its end or, without a target, taken out.
pub fn tunnels_with(raw: &str, child: &str, target: Option<&str>) -> (out: String)
    ensures
        out@ == tunnels(
            raw@,
            child@,
            match target {
                Some(t) => Some(t@),
                None => None,
            },
        ),
{
    let list: Vec<(String, String)> = child_urls(raw);
    let ghost all = text::pair_views(list@);
    let mut lines: Vec<String> = Vec::new();
    let mut i: usize = 0;
    proof {
        assert(all.take(0) =~= Seq::<Entry>::empty());
        assert(text::views(lines@) =~= written(others(all.take(0), child@)));
    }
    while i < list.len()
        invariant
            i <= list@.len(),
            all == text::pair_views(list@),
            text::views(lines@) == written(others(all.take(i as int), child@)),
        decreases list@.len() - i,
    {
        broadcast use text::lemma_views_push;

        proof {
            assert(all.take(i + 1).drop_last() =~= all.take(i as int));
            assert(all.take(i + 1).last() == all[i as int]);
        }
        if !text::same(list[i].0.as_str(), child) {
            lines.push(text::cat3(list[i].0.as_str(), "=", list[i].1.as_str()));
            proof {
                assert(text::views(lines@) =~= written(others(all.take(i + 1), child@)));
            }
        }
        i = i + 1;
    }
    proof {
        assert(all.take(all.len() as int) =~= all);
    }
    match target {
        Some(t) => {
            broadcast use text::lemma_views_push;

            lines.push(text::cat3(child, "=", t));
            proof {
                assert(text::views(lines@) =~= written(changed(all, child@, Some(t@))));
            }
        },
        None => {},
    }
    text::join(lines.as_slice(), ",")
}

/// What changes where a tunnel is wanted or not wanted any more: the new list, and what is said of
/// it. Then this machine starts over, since it reads the list when it starts.
#[derive(Debug)]
pub struct TunnelChange {
    pub list: String,
    pub line: String,
}

/// What is said of a changed list.
pub open spec fn change_said(child: Seq<char>, target: Option<Seq<char>>, lang: Lang) -> Seq<char> {
    match target {
        Some(t) => lang.of(
            "  This gateway will keep an ssh tunnel open to "@,
            "  このゲートウェイが "@,
        ) + child + lang.of(" (ssh "@, " への ssh トンネルを張り続けます(ssh "@) + t + lang.of(
            "). Restarting to apply it."@,
            ")。反映のため再起動します。"@,
        ),
        None => "  "@ + child + lang.of(
            " no longer needs an ssh tunnel. Restarting to apply it."@,
            " への ssh トンネルは不要になりました。反映のため再起動します。"@,
        ),
    }
}

/// Puts a tunnel on the list or takes it off. Where that changes nothing there is nothing to do.
pub fn set_tunnel(before: &str, child: &str, target: Option<&str>, lang: Lang) -> (r: Option<
    TunnelChange,
>)
    ensures
        ({
            let to = match target {
                Some(t) => Some(t@),
                None => None,
            };
            let after = tunnels(before@, child@, to);
            match r {
                Some(c) => after != before@ && c.list@ == after && c.line@ == change_said(
                    child@,
                    to,
                    lang,
                ),
                None => after == before@,
            }
        }),
{
    let list: String = tunnels_with(before, child, target);
    if text::same(list.as_str(), before) {
        return None;
    }
    let line: String = match target {
        Some(t) => text::cat5(
            lang.pick(
                "  This gateway will keep an ssh tunnel open to ",
                "  このゲートウェイが ",
            ),
            child,
            lang.pick(" (ssh ", " への ssh トンネルを張り続けます(ssh "),
            t,
            lang.pick(
                "). Restarting to apply it.",
                ")。反映のため再起動します。",
            ),
        ),
        None => text::cat3(
            "  ",
            child,
            lang.pick(
                " no longer needs an ssh tunnel. Restarting to apply it.",
                " への ssh トンネルは不要になりました。反映のため再起動します。",
            ),
        ),
    };
    Some(TunnelChange { list, line })
}

// ── keeping one open ────────────────────────────────────────────────────────

/// The arguments of `ssh` that open a tunnel and run nothing.
pub open spec fn ssh_args(target: Seq<char>, remote_port: u16, parent_addr: Seq<char>) -> Seq<
    Seq<char>,
> {
    seq![
        "-N"@,
        "-o"@,
        "BatchMode=yes"@,
        "-o"@,
        "ExitOnForwardFailure=yes"@,
        "-o"@,
        "ServerAliveInterval=30"@,
        "-o"@,
        "ServerAliveCountMax=3"@,
        "-R"@,
        "127.0.0.1:"@ + text::decimal(remote_port as int) + ":"@ + parent_addr,
        target,
    ]
}

/// The arguments of `ssh` that lead the other machine's loopback to this machine's door. Where the
/// port cannot be had `ssh` ends, rather than staying without it.
pub fn tunnel_ssh_args(target: &str, remote_port: u16, parent_addr: &str) -> (out: Vec<String>)
    ensures
        text::views(out@) == ssh_args(target@, remote_port, parent_addr@),
{
    broadcast use text::lemma_views_push, text::lemma_views_empty;

    let port: String = text::number(remote_port as u64);
    let mut out: Vec<String> = Vec::new();
    out.push("-N".to_owned());
    out.push("-o".to_owned());
    out.push("BatchMode=yes".to_owned());
    out.push("-o".to_owned());
    out.push("ExitOnForwardFailure=yes".to_owned());
    out.push("-o".to_owned());
    out.push("ServerAliveInterval=30".to_owned());
    out.push("-o".to_owned());
    out.push("ServerAliveCountMax=3".to_owned());
    out.push("-R".to_owned());
    out.push(text::cat4("127.0.0.1:", port.as_str(), ":", parent_addr));
    out.push(target.to_owned());
    proof {
        assert(text::views(out@) =~= ssh_args(target@, remote_port, parent_addr@));
    }
    out
}

/// How an `ssh` that opens a tunnel came to its end.
#[derive(Debug)]
pub enum SshEnd {
    /// It handed the tunnel to an `ssh` that runs already.
    Handed,
    /// It ended otherwise, with this status and these words.
    Exited { status: String, stderr: String },
    /// It did not start.
    NotStarted { error: String },
}

impl SshEnd {
    /// What went wrong, if anything did.
    pub open spec fn fault(&self) -> Option<Seq<char>> {
        match self {
            SshEnd::Handed => None,
            SshEnd::Exited { status, stderr } => Some(
                "exited ("@ + status@ + ") "@ + text::trimmed(stderr@),
            ),
            SshEnd::NotStarted { error } => Some("could not start ssh: "@ + error@),
        }
    }

    fn why(&self) -> (r: Option<String>)
        ensures
            text::opt_view(r) == self.fault(),
    {
        match self {
            SshEnd::Handed => None,
            SshEnd::Exited { status, stderr } => {
                let words: String = text::trim(stderr.as_str());
                Some(text::cat4("exited (", status.as_str(), ") ", words.as_str()))
            },
            SshEnd::NotStarted { error } => Some(
                text::cat("could not start ssh: ", error.as_str()),
            ),
        }
    }
}

/// The tunnel to one machine.
#[derive(Debug)]
pub struct TunnelKeeper {
    pub child: String,
    pub target: String,
    pub parent_addr: String,
    /// Whether the tunnel was open when `ssh` last ended.
    pub was_ok: Option<bool>,
}

/// What is known of a tunnel, for `status`.
#[derive(Debug)]
pub struct Tunnel {
    pub target: String,
    pub error: Option<String>,
}

/// What follows on the end of an `ssh`.
#[derive(Debug)]
pub struct TunnelStep {
    /// What is now known, where that changed.
    pub tunnel: Option<Tunnel>,
    /// A line for the log, where something changed; whether it tells of a fault.
    pub log: Option<(bool, String)>,
    /// How long to wait before `ssh` is started again.
    pub wait_secs: u64,
}

/// The line for the log.
pub open spec fn logged(k: &TunnelKeeper, fault: Option<Seq<char>>) -> Seq<char> {
    match fault {
        None => "tunnel "@ + k.child@ + ": up via ssh "@ + k.target@ + " (child 127.0.0.1:"@
            + text::decimal(TUNNEL_PORT as int) + " -> "@ + k.parent_addr@ + ")"@,
        Some(why) => "tunnel "@ + k.child@ + ": "@ + why + " — retrying"@,
    }
}

impl TunnelKeeper {
    pub fn new(child: String, target: String, parent_addr: String) -> (k: Self)
        ensures
            k.child@ == child@,
            k.target@ == target@,
            k.parent_addr@ == parent_addr@,
            k.was_ok is None,
    {
        TunnelKeeper { child, target, parent_addr, was_ok: None }
    }

    /// The arguments to start `ssh` with.
    pub fn args(&self) -> (out: Vec<String>)
        ensures
            text::views(out@) == ssh_args(self.target@, TUNNEL_PORT, self.parent_addr@),
    {
        tunnel_ssh_args(self.target.as_str(), TUNNEL_PORT, self.parent_addr.as_str())
    }

    /// Takes in the end of an `ssh`. Only a change is made known: the log is not filled with a line
    /// for each new start.
    pub fn ended(&mut self, end: &SshEnd) -> (step: TunnelStep)
        ensures
            ({
                let ok = end.fault() is None;
                &&& final(self).was_ok == Some(ok)
                &&& final(self).child@ == old(self).child@
                &&& final(self).target@ == old(self).target@
                &&& final(self).parent_addr@ == old(self).parent_addr@
                &&& step.wait_secs == (if ok {
                    60
                } else {
                    5int
                })
                &&& match step.tunnel {
                    Some(t) => old(self).was_ok != Some(ok) && t.target@ == old(self).target@
                        && text::opt_view(t.error) == end.fault(),
                    None => old(self).was_ok == Some(ok),
                }
                &&& match step.log {
                    Some((is_fault, line)) => old(self).was_ok != Some(ok) && is_fault == !ok
                        && line@ == logged(old(self), end.fault()),
                    None => old(self).was_ok == Some(ok),
                }
            }),
    {
        let why: Option<String> = end.why();
        let ok: bool = why.is_none();
        let wait_secs: u64 = if ok {
            60
        } else {
            5
        };
        let same: bool = match self.was_ok {
            Some(was) => was == ok,
            None => false,
        };
        if same {
            return TunnelStep { tunnel: None, log: None, wait_secs };
        }
        let mut line: String = text::cat("tunnel ", self.child.as_str());
        match &why {
            None => {
                let port: String = text::number(TUNNEL_PORT as u64);
                line.append(": up via ssh ");
                line.append(self.target.as_str());
                line.append(" (child 127.0.0.1:");
                line.append(port.as_str());
                line.append(" -> ");
                line.append(self.parent_addr.as_str());
                line.append(")");
            },
            Some(w) => {
                line.append(": ");
                line.append(w.as_str());
                line.append(" — retrying");
            },
        }
        self.was_ok = Some(ok);
        TunnelStep {
            tunnel: Some(Tunnel { target: self.target.clone(), error: why }),
            log: Some((!ok, line)),
            wait_secs,
        }
    }
}

// ── waiting for a machine ───────────────────────────────────────────────────

/// How often this machine is asked who is connected.
pub const ASK_TIMES: u32 = 10;

/// How long to wait between two questions.
pub const ASK_SECS: u64 = 2;

/// What to do while a machine is waited for.
#[derive(Clone, Copy, Debug, PartialEq, Eq, Structural)]
pub enum WaitStep {
    /// It is connected.
    Connected,
    /// It is not yet; ask again after so many seconds.
    AskAgain { secs: u64 },
    /// It was asked for often enough.
    GiveUp,
}

/// Takes in an answer to the question who is connected: `asked` questions were answered before this
/// one, and `names` is `None` where no answer came.
pub fn wait_step(asked: u32, names: Option<&[String]>, child: &str) -> (r: WaitStep)
    ensures
        r == (if names is Some && text::views(names->0@).contains(child@) {
            WaitStep::Connected
        } else if asked < ASK_TIMES - 1 {
            WaitStep::AskAgain { secs: ASK_SECS }
        } else {
            WaitStep::GiveUp
        }),
{
    match names {
        Some(list) => {
            if text::among(list, child) {
                return WaitStep::Connected;
            }
        },
        None => {},
    }
    if asked < ASK_TIMES - 1 {
        WaitStep::AskAgain { secs: ASK_SECS }
    } else {
        WaitStep::GiveUp
    }
}

// ── what holds of the list ──────────────────────────────────────────────────

/// An entry that a list can hold: nothing in it is taken for the list's own marks or trimmed off.
pub open spec fn is_plain(e: Entry) -> bool {
    &&& e.0.len() > 0 && text::trimmed(e.0) == e.0 && !e.0.contains('=') && !e.0.contains(',')
    &&& e.1.len() > 0 && text::trimmed(e.1) == e.1 && !e.1.contains(',')
}

proof fn lemma_entry_is_plain(piece: Seq<char>)
    requires
        !piece.contains(','),
    ensures
        entry_of(piece) is Some ==> is_plain(entry_of(piece)->0),
{
    if entry_of(piece) is Some {
        text::lemma_index_of(piece, '=');
        let i = text::index_of(piece, '=');
        let a = piece.take(i);
        let b = piece.skip(i + 1);
        text::law_trimmed_twice(a);
        text::law_trimmed_twice(b);
        if a.contains('=') {
            let k = choose|k: int| 0 <= k < a.len() && a[k] == '=';
            assert(piece[k] == '=');
        }
        if a.contains(',') {
            let k = choose|k: int| 0 <= k < a.len() && a[k] == ',';
            assert(piece[k] == ',');
        }
        if b.contains(',') {
            let k = choose|k: int| 0 <= k < b.len() && b[k] == ',';
            assert(piece[i + 1 + k] == ',');
        }
        text::lemma_trimmed_lacks(a, '=');
        text::lemma_trimmed_lacks(a, ',');
        text::lemma_trimmed_lacks(b, ',');
    }
}

proof fn lemma_entries_are_plain(pieces: Seq<Seq<char>>)
    requires
        forall|i: int| 0 <= i < pieces.len() ==> !(#[trigger] pieces[i]).contains(','),
    ensures
        forall|i: int|
            0 <= i < entries_in(pieces).len() ==> is_plain(#[trigger] entries_in(pieces)[i]),
    decreases pieces.len(),
{
    if pieces.len() > 0 {
        let front = pieces.drop_last();
        assert forall|i: int| 0 <= i < front.len() implies !(#[trigger] front[i]).contains(',') by {
            assert(front[i] == pieces[i]);
        }
        lemma_entries_are_plain(front);
        assert(!pieces[pieces.len() - 1].contains(','));
        lemma_entry_is_plain(pieces.last());
        let before = entries_in(front);
        let all = entries_in(pieces);
        assert forall|i: int| 0 <= i < all.len() implies is_plain(#[trigger] all[i]) by {
            if i < before.len() {
                assert(all[i] == before[i]);
            }
        }
    }
}

/// A plain entry is read back from how it is written.
proof fn lemma_entry_reads_back(e: Entry)
    requires
        is_plain(e),
    ensures
        entry_of(e.0 + "="@ + e.1) == Some(e),
        !(e.0 + "="@ + e.1).contains(','),
{
    reveal_strlit("=");
    let p = e.0 + "="@ + e.1;
    text::lemma_index_of(p, '=');
    let i = text::index_of(p, '=');
    assert(p[e.0.len() as int] == '=');
    if i < e.0.len() {
        assert(e.0[i] == '=');
    }
    assert(i == e.0.len());
    assert(p.take(i) =~= e.0);
    assert(p.skip(i + 1) =~= e.1);
    if p.contains(',') {
        let k = choose|k: int| 0 <= k < p.len() && p[k] == ',';
        if k < e.0.len() {
            assert(e.0[k] == ',');
        } else if k > e.0.len() {
            assert(e.1[k - e.0.len() - 1] == ',');
        }
    }
}

proof fn lemma_entries_read_back(list: Seq<Entry>)
    requires
        forall|i: int| 0 <= i < list.len() ==> is_plain(#[trigger] list[i]),
    ensures
        entries_in(written(list)) == list,
        forall|i: int| 0 <= i < list.len() ==> !(#[trigger] written(list)[i]).contains(','),
    decreases list.len(),
{
    if list.len() > 0 {
        let front = list.drop_last();
        assert forall|i: int| 0 <= i < front.len() implies is_plain(#[trigger] front[i]) by {
            assert(front[i] == list[i]);
        }
        lemma_entries_read_back(front);
        assert(written(list).drop_last() =~= written(front));
        assert(is_plain(list[list.len() - 1]));
        lemma_entry_reads_back(list.last());
        assert(front.push(list.last()) =~= list);
        assert forall|i: int| 0 <= i < list.len() implies !(#[trigger] written(list)[i]).contains(
            ',',
        ) by {
            if i < front.len() {
                assert(written(front)[i] == written(list)[i]);
            }
        }
    } else {
        assert(entries_in(written(list)) =~= list);
    }
}

proof fn lemma_others(list: Seq<Entry>, child: Seq<char>)
    ensures
        forall|i: int|
            0 <= i < others(list, child).len() ==> list.contains(#[trigger] others(list, child)[i])
                && others(list, child)[i].0 != child,
        others(others(list, child), child) == others(list, child),
    decreases list.len(),
{
    if list.len() > 0 {
        let front = list.drop_last();
        lemma_others(front, child);
        let before = others(front, child);
        let o = others(list, child);
        assert forall|i: int| 0 <= i < o.len() implies list.contains(#[trigger] o[i]) && o[i].0
            != child by {
            if i < before.len() {
                assert(o[i] == before[i]);
                let k = choose|k: int| 0 <= k < front.len() && front[k] == before[i];
                assert(list[k] == o[i]);
            } else {
                assert(list[list.len() - 1] == o[i]);
            }
        }
        if list.last().0 != child {
            assert(o.drop_last() =~= before);
        }
    } else {
        assert(others(others(list, child), child) =~= others(list, child));
    }
}

/// The list that is written is read back as it was meant: the other machines' tunnels as they were,
/// and this machine's at the end or nowhere.
pub proof fn law_tunnels_read_back(raw: Seq<char>, child: Seq<char>, target: Option<Seq<char>>)
    requires
        target is Some ==> is_plain((child, target->0)),
    ensures
        entries(tunnels(raw, child, target)) == changed(entries(raw), child, target),
{
    let pieces = text::split_on(raw, ',');
    assert forall|i: int| 0 <= i < pieces.len() implies !(#[trigger] pieces[i]).contains(',') by {
        text::lemma_split_lacks(raw, ',', i);
    }
    lemma_entries_are_plain(pieces);
    let list = entries(raw);
    lemma_others(list, child);
    let next = changed(list, child, target);
    assert forall|i: int| 0 <= i < next.len() implies is_plain(#[trigger] next[i]) by {
        if i < others(list, child).len() {
            assert(next[i] == others(list, child)[i]);
            let k = choose|k: int| 0 <= k < list.len() && list[k] == next[i];
            assert(is_plain(list[k]));
        }
    }
    lemma_entries_read_back(next);
    reveal_strlit(",");
    assert(","@ =~= seq![',']);
    if next.len() > 0 {
        text::law_split_undoes_join(written(next), ',');
    } else {
        let none = Seq::<char>::empty();
        assert(tunnels(raw, child, target) =~= none);
        assert(text::split_on(none, ',') =~= seq![none]);
        let one = seq![none];
        assert(one.drop_last() =~= Seq::<Seq<char>>::empty());
        text::lemma_index_of(none, '=');
        assert(entries_in(one) =~= next) by {
            assert(entry_of(one.last()) is None);
            assert(entries_in(one.drop_last()) =~= Seq::<Entry>::empty());
        }
    }
}

/// A machine has one tunnel at most: whatever the list held before, what it holds after is the one
/// that was asked for.
pub proof fn law_one_tunnel_each(
    raw: Seq<char>,
    child: Seq<char>,
    target: Option<Seq<char>>,
    i: int,
)
    requires
        target is Some ==> is_plain((child, target->0)),
        0 <= i < entries(tunnels(raw, child, target)).len(),
        entries(tunnels(raw, child, target))[i].0 == child,
    ensures
        target is Some,
        i == entries(tunnels(raw, child, target)).len() - 1,
        entries(tunnels(raw, child, target))[i].1 == target->0,
{
    law_tunnels_read_back(raw, child, target);
    lemma_others(entries(raw), child);
    let o = others(entries(raw), child);
    if i < o.len() {
        assert(changed(entries(raw), child, target)[i] == o[i]);
    }
}

/// Asking for the same again changes nothing, so this machine starts over once.
pub proof fn law_set_once(raw: Seq<char>, child: Seq<char>, target: Option<Seq<char>>)
    requires
        target is Some ==> is_plain((child, target->0)),
    ensures
        ({
            let once = tunnels(raw, child, target);
            tunnels(once, child, target) == once
        }),
{
    law_tunnels_read_back(raw, child, target);
    let list = entries(raw);
    lemma_others(list, child);
    let o = others(list, child);
    match target {
        Some(t) => {
            let next = o.push((child, t));
            assert(next.drop_last() =~= o);
            assert(others(next, child) == others(o, child));
        },
        None => {},
    }
}

} // verus!
