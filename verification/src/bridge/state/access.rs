//! Who may use the bridge, and where each channel's work is done.
use super::threads::{opt_views, tools_of, with_item};
use crate::chat::slack::limits::{is_shaped, SlackId};
use crate::i18n::Lang;
use crate::table::{self, Table};
use crate::text;
use vstd::prelude::*;

verus! {

/// The settings of one channel: where its work is done, and what may be done there.
#[derive(Debug)]
pub struct Route {
    pub repo_path: Option<String>,
    pub label: Option<String>,
    /// Whether an agent is started ahead of time; by default one is.
    pub warm: Option<bool>,
    /// The tools a person said not to ask for again in this channel.
    pub allowed_tools: Option<Vec<String>>,
    /// The machine that does the channel's work; without one it is this machine.
    pub bridge: Option<String>,
    /// What else stands in the record, as JSON text.
    pub extra: String,
}

/// What a [`Route`] holds.
#[verifier::ext_equal]
pub struct RouteView {
    pub repo_path: Option<Seq<char>>,
    pub label: Option<Seq<char>>,
    pub warm: Option<bool>,
    pub allowed_tools: Option<Seq<Seq<char>>>,
    pub bridge: Option<Seq<char>>,
    pub extra: Seq<char>,
}

impl View for Route {
    type V = RouteView;

    open spec fn view(&self) -> RouteView {
        RouteView {
            repo_path: text::opt_view(self.repo_path),
            label: text::opt_view(self.label),
            warm: self.warm,
            allowed_tools: opt_views(self.allowed_tools),
            bridge: text::opt_view(self.bridge),
            extra: self.extra@,
        }
    }
}

impl RouteView {
    /// A record that says nothing yet.
    pub open spec fn blank() -> RouteView {
        RouteView {
            repo_path: None,
            label: None,
            warm: None,
            allowed_tools: None,
            bridge: None,
            extra: Seq::empty(),
        }
    }

    /// The channel has a project.
    pub open spec fn has_repo(self) -> bool {
        self.repo_path matches Some(p) && p.len() > 0
    }
}

impl Default for Route {
    fn default() -> (r: Self)
        ensures
            r@ == RouteView::blank(),
    {
        proof {
            reveal_strlit("");
        }
        let r: Route = Route {
            repo_path: None,
            label: None,
            warm: None,
            allowed_tools: None,
            bridge: None,
            extra: "".to_owned(),
        };
        proof {
            assert(r@ =~= RouteView::blank());
        }
        r
    }
}

impl Clone for Route {
    fn clone(&self) -> (r: Self)
        ensures
            r@ == self@,
    {
        let allowed_tools: Option<Vec<String>> = match &self.allowed_tools {
            Some(v) => Some(text::copy_list(v)),
            None => None,
        };
        let r: Route = Route {
            repo_path: self.repo_path.clone(),
            label: self.label.clone(),
            warm: self.warm,
            allowed_tools,
            bridge: self.bridge.clone(),
            extra: self.extra.clone(),
        };
        proof {
            assert(r@ =~= self@);
        }
        r
    }
}

/// Who may use the bridge. Without an owner nobody gets in.
#[derive(Debug)]
pub struct Access {
    pub owner: String,
    pub routes: Table<Route>,
    /// The bots that are let in.
    pub allowed_bots: Vec<String>,
    pub home_channel: Option<String>,
    /// The reaction that says a message was received.
    pub ack_reaction: Option<String>,
    /// How long one post may be.
    pub text_chunk_limit: Option<usize>,
    /// How long texts are split.
    pub chunk_mode: Option<String>,
    /// What else stands in the record, as JSON text.
    pub extra: String,
}

/// What an [`Access`] holds.
#[verifier::ext_equal]
pub struct AccessView {
    pub owner: Seq<char>,
    pub routes: Map<Seq<char>, RouteView>,
    pub allowed_bots: Seq<Seq<char>>,
    pub home_channel: Option<Seq<char>>,
    pub ack_reaction: Option<Seq<char>>,
    pub text_chunk_limit: Option<usize>,
    pub chunk_mode: Option<Seq<char>>,
    pub extra: Seq<char>,
}

pub open spec fn route_views(m: Map<Seq<char>, Route>) -> Map<Seq<char>, RouteView> {
    m.map_values(|r: Route| r@)
}

impl View for Access {
    type V = AccessView;

    open spec fn view(&self) -> AccessView {
        AccessView {
            owner: self.owner@,
            routes: route_views(self.routes@),
            allowed_bots: text::views(self.allowed_bots@),
            home_channel: text::opt_view(self.home_channel),
            ack_reaction: text::opt_view(self.ack_reaction),
            text_chunk_limit: self.text_chunk_limit,
            chunk_mode: text::opt_view(self.chunk_mode),
            extra: self.extra@,
        }
    }
}

/// One change of the settings. An empty name for `SetHome` means no home channel.
#[derive(Debug)]
pub enum AccessOp {
    BotAllow(String),
    BotRemove(String),
    SetRepo { channel: String, path: String },
    SetWarm { channel: String, on: bool },
    SetHome(String),
}

// ── what a change does ──────────────────────────────────────────────────────

/// A list without `x`.
pub open spec fn without_item(list: Seq<Seq<char>>, x: Seq<char>) -> Seq<Seq<char>>
    decreases list.len(),
{
    if list.len() == 0 {
        list
    } else {
        let rest = without_item(list.drop_last(), x);
        if list.last() == x {
            rest
        } else {
            rest.push(list.last())
        }
    }
}

pub open spec fn is_bot_id(id: Seq<char>) -> bool {
    is_shaped(id, seq!['B'])
}

pub open spec fn is_channel_id(id: Seq<char>) -> bool {
    is_shaped(id, seq!['C', 'G'])
}

/// The settings of a channel; blank ones where there are none.
pub open spec fn route_or_blank(m: Map<Seq<char>, RouteView>, channel: Seq<char>) -> RouteView {
    if m.dom().contains(channel) {
        m[channel]
    } else {
        RouteView::blank()
    }
}

impl AccessView {
    /// Whether a sender is let in.
    pub open spec fn admits(self, user: Option<Seq<char>>, bot_id: Option<Seq<char>>) -> bool {
        self.owner.len() > 0 && match bot_id {
            Some(bot) => self.allowed_bots.contains(bot),
            None => user == Some(self.owner),
        }
    }

    /// The folder that a channel works in, and whether it is only the home folder.
    pub open spec fn folder_of(self, channel: Seq<char>, home: Seq<char>) -> (Seq<char>, bool) {
        let route = route_or_blank(self.routes, channel);
        if route.has_repo() {
            (route.repo_path->0, false)
        } else {
            (home, true)
        }
    }

    /// The settings with those of one channel replaced.
    pub open spec fn with_route(self, channel: Seq<char>, r: RouteView) -> AccessView {
        AccessView { routes: self.routes.insert(channel, r), ..self }
    }

    /// The settings after a tool was granted in a channel.
    pub open spec fn with_channel_tool(self, channel: Seq<char>, tool: Seq<char>) -> AccessView {
        if channel.len() == 0 || tool.len() == 0 {
            self
        } else {
            let r = route_or_blank(self.routes, channel);
            self.with_route(
                channel,
                RouteView {
                    allowed_tools: Some(with_item(tools_of(r.allowed_tools), tool)),
                    ..r
                },
            )
        }
    }

    /// The settings after a change, what is said of it, and what is warned of; or why it is
    /// refused.
    pub open spec fn applied(self, op: AccessOp, lang: Lang) -> Result<
        (AccessView, Seq<char>, Seq<Seq<char>>),
        Seq<char>,
    > {
        match op {
            AccessOp::BotAllow(id) => self.bot_allowed(id@, lang),
            AccessOp::BotRemove(id) => self.bot_removed(id@, lang),
            AccessOp::SetRepo { channel, path } => self.repo_set(channel@, path@, lang),
            AccessOp::SetWarm { channel, on } => self.warm_set(channel@, on, lang),
            AccessOp::SetHome(channel) => self.home_set(text::trimmed(channel@), lang),
        }
    }

    pub open spec fn bot_allowed(self, id: Seq<char>, lang: Lang) -> Result<
        (AccessView, Seq<char>, Seq<Seq<char>>),
        Seq<char>,
    > {
        if !is_bot_id(id) {
            Err("bot_allow expects a bot id (B…), got \""@ + id + "\""@)
        } else {
            Ok(
                (
                    AccessView { allowed_bots: with_item(self.allowed_bots, id), ..self },
                    lang.of(
                        "Added "@ + id + " to the allowed bots."@,
                        id + " を許可 bot に追加しました。"@,
                    ),
                    Seq::empty(),
                ),
            )
        }
    }

    pub open spec fn bot_removed(self, id: Seq<char>, lang: Lang) -> Result<
        (AccessView, Seq<char>, Seq<Seq<char>>),
        Seq<char>,
    > {
        if !is_bot_id(id) {
            Err("bot_remove expects a bot id (B…), got \""@ + id + "\""@)
        } else {
            Ok(
                (
                    AccessView { allowed_bots: without_item(self.allowed_bots, id), ..self },
                    if self.allowed_bots.contains(id) {
                        lang.of(
                            "Removed "@ + id + " from the allowed bots."@,
                            id + " を許可 bot から外しました。"@,
                        )
                    } else {
                        lang.of(
                            id + " is not an allowed bot."@,
                            id + " は許可 bot ではありません。"@,
                        )
                    },
                    Seq::empty(),
                ),
            )
        }
    }

    pub open spec fn repo_set(self, channel: Seq<char>, path: Seq<char>, lang: Lang) -> Result<
        (AccessView, Seq<char>, Seq<Seq<char>>),
        Seq<char>,
    > {
        if !is_channel_id(channel) {
            Err("set_repo expects a channel id (C…/G…), got \""@ + channel + "\""@)
        } else if !"/"@.is_prefix_of(path) {
            Err(
                lang.of(
                    "The project path must be absolute: \""@,
                    "プロジェクトのパスは絶対パスで指定してください: \""@,
                ) + path + "\""@,
            )
        } else {
            Ok(
                (
                    self.with_route(
                        channel,
                        RouteView {
                            repo_path: Some(path),
                            ..route_or_blank(self.routes, channel)
                        },
                    ),
                    "<#"@ + channel + lang.of(
                        "> now uses the project directory `"@,
                        "> をプロジェクト `"@,
                    ) + path + lang.of("`."@, "` に紐付けました。"@),
                    Seq::empty(),
                ),
            )
        }
    }

    pub open spec fn warm_set(self, channel: Seq<char>, on: bool, lang: Lang) -> Result<
        (AccessView, Seq<char>, Seq<Seq<char>>),
        Seq<char>,
    > {
        if !is_channel_id(channel) {
            Err("set_warm expects a channel id (C…/G…), got \""@ + channel + "\""@)
        } else {
            let r = route_or_blank(self.routes, channel);
            Ok(
                (
                    self.with_route(channel, RouteView { warm: Some(on), ..r }),
                    warm_said(channel, on, lang),
                    if r.has_repo() {
                        Seq::empty()
                    } else {
                        seq![
                            "<#"@ + channel + lang.of(
                                "> has no project yet. This takes effect once you set one with `pwd <absolute path>` in that channel."@,
                                "> はまだプロジェクトに紐付いていません。そのチャンネルで `pwd ＜絶対パス＞` を設定すると効きます。"@,
                            ),
                        ]
                    },
                ),
            )
        }
    }

    pub open spec fn home_set(self, channel: Seq<char>, lang: Lang) -> Result<
        (AccessView, Seq<char>, Seq<Seq<char>>),
        Seq<char>,
    > {
        if channel.len() == 0 {
            Ok(
                (
                    AccessView { home_channel: None, ..self },
                    lang.of(
                        "The home channel is no longer set."@,
                        "Home チャンネルの設定を解除しました。"@,
                    ),
                    Seq::empty(),
                ),
            )
        } else if !is_channel_id(channel) {
            Err("set_home_channel expects a channel id (C…/G…), got \""@ + channel + "\""@)
        } else {
            Ok(
                (
                    AccessView { home_channel: Some(channel), ..self },
                    "<#"@ + channel + lang.of(
                        "> is now the home channel."@,
                        "> を Home チャンネルに設定しました。"@,
                    ),
                    Seq::empty(),
                ),
            )
        }
    }
}

/// What is said when agents are started ahead of time, or are no longer.
pub open spec fn warm_said(channel: Seq<char>, on: bool, lang: Lang) -> Seq<char> {
    if on {
        lang.of("An agent for <#"@, "<#"@) + channel + lang.of(
            "> will be started ahead of time, so the first message gets a faster reply."@,
            "> のエージェントを前もって起動しておきます。最初のメッセージへの返事が速くなります。"@,
        )
    } else {
        lang.of("Agents for <#"@, "<#"@) + channel + lang.of(
            "> will no longer be started ahead of time. The first message waits for one to start."@,
            "> のエージェントを前もって起動するのをやめました。最初のメッセージは起動を待つぶん遅くなります。"@,
        )
    }
}

/// What a result of [`Access::apply`] holds.
pub open spec fn outcome(r: Result<(Access, String, Vec<String>), String>) -> Result<
    (AccessView, Seq<char>, Seq<Seq<char>>),
    Seq<char>,
> {
    match r {
        Ok((a, said, warnings)) => Ok((a@, said@, text::views(warnings@))),
        Err(e) => Err(e@),
    }
}

// ── the directories that agents wait in ─────────────────────────────────────

/// A channel asks this machine for an agent that waits in its project.
pub open spec fn asks_for_agent(r: RouteView, me: Seq<char>) -> bool {
    (r.bridge is None || r.bridge == Some(me)) && r.has_repo() && r.warm != Some(false)
}

/// The home directory and, once each, the projects of the channels that ask.
pub open spec fn targets(rows: Seq<(Seq<char>, RouteView)>, home: Seq<char>, me: Seq<char>) -> Seq<
    Seq<char>,
>
    decreases rows.len(),
{
    if rows.len() == 0 {
        seq![home]
    } else {
        let t = targets(rows.drop_last(), home, me);
        if asks_for_agent(rows.last().1, me) {
            with_item(t, rows.last().1.repo_path->0)
        } else {
            t
        }
    }
}

proof fn lemma_clone_views(a: Table<Route>, b: Table<Route>)
    requires
        table::ascending(a.entries()),
        table::ascending(b.entries()),
        a.entries().len() == b.entries().len(),
        forall|i: int|
            0 <= i < a.entries().len() ==> (#[trigger] b.entries()[i]).0 == a.entries()[i].0
                && b.entries()[i].1@ == a.entries()[i].1@,
    ensures
        route_views(a@) == route_views(b@),
{
    let x = route_views(a@);
    let y = route_views(b@);
    assert forall|k: Seq<char>| #[trigger] x.dom().contains(k) <==> y.dom().contains(k) by {
        if x.dom().contains(k) {
            let i = choose|i: int| table::has_row(a.entries(), k, i);
            assert(b.entries()[i].0 == k);
            assert(table::has_row(b.entries(), k, i));
        }
        if y.dom().contains(k) {
            let i = choose|i: int| table::has_row(b.entries(), k, i);
            assert(table::has_row(a.entries(), k, i));
        }
    }
    assert forall|k: Seq<char>| #[trigger] x.dom().contains(k) implies x[k] == y[k] by {
        let i = choose|i: int| table::has_row(a.entries(), k, i);
        table::lemma_row_in_map(a.entries(), i);
        table::lemma_row_in_map(b.entries(), i);
        assert(b.entries()[i].0 == k);
    }
    assert(x =~= y);
}

impl Clone for Access {
    fn clone(&self) -> (r: Self)
        ensures
            r@ == self@,
            r.rows() == self.rows(),
    {
        let routes: Table<Route> = self.routes.clone();
        let n: usize = self.routes.len();
        let m: usize = routes.len();
        proof {
            lemma_clone_views(self.routes, routes);
        }
        let r: Access = Access {
            owner: self.owner.clone(),
            routes,
            allowed_bots: text::copy_list(&self.allowed_bots),
            home_channel: self.home_channel.clone(),
            ack_reaction: self.ack_reaction.clone(),
            text_chunk_limit: self.text_chunk_limit,
            chunk_mode: self.chunk_mode.clone(),
            extra: self.extra.clone(),
        };
        proof {
            assert(r@ =~= self@);
            assert(r.rows() =~= self.rows());
        }
        r
    }
}

impl Access {
    /// The settings of the channels, in the order of their names.
    pub open spec fn rows(&self) -> Seq<(Seq<char>, RouteView)> {
        self.routes.entries().map_values(|r: (Seq<char>, Route)| (r.0, r.1@))
    }

    /// Settings that let nobody in.
    pub fn new() -> (a: Self)
        ensures
            a@ == (AccessView {
                owner: Seq::empty(),
                routes: Map::empty(),
                allowed_bots: Seq::empty(),
                home_channel: None,
                ack_reaction: None,
                text_chunk_limit: None,
                chunk_mode: None,
                extra: Seq::empty(),
            }),
            a.rows() == Seq::<(Seq<char>, RouteView)>::empty(),
    {
        proof {
            reveal_strlit("");
        }
        let a: Access = Access {
            owner: "".to_owned(),
            routes: Table::new(),
            allowed_bots: Vec::new(),
            home_channel: None,
            ack_reaction: None,
            text_chunk_limit: None,
            chunk_mode: None,
            extra: "".to_owned(),
        };
        proof {
            assert(a@.routes =~= Map::empty());
            assert(a@.allowed_bots =~= Seq::empty());
            assert(a@.owner =~= Seq::empty());
            assert(a@.extra =~= Seq::empty());
            assert(a.rows() =~= Seq::empty());
        }
        a
    }

    /// Whether a message is taken in: the owner's is, and one of a bot that is let in. Without an owner
    /// nobody gets in.
    pub fn lets_in(&self, user: Option<&str>, bot_id: Option<&str>) -> (r: bool)
        ensures
            r == self@.admits(
                match user {
                    Some(u) => Some(u@),
                    None => None,
                },
                match bot_id {
                    Some(b) => Some(b@),
                    None => None,
                },
            ),
    {
        if self.owner.as_str().is_empty() {
            return false;
        }
        match bot_id {
            Some(bot) => text::among(self.allowed_bots.as_slice(), bot),
            None => match user {
                Some(u) => text::same(u, self.owner.as_str()),
                None => false,
            },
        }
    }

    /// The reaction that says a message was received.
    pub fn ack_emoji(&self) -> (s: &str)
        ensures
            s@ == match self@.ack_reaction {
                Some(e) => e,
                None => "eyes"@,
            },
    {
        match &self.ack_reaction {
            Some(e) => e.as_str(),
            None => "eyes",
        }
    }

    fn take_route(&mut self, channel: &str) -> (r: Route)
        ensures
            r@ == route_or_blank(old(self)@.routes, channel@),
            final(self)@ == (AccessView {
                routes: old(self)@.routes.remove(channel@),
                ..old(self)@
            }),
    {
        let r: Route = match self.routes.remove(channel) {
            Some(r) => r,
            None => Route::default(),
        };
        proof {
            assert(self@.routes =~= old(self)@.routes.remove(channel@));
        }
        r
    }

    fn put_route(&mut self, channel: &str, r: Route)
        ensures
            final(self)@ == old(self)@.with_route(channel@, r@),
    {
        let _ = self.routes.insert(channel.to_owned(), r);
        proof {
            assert(self@.routes =~= old(self)@.routes.insert(channel@, r@));
        }
    }

    /// The machines of the channels that name one.
    pub fn bridges(&self) -> (out: Table<String>)
        ensures
            forall|c: Seq<char>| #[trigger]
                out@.dom().contains(c) <==> self@.routes.dom().contains(c)
                    && self@.routes[c].bridge is Some,
            forall|c: Seq<char>| #[trigger]
                out@.dom().contains(c) ==> self@.routes[c].bridge == Some(out@[c]@),
    {
        let n: usize = self.routes.len();
        let ghost rows = self.routes.entries();
        let mut out: Table<String> = Table::new();
        let mut i: usize = 0;
        while i < n
            invariant
                i <= n == rows.len(),
                rows == self.routes.entries(),
                table::ascending(rows),
                forall|c: Seq<char>| #[trigger]
                    out@.dom().contains(c) <==> exists|j: int|
                        0 <= j < i && (#[trigger] rows[j]).0 == c && rows[j].1@.bridge is Some,
                forall|j: int|
                    0 <= j < i && (#[trigger] rows[j]).1@.bridge is Some ==> rows[j].1@.bridge
                        == Some(out@[rows[j].0]@),
            decreases n - i,
        {
            let r: &Route = self.routes.value_at(i);
            let ghost before = out@;
            match &r.bridge {
                Some(b) => {
                    let _ = out.insert(self.routes.key_at(i).clone(), b.clone());
                    proof {
                        let key = rows[i as int].0;
                        assert forall|c: Seq<char>| #[trigger]
                            out@.dom().contains(c) <==> (exists|j: int|
                            0 <= j < i + 1 && (#[trigger] rows[j]).0 == c
                                && rows[j].1@.bridge is Some) by {
                            if before.dom().contains(c) {
                                let j = choose|j: int|
                                    0 <= j < i && (#[trigger] rows[j]).0 == c
                                        && rows[j].1@.bridge is Some;
                                assert(rows[j].0 == c);
                            }
                            if c == key {
                                assert(rows[i as int].0 == c);
                            }
                        }
                        assert forall|j: int|
                            0 <= j < i + 1 && (
                            #[trigger] rows[j]).1@.bridge is Some implies rows[j].1@.bridge == Some(
                            out@[rows[j].0]@,
                        ) by {
                            if j < i {
                                assert(text::before(rows[j].0, rows[i as int].0));
                                text::lemma_before_irreflexive(rows[j].0);
                            }
                        }
                    }
                },
                None => {
                    proof {
                        assert(rows[i as int].1@.bridge is None);
                    }
                },
            }
            i = i + 1;
        }
        proof {
            assert forall|c: Seq<char>| #[trigger]
                out@.dom().contains(c) <==> self@.routes.dom().contains(c)
                    && self@.routes[c].bridge is Some by {
                if out@.dom().contains(c) {
                    let j = choose|j: int|
                        0 <= j < n && (#[trigger] rows[j]).0 == c && rows[j].1@.bridge is Some;
                    table::lemma_row_in_map(rows, j);
                }
                if self@.routes.dom().contains(c) && self@.routes[c].bridge is Some {
                    let j = choose|j: int| table::has_row(rows, c, j);
                    table::lemma_row_in_map(rows, j);
                    assert(rows[j].0 == c);
                }
            }
            assert forall|c: Seq<char>| #[trigger]
                out@.dom().contains(c) implies self@.routes[c].bridge == Some(out@[c]@) by {
                let j = choose|j: int|
                    0 <= j < n && (#[trigger] rows[j]).0 == c && rows[j].1@.bridge is Some;
                table::lemma_row_in_map(rows, j);
            }
        }
        out
    }

    /// Says which machine does a channel's work. The channel's other settings stay.
    pub fn set_bridge(&mut self, channel: &str, bridge_id: &str)
        ensures
            final(self)@ == old(self)@.with_route(
                channel@,
                (RouteView {
                    bridge: Some(bridge_id@),
                    ..route_or_blank(old(self)@.routes, channel@)
                }),
            ),
    {
        let mut r: Route = self.take_route(channel);
        r.bridge = Some(bridge_id.to_owned());
        self.put_route(channel, r);
        proof {
            assert(self@.routes =~= old(self)@.routes.insert(channel@, r@));
        }
    }

    /// Whether a person said not to ask for a tool again in a channel.
    pub fn channel_tool_allowed(&self, channel: &str, tool: &str) -> (r: bool)
        ensures
            r == tools_of(route_or_blank(self@.routes, channel@).allowed_tools).contains(tool@),
    {
        match self.routes.get(channel) {
            Some(r) => match &r.allowed_tools {
                Some(v) => text::among(v.as_slice(), tool),
                None => false,
            },
            None => false,
        }
    }

    /// Remembers not to ask for a tool again in a channel. Called only when a person says so.
    pub fn grant_channel_tool(&mut self, channel: &str, tool: &str)
        ensures
            final(self)@ == old(self)@.with_channel_tool(channel@, tool@),
    {
        if channel.is_empty() || tool.is_empty() {
            return ;
        }
        let mut r: Route = self.take_route(channel);
        let ghost was = r@;
        let mut allowed: Vec<String> = match &r.allowed_tools {
            Some(v) => text::copy_list(v),
            None => Vec::new(),
        };
        proof {
            assert(text::views(allowed@) =~= tools_of(was.allowed_tools));
        }
        if !text::among(allowed.as_slice(), tool) {
            let ghost before = allowed@;
            allowed.push(tool.to_owned());
            proof {
                text::lemma_views_push(before, allowed@.last());
            }
        }
        r.allowed_tools = Some(allowed);
        proof {
            assert(r@.allowed_tools->0 =~= with_item(tools_of(was.allowed_tools), tool@));
        }
        self.put_route(channel, r);
        proof {
            assert(self@.routes =~= old(self)@.routes.insert(channel@, r@));
        }
    }

    fn drop_bot(&mut self, id: &str)
        ensures
            final(self)@ == (AccessView {
                allowed_bots: without_item(old(self)@.allowed_bots, id@),
                ..old(self)@
            }),
    {
        broadcast use text::lemma_views_push, text::lemma_views_empty;

        let ghost all = text::views(self.allowed_bots@);
        let mut left: Vec<String> = Vec::new();
        let mut i: usize = 0;
        proof {
            assert(all.take(0) =~= Seq::empty());
        }
        while i < self.allowed_bots.len()
            invariant
                i <= self.allowed_bots@.len(),
                *self == *old(self),
                all == text::views(self.allowed_bots@),
                text::views(left@) == without_item(all.take(i as int), id@),
            decreases self.allowed_bots@.len() - i,
        {
            proof {
                assert(all[i as int] == self.allowed_bots@[i as int]@);
                assert(all.take(i + 1).drop_last() =~= all.take(i as int));
            }
            if !text::same(self.allowed_bots[i].as_str(), id) {
                left.push(self.allowed_bots[i].clone());
            }
            i = i + 1;
        }
        proof {
            assert(all.take(all.len() as int) =~= all);
        }
        self.allowed_bots = left;
    }

    /// Makes one change. The settings it is made to stay as they are: the result holds the new
    /// ones, what is said of the change and what is warned of, or why it is refused. Who may make a
    /// change is not asked here.
    pub fn apply(&self, op: AccessOp, lang: Lang) -> (r: Result<
        (Access, String, Vec<String>),
        String,
    >)
        ensures
            outcome(r) == self@.applied(op, lang),
    {
        let access: Access = self.clone();
        match op {
            AccessOp::BotAllow(id) => access.allow_bot(id.as_str(), lang),
            AccessOp::BotRemove(id) => access.remove_bot(id.as_str(), lang),
            AccessOp::SetRepo { channel, path } => access.set_repo(
                channel.as_str(),
                path.as_str(),
                lang,
            ),
            AccessOp::SetWarm { channel, on } => access.set_warm(channel.as_str(), on, lang),
            AccessOp::SetHome(channel) => {
                let ch: String = text::trim(channel.as_str());
                access.set_home(ch.as_str(), lang)
            },
        }
    }

    fn allow_bot(self, id: &str, lang: Lang) -> (r: Result<(Access, String, Vec<String>), String>)
        ensures
            outcome(r) == self@.bot_allowed(id@, lang),
    {
        broadcast use text::lemma_views_push, text::lemma_views_empty;

        if !SlackId::is_bot(id) {
            return Err(text::cat3("bot_allow expects a bot id (B…), got \"", id, "\""));
        }
        let mut access: Access = self;
        if !text::among(access.allowed_bots.as_slice(), id) {
            access.allowed_bots.push(id.to_owned());
        }
        let said: String = match lang {
            Lang::En => text::cat3("Added ", id, " to the allowed bots."),
            Lang::Ja => text::cat(id, " を許可 bot に追加しました。"),
        };
        proof {
            assert(access@ =~= AccessView {
                allowed_bots: with_item(self@.allowed_bots, id@),
                ..self@
            });
        }
        Ok((access, said, Vec::new()))
    }

    fn remove_bot(self, id: &str, lang: Lang) -> (r: Result<(Access, String, Vec<String>), String>)
        ensures
            outcome(r) == self@.bot_removed(id@, lang),
    {
        broadcast use text::lemma_views_empty;

        if !SlackId::is_bot(id) {
            return Err(text::cat3("bot_remove expects a bot id (B…), got \"", id, "\""));
        }
        let mut access: Access = self;
        let had: bool = text::among(access.allowed_bots.as_slice(), id);
        access.drop_bot(id);
        let said: String = if had {
            match lang {
                Lang::En => text::cat3("Removed ", id, " from the allowed bots."),
                Lang::Ja => text::cat(id, " を許可 bot から外しました。"),
            }
        } else {
            text::cat(
                id,
                lang.pick(" is not an allowed bot.", " は許可 bot ではありません。"),
            )
        };
        Ok((access, said, Vec::new()))
    }

    fn set_repo(self, channel: &str, path: &str, lang: Lang) -> (r: Result<
        (Access, String, Vec<String>),
        String,
    >)
        ensures
            outcome(r) == self@.repo_set(channel@, path@, lang),
    {
        broadcast use text::lemma_views_empty;

        if !SlackId::is_channel(channel) {
            return Err(
                text::cat3("set_repo expects a channel id (C…/G…), got \"", channel, "\""),
            );
        }
        if !text::starts_with(path, "/") {
            return Err(
                text::cat3(
                    lang.pick(
                        "The project path must be absolute: \"",
                        "プロジェクトのパスは絶対パスで指定してください: \"",
                    ),
                    path,
                    "\"",
                ),
            );
        }
        let mut access: Access = self;
        let mut route: Route = access.take_route(channel);
        route.repo_path = Some(path.to_owned());
        access.put_route(channel, route);
        let said: String = text::cat5(
            "<#",
            channel,
            lang.pick("> now uses the project directory `", "> をプロジェクト `"),
            path,
            lang.pick("`.", "` に紐付けました。"),
        );
        proof {
            assert(access@.routes =~= self@.routes.insert(channel@, route@));
        }
        Ok((access, said, Vec::new()))
    }

    fn set_warm(self, channel: &str, on: bool, lang: Lang) -> (r: Result<
        (Access, String, Vec<String>),
        String,
    >)
        ensures
            outcome(r) == self@.warm_set(channel@, on, lang),
    {
        broadcast use text::lemma_views_empty;

        if !SlackId::is_channel(channel) {
            return Err(
                text::cat3("set_warm expects a channel id (C…/G…), got \"", channel, "\""),
            );
        }
        let mut access: Access = self;
        let mut warnings: Vec<String> = Vec::new();
        let mut route: Route = access.take_route(channel);
        let has_repo: bool = match &route.repo_path {
            Some(p) => !p.as_str().is_empty(),
            None => false,
        };
        route.warm = Some(on);
        access.put_route(channel, route);
        if !has_repo {
            let w: String = text::cat3(
                "<#",
                channel,
                lang.pick(
                    "> has no project yet. This takes effect once you set one with `pwd <absolute path>` in that channel.",
                    "> はまだプロジェクトに紐付いていません。そのチャンネルで `pwd ＜絶対パス＞` を設定すると効きます。",
                ),
            );
            warnings.push(w);
            proof {
                assert(text::views(warnings@) =~= seq![w@]);
            }
        }
        let said: String = if on {
            text::cat3(
                lang.pick("An agent for <#", "<#"),
                channel,
                lang.pick(
                    "> will be started ahead of time, so the first message gets a faster reply.",
                    "> のエージェントを前もって起動しておきます。最初のメッセージへの返事が速くなります。",
                ),
            )
        } else {
            text::cat3(
                lang.pick("Agents for <#", "<#"),
                channel,
                lang.pick(
                    "> will no longer be started ahead of time. The first message waits for one to start.",
                    "> のエージェントを前もって起動するのをやめました。最初のメッセージは起動を待つぶん遅くなります。",
                ),
            )
        };
        proof {
            assert(access@.routes =~= self@.routes.insert(channel@, route@));
        }
        Ok((access, said, warnings))
    }

    fn set_home(self, channel: &str, lang: Lang) -> (r: Result<
        (Access, String, Vec<String>),
        String,
    >)
        ensures
            outcome(r) == self@.home_set(channel@, lang),
    {
        broadcast use text::lemma_views_empty;

        let mut access: Access = self;
        if channel.is_empty() {
            access.home_channel = None;
            let said: String = lang.pick(
                "The home channel is no longer set.",
                "Home チャンネルの設定を解除しました。",
            ).to_owned();
            return Ok((access, said, Vec::new()));
        }
        if !SlackId::is_channel(channel) {
            return Err(
                text::cat3(
                    "set_home_channel expects a channel id (C…/G…), got \"",
                    channel,
                    "\"",
                ),
            );
        }
        access.home_channel = Some(channel.to_owned());
        let said: String = text::cat3(
            "<#",
            channel,
            lang.pick(
                "> is now the home channel.",
                "> を Home チャンネルに設定しました。",
            ),
        );
        Ok((access, said, Vec::new()))
    }

    /// Where a channel's agent runs: in its project or, where it has none, at home; the second
    /// result says that it is home for want of a project.
    pub fn repo_path(&self, channel: &str, home: &str) -> (r: (String, bool))
        ensures
            (r.0@, r.1) == self@.folder_of(channel@, home@),
    {
        match self.routes.get(channel) {
            Some(route) => match &route.repo_path {
                Some(p) => if p.as_str().is_empty() {
                    (home.to_owned(), true)
                } else {
                    (p.clone(), false)
                },
                None => (home.to_owned(), true),
            },
            None => (home.to_owned(), true),
        }
    }

    /// The directories an agent is to wait in: none without an owner; else home and the project of
    /// each channel that asks. A project of another machine is not this machine's to serve.
    pub fn pool_targets(&self, home_dir: &str, me: &str) -> (out: Vec<String>)
        ensures
            text::views(out@) == if self@.owner.len() == 0 {
                Seq::empty()
            } else {
                targets(self.rows(), home_dir@, me@)
            },
    {
        broadcast use text::lemma_views_push, text::lemma_views_empty;

        let mut out: Vec<String> = Vec::new();
        if self.owner.as_str().is_empty() {
            return out;
        }
        out.push(home_dir.to_owned());
        let ghost rows = self.rows();
        let n: usize = self.routes.len();
        let mut i: usize = 0;
        proof {
            assert(rows.take(0) =~= Seq::empty());
            assert(text::views(out@) =~= seq![home_dir@]);
        }
        while i < n
            invariant
                i <= n == rows.len(),
                n == self.routes.entries().len(),
                rows == self.rows(),
                text::views(out@) == targets(rows.take(i as int), home_dir@, me@),
            decreases n - i,
        {
            let r: &Route = self.routes.value_at(i);
            proof {
                assert(rows[i as int].1 == r@);
                assert(rows.take(i + 1).drop_last() =~= rows.take(i as int));
            }
            let mine: bool = match &r.bridge {
                Some(b) => text::same(b.as_str(), me),
                None => true,
            };
            let opted_out: bool = match r.warm {
                Some(on) => !on,
                None => false,
            };
            if mine && !opted_out {
                match &r.repo_path {
                    Some(p) => if !p.as_str().is_empty() && !text::among(
                        out.as_slice(),
                        p.as_str(),
                    ) {
                        out.push(p.clone());
                    },
                    None => {},
                }
            }
            i = i + 1;
        }
        proof {
            assert(rows.take(n as int) =~= rows);
        }
        out
    }
}

// ── what holds of the settings ──────────────────────────────────────────────

/// Agents wait at home first, in no directory twice, and in a project exactly where some channel
/// asks for it.
pub proof fn law_targets(rows: Seq<(Seq<char>, RouteView)>, home: Seq<char>, me: Seq<char>)
    ensures
        targets(rows, home, me).len() > 0,
        targets(rows, home, me)[0] == home,
        targets(rows, home, me).no_duplicates(),
        forall|p: Seq<char>| #[trigger]
            targets(rows, home, me).contains(p) <==> p == home || exists|i: int|
                0 <= i < rows.len() && asks_for_agent((#[trigger] rows[i]).1, me)
                    && rows[i].1.repo_path == Some(p),
    decreases rows.len(),
{
    let all = targets(rows, home, me);
    if rows.len() == 0 {
        assert(all[0] == home);
    } else {
        let t = rows.drop_last();
        let before = targets(t, home, me);
        law_targets(t, home, me);
        let last = rows.last().1;
        assert forall|p: Seq<char>| #[trigger] all.contains(p) <==> (p == home || exists|i: int|
            0 <= i < rows.len() && asks_for_agent((#[trigger] rows[i]).1, me)
                && rows[i].1.repo_path == Some(p)) by {
            if all.contains(p) {
                let k = choose|k: int| 0 <= k < all.len() && all[k] == p;
                if k < before.len() {
                    assert(before[k] == p);
                    assert(before.contains(p));
                    if p != home {
                        let i = choose|i: int|
                            0 <= i < t.len() && asks_for_agent((#[trigger] t[i]).1, me)
                                && t[i].1.repo_path == Some(p);
                        assert(rows[i] == t[i]);
                    }
                } else {
                    assert(rows[rows.len() - 1].1.repo_path == Some(p));
                }
            }
            if p == home || exists|i: int|
                0 <= i < rows.len() && asks_for_agent((#[trigger] rows[i]).1, me)
                    && rows[i].1.repo_path == Some(p) {
                if p != home {
                    let i = choose|i: int|
                        0 <= i < rows.len() && asks_for_agent((#[trigger] rows[i]).1, me)
                            && rows[i].1.repo_path == Some(p);
                    if i < t.len() {
                        assert(t[i] == rows[i]);
                        assert(before.contains(p));
                    } else if !before.contains(p) {
                        assert(all[before.len() as int] == p);
                    }
                } else {
                    assert(before[0] == home);
                    assert(before.contains(p));
                }
                if before.contains(p) {
                    let k = choose|k: int| 0 <= k < before.len() && before[k] == p;
                    assert(all[k] == p);
                }
            }
        }
        assert(all[0] == before[0]);
        assert forall|a: int, b: int|
            0 <= a < all.len() && 0 <= b < all.len() && a != b implies all[a] != all[b] by {
            if a < before.len() {
                assert(before.contains(before[a]));
            }
            if b < before.len() {
                assert(before.contains(before[b]));
            }
        }
    }
}

/// A bot that is let in and taken off again is not let in.
pub proof fn law_removed_bot(bots: Seq<Seq<char>>, id: Seq<char>)
    ensures
        !without_item(bots, id).contains(id),
        forall|x: Seq<char>|
            x != id ==> (#[trigger] without_item(bots, id).contains(x) <==> bots.contains(x)),
    decreases bots.len(),
{
    if bots.len() > 0 {
        let t = bots.drop_last();
        law_removed_bot(t, id);
        let w = without_item(bots, id);
        let v = without_item(t, id);
        assert forall|x: Seq<char>| x != id implies (#[trigger] w.contains(x) <==> bots.contains(
            x,
        )) by {
            if w.contains(x) {
                let i = choose|i: int| 0 <= i < w.len() && w[i] == x;
                if i < v.len() {
                    assert(v[i] == x);
                    assert(v.contains(x));
                    let k = choose|k: int| 0 <= k < t.len() && t[k] == x;
                    assert(bots[k] == x);
                } else {
                    assert(bots[bots.len() - 1] == x);
                }
            }
            if bots.contains(x) {
                let k = choose|k: int| 0 <= k < bots.len() && bots[k] == x;
                if k < t.len() {
                    assert(t[k] == x);
                    assert(t.contains(x));
                    assert(v.contains(x));
                    let i = choose|i: int| 0 <= i < v.len() && v[i] == x;
                    assert(w[i] == x);
                } else {
                    assert(w[w.len() - 1] == x);
                }
            }
        }
        if w.contains(id) {
            let i = choose|i: int| 0 <= i < w.len() && w[i] == id;
            if i < v.len() {
                assert(v[i] == id);
                assert(v.contains(id));
            }
        }
    }
}

/// A change touches the channel it names and no other, and never the owner.
pub proof fn law_change_is_local(a: AccessView, op: AccessOp, lang: Lang)
    ensures
        a.applied(op, lang) matches Ok((b, said, warnings)) ==> b.owner == a.owner && b.extra
            == a.extra && forall|c: Seq<char>|
            match op {
                AccessOp::SetRepo { channel, .. } => c != channel@,
                AccessOp::SetWarm { channel, .. } => c != channel@,
                _ => true,
            } ==> (#[trigger] b.routes.dom().contains(c) <==> a.routes.dom().contains(c))
                && b.routes[c] == a.routes[c],
{
}

/// A change that is made twice gives the same settings as one that is made once.
pub proof fn law_change_is_idempotent(a: AccessView, op: AccessOp, lang: Lang)
    requires
        a.applied(op, lang) is Ok,
    ensures
        a.applied(op, lang)->Ok_0.0.applied(op, lang) is Ok,
        a.applied(op, lang)->Ok_0.0.applied(op, lang)->Ok_0.0 == a.applied(op, lang)->Ok_0.0,
{
    let b = a.applied(op, lang)->Ok_0.0;
    let c = b.applied(op, lang)->Ok_0.0;
    match op {
        AccessOp::BotAllow(id) => {
            super::threads::law_granted_once(a.allowed_bots, id@);
        },
        AccessOp::BotRemove(id) => {
            law_removed_bot(a.allowed_bots, id@);
            lemma_without_absent(b.allowed_bots, id@);
        },
        AccessOp::SetRepo { channel, .. } => {
            assert(c.routes =~= b.routes);
        },
        AccessOp::SetWarm { channel, .. } => {
            assert(c.routes =~= b.routes);
        },
        AccessOp::SetHome(_) => {},
    }
}

proof fn lemma_without_absent(list: Seq<Seq<char>>, x: Seq<char>)
    requires
        !list.contains(x),
    ensures
        without_item(list, x) == list,
    decreases list.len(),
{
    if list.len() > 0 {
        let t = list.drop_last();
        assert(!t.contains(x)) by {
            if t.contains(x) {
                let i = choose|i: int| 0 <= i < t.len() && t[i] == x;
                assert(list[i] == x);
            }
        }
        assert(list[list.len() - 1] != x);
        lemma_without_absent(t, x);
        assert(t.push(list.last()) =~= list);
    }
}

/// The settings of the channels are listed in the order of their names, each once.
pub proof fn law_routes_are_listed(x: Access)
    ensures
        table::lists(x.rows(), x@.routes),
{
    let f = |v: Route| v@;
    table::lemma_entries_seen(x.routes, f);
    assert(x.rows() =~= x.routes.entries().map_values(|r: (Seq<char>, Route)| (r.0, f(r.1))));
    assert(x@.routes =~= x.routes@.map_values(f));
}

/// Who is let in: the owner, and of the bots those that are allowed. While there is no owner, nobody is.
/// The owner's name does not let a bot in, and a bot's id is no user's.
pub proof fn law_who_is_let_in(a: AccessView, user: Option<Seq<char>>, bot_id: Option<Seq<char>>)
    ensures
        a.owner.len() == 0 ==> !a.admits(user, bot_id),
        a.owner.len() > 0 && bot_id is None ==> (a.admits(user, bot_id) <==> user is Some && user->0
            == a.owner),
        a.owner.len() > 0 && bot_id is Some ==> (a.admits(user, bot_id) <==> a.allowed_bots.contains(
            bot_id->0,
        )),
{
}

/// An allowed bot is let in until it is removed, and then no more; no other sender's standing changes.
pub proof fn law_bots_come_and_go(
    a: AccessView,
    id: Seq<char>,
    lang: Lang,
    user: Option<Seq<char>>,
    other: Option<Seq<char>>,
)
    requires
        id.len() > 1,
        id[0] == 'B',
        forall|i: int|
            1 <= i < id.len() ==> 'A' <= #[trigger] id[i] <= 'Z' || '0' <= id[i] <= '9',
    ensures
        a.bot_allowed(id, lang) matches Ok((b, said, warnings)) && (a.owner.len() > 0 ==> b.admits(
            user,
            Some(id),
        )) && (other != Some(id) ==> b.admits(user, other) == a.admits(user, other)) && b.routes
            == a.routes && b.home_channel == a.home_channel && warnings.len() == 0,
        a.bot_removed(id, lang) matches Ok((b, said, warnings)) && !b.admits(user, Some(id)) && (
        other != Some(id) ==> b.admits(user, other) == a.admits(user, other)) && b.routes
            == a.routes && b.home_channel == a.home_channel && warnings.len() == 0,
{
    assert(seq!['B'][0] == 'B');
    assert(is_bot_id(id));
    crate::bridge::state::threads::law_granted_once(a.allowed_bots, id);
    law_removed_bot(a.allowed_bots, id);
}

/// What is no bot's id is refused, and nothing changes.
pub proof fn law_only_bots_are_allowed(a: AccessView, id: Seq<char>, lang: Lang)
    requires
        id.len() <= 1 || id[0] != 'B',
    ensures
        a.bot_allowed(id, lang) is Err,
        a.bot_removed(id, lang) is Err,
{
    if id.len() > 1 && seq!['B'].contains(id[0]) {
        let i = choose|i: int| 0 <= i < seq!['B'].len() && seq!['B'][i] == id[0];
        assert(false);
    }
}

proof fn lemma_channel_id(id: Seq<char>)
    ensures
        is_channel_id(id) <==> id.len() > 1 && (id[0] == 'C' || id[0] == 'G') && forall|i: int|
            1 <= i < id.len() ==> 'A' <= #[trigger] id[i] <= 'Z' || '0' <= id[i] <= '9',
{
    let first = seq!['C', 'G'];
    assert(first[0] == 'C' && first[1] == 'G');
}

/// A channel is given a project where it is a channel and the path begins at the root; then it works
/// there. Its other settings stay.
pub proof fn law_project_is_set(
    a: AccessView,
    channel: Seq<char>,
    path: Seq<char>,
    home: Seq<char>,
    lang: Lang,
)
    ensures
        a.repo_set(channel, path, lang) is Ok <==> channel.len() > 1 && (channel[0] == 'C'
            || channel[0] == 'G') && (forall|i: int|
            1 <= i < channel.len() ==> 'A' <= #[trigger] channel[i] <= 'Z' || '0' <= channel[i]
                <= '9') && path.len() > 0 && path[0] == '/',
        a.repo_set(channel, path, lang) matches Ok((b, said, warnings)) ==> {
            let was = route_or_blank(a.routes, channel);
            &&& b.routes.dom().contains(channel)
            &&& b.routes[channel].repo_path == Some(path)
            &&& b.routes[channel].warm == was.warm
            &&& b.routes[channel].allowed_tools == was.allowed_tools
            &&& b.routes[channel].bridge == was.bridge
            &&& b.routes[channel].label == was.label
            &&& b.allowed_bots == a.allowed_bots
            &&& b.home_channel == a.home_channel
            &&& b.folder_of(channel, home) == (path, false)
            &&& warnings.len() == 0
        },
{
    lemma_channel_id(channel);
    reveal_strlit("/");
    assert("/"@.len() == 1 && "/"@[0] == '/');
    if path.len() > 0 {
        assert(path.subrange(0, 1)[0] == path[0]);
        if path[0] == '/' {
            assert(path.subrange(0, 1) =~= "/"@);
        }
    }
}

/// Whether agents are started ahead is set for the channel that is named, and its project stays; where
/// it has no project yet, a warning says so.
pub proof fn law_warmth_is_set(a: AccessView, channel: Seq<char>, on: bool, lang: Lang)
    ensures
        a.warm_set(channel, on, lang) is Ok <==> channel.len() > 1 && (channel[0] == 'C'
            || channel[0] == 'G') && (forall|i: int|
            1 <= i < channel.len() ==> 'A' <= #[trigger] channel[i] <= 'Z' || '0' <= channel[i]
                <= '9'),
        a.warm_set(channel, on, lang) matches Ok((b, said, warnings)) ==> {
            let was = route_or_blank(a.routes, channel);
            &&& b.routes.dom().contains(channel)
            &&& b.routes[channel].warm == Some(on)
            &&& b.routes[channel].repo_path == was.repo_path
            &&& b.routes[channel].allowed_tools == was.allowed_tools
            &&& b.routes[channel].bridge == was.bridge
            &&& b.allowed_bots == a.allowed_bots
            &&& b.home_channel == a.home_channel
            &&& warnings.len() == 0 <==> was.repo_path is Some && was.repo_path->0.len() > 0
            &&& warnings.len() <= 1
        },
{
    lemma_channel_id(channel);
}

/// The home channel is the one that is named, where it is a channel; to name none is to have none.
pub proof fn law_home_is_set(a: AccessView, channel: Seq<char>, lang: Lang)
    ensures
        channel.len() == 0 ==> a.home_set(channel, lang) is Ok,
        channel.len() > 0 ==> (a.home_set(channel, lang) is Ok <==> channel.len() > 1 && (channel[0]
            == 'C' || channel[0] == 'G') && forall|i: int|
            1 <= i < channel.len() ==> 'A' <= #[trigger] channel[i] <= 'Z' || '0' <= channel[i]
                <= '9'),
        a.home_set(channel, lang) matches Ok((b, said, warnings)) ==> {
            &&& channel.len() == 0 ==> b.home_channel is None
            &&& channel.len() > 0 ==> b.home_channel == Some(channel)
            &&& b.routes == a.routes
            &&& b.allowed_bots == a.allowed_bots
            &&& warnings.len() == 0
        },
{
    lemma_channel_id(channel);
}

/// A channel works in its project where one is set, and else in the home folder.
pub proof fn law_folder_of_a_channel(a: AccessView, channel: Seq<char>, home: Seq<char>)
    ensures
        a.routes.dom().contains(channel) && a.routes[channel].repo_path is Some
            && a.routes[channel].repo_path->0.len() > 0 ==> a.folder_of(channel, home) == (
            a.routes[channel].repo_path->0,
            false,
        ),
        !a.routes.dom().contains(channel) || a.routes[channel].repo_path is None
            || a.routes[channel].repo_path->0.len() == 0 ==> a.folder_of(channel, home) == (
            home,
            true,
        ),
{
}

/// A channel asks for an agent ahead of time where it has a project, is this machine's or nobody's, and
/// was not told to go without.
pub proof fn law_who_asks_for_an_agent(r: RouteView, me: Seq<char>)
    ensures
        asks_for_agent(r, me) <==> r.repo_path is Some && r.repo_path->0.len() > 0 && (r.bridge
            is None || r.bridge == Some(me)) && (r.warm is None || r.warm->0),
{
}

/// A change is the one that was asked for.
pub proof fn law_change_is_the_one_asked(a: AccessView, op: AccessOp, lang: Lang)
    ensures
        op matches AccessOp::BotAllow(id) ==> a.applied(op, lang) == a.bot_allowed(id@, lang),
        op matches AccessOp::BotRemove(id) ==> a.applied(op, lang) == a.bot_removed(id@, lang),
        op matches AccessOp::SetRepo { channel, path } ==> a.applied(op, lang) == a.repo_set(
            channel@,
            path@,
            lang,
        ),
        op matches AccessOp::SetWarm { channel, on } ==> a.applied(op, lang) == a.warm_set(
            channel@,
            on,
            lang,
        ),
        op matches AccessOp::SetHome(channel) ==> a.applied(op, lang) == a.home_set(
            text::trimmed(channel@),
            lang,
        ),
{
}

} // verus!
