//! Reading what Slack sends: posts, edits, deletions, reactions and button presses.
use crate::chat::slack::wire;
use crate::chat::{self, ChannelKind, Edited, InboundFile, InboundMsg, Reaction};
use crate::json;
use crate::text;
use vstd::prelude::*;

verus! {

/// Who sent something.
#[derive(Debug)]
pub struct Sender {
    pub user: Option<String>,
    pub bot_id: Option<String>,
}

/// What a [`Sender`] holds.
pub struct SenderView {
    pub user: Option<Seq<char>>,
    pub bot_id: Option<Seq<char>>,
}

impl View for Sender {
    type V = SenderView;

    open spec fn view(&self) -> SenderView {
        SenderView { user: text::opt_view(self.user), bot_id: text::opt_view(self.bot_id) }
    }
}

/// An attachment.
#[derive(Debug)]
pub struct EventFile {
    pub id: String,
    pub name: Option<String>,
}

/// What an [`EventFile`] holds.
pub struct FileView {
    pub id: Seq<char>,
    pub name: Option<Seq<char>>,
}

impl View for EventFile {
    type V = FileView;

    open spec fn view(&self) -> FileView {
        FileView { id: self.id@, name: text::opt_view(self.name) }
    }
}

/// What a message says.
#[derive(Debug)]
pub struct Content {
    pub text: Option<String>,
    pub files: Vec<EventFile>,
}

/// What a [`Content`] holds.
pub struct ContentView {
    pub text: Option<Seq<char>>,
    pub files: Seq<FileView>,
}

impl View for Content {
    type V = ContentView;

    open spec fn view(&self) -> ContentView {
        ContentView {
            text: text::opt_view(self.text),
            files: self.files@.map_values(|f: EventFile| f@),
        }
    }
}

impl ContentView {
    /// The text, empty where there is none.
    pub open spec fn words(self) -> Seq<char> {
        match self.text {
            Some(t) => t,
            None => Seq::empty(),
        }
    }
}

/// What may not be there, by what it holds.
pub open spec fn content_view(c: Option<Content>) -> Option<ContentView> {
    match c {
        Some(c) => Some(c@),
        None => None,
    }
}

/// Where a message stands.
#[derive(Debug)]
pub struct Origin {
    pub ts: String,
    pub channel: Option<String>,
    pub channel_type: Option<String>,
    pub thread_ts: Option<String>,
}

/// What an [`Origin`] holds.
pub struct OriginView {
    pub ts: Seq<char>,
    pub channel: Option<Seq<char>>,
    pub channel_type: Option<Seq<char>>,
    pub thread_ts: Option<Seq<char>>,
}

impl View for Origin {
    type V = OriginView;

    open spec fn view(&self) -> OriginView {
        OriginView {
            ts: self.ts@,
            channel: text::opt_view(self.channel),
            channel_type: text::opt_view(self.channel_type),
            thread_ts: text::opt_view(self.thread_ts),
        }
    }
}

/// The subtype of a bot's post.
pub const BOT_MESSAGE: &'static str = "BotMessage";

/// The subtype of an answer that is shown in the channel too.
pub const THREAD_BROADCAST: &'static str = "ThreadBroadcast";

/// The subtype of an edit.
pub const MESSAGE_CHANGED: &'static str = "MessageChanged";

/// The message that an edit left.
#[derive(Debug)]
pub struct ChangedMessage {
    pub ts: String,
    pub sender: Sender,
    pub content: Option<Content>,
    /// Which edit it is.
    pub edited_ts: Option<String>,
}

/// What a [`ChangedMessage`] holds.
pub struct ChangedView {
    pub ts: Seq<char>,
    pub sender: SenderView,
    pub content: Option<ContentView>,
    pub edited_ts: Option<Seq<char>>,
}

impl View for ChangedMessage {
    type V = ChangedView;

    open spec fn view(&self) -> ChangedView {
        ChangedView {
            ts: self.ts@,
            sender: self.sender@,
            content: content_view(self.content),
            edited_ts: text::opt_view(self.edited_ts),
        }
    }
}

/// The message before an edit or a deletion.
#[derive(Debug)]
pub struct PreviousMessage {
    pub sender: Sender,
    pub content: Option<Content>,
}

/// What a [`PreviousMessage`] holds.
pub struct PreviousView {
    pub sender: SenderView,
    pub content: Option<ContentView>,
}

impl View for PreviousMessage {
    type V = PreviousView;

    open spec fn view(&self) -> PreviousView {
        PreviousView { sender: self.sender@, content: content_view(self.content) }
    }
}

/// A message event.
#[derive(Debug)]
pub struct MessageEvent {
    pub origin: Origin,
    pub sender: Sender,
    pub content: Option<Content>,
    /// What kind of message it is, by name; an ordinary post has none.
    pub subtype: Option<String>,
    pub deleted_ts: Option<String>,
    pub message: Option<ChangedMessage>,
    pub previous_message: Option<PreviousMessage>,
}

/// What a [`MessageEvent`] holds.
pub struct MessageView {
    pub origin: OriginView,
    pub sender: SenderView,
    pub content: Option<ContentView>,
    pub subtype: Option<Seq<char>>,
    pub deleted_ts: Option<Seq<char>>,
    pub message: Option<ChangedView>,
    pub previous_message: Option<PreviousView>,
}

pub open spec fn changed_view(m: Option<ChangedMessage>) -> Option<ChangedView> {
    match m {
        Some(m) => Some(m@),
        None => None,
    }
}

pub open spec fn previous_view(m: Option<PreviousMessage>) -> Option<PreviousView> {
    match m {
        Some(m) => Some(m@),
        None => None,
    }
}

impl View for MessageEvent {
    type V = MessageView;

    open spec fn view(&self) -> MessageView {
        MessageView {
            origin: self.origin@,
            sender: self.sender@,
            content: content_view(self.content),
            subtype: text::opt_view(self.subtype),
            deleted_ts: text::opt_view(self.deleted_ts),
            message: changed_view(self.message),
            previous_message: previous_view(self.previous_message),
        }
    }
}

/// The message that was reacted to.
#[derive(Debug)]
pub struct ReactionItem {
    pub origin: Origin,
    pub text: Option<String>,
}

/// What a [`ReactionItem`] holds.
pub struct ItemView {
    pub origin: OriginView,
    pub text: Option<Seq<char>>,
}

impl View for ReactionItem {
    type V = ItemView;

    open spec fn view(&self) -> ItemView {
        ItemView { origin: self.origin@, text: text::opt_view(self.text) }
    }
}

/// A reaction event. There is no item where the reaction is not on a message.
#[derive(Debug)]
pub struct ReactionEvent {
    pub user: String,
    pub reaction: String,
    pub item: Option<ReactionItem>,
}

/// What a [`ReactionEvent`] holds.
pub struct ReactionView {
    pub user: Seq<char>,
    pub reaction: Seq<char>,
    pub item: Option<ItemView>,
}

impl View for ReactionEvent {
    type V = ReactionView;

    open spec fn view(&self) -> ReactionView {
        ReactionView {
            user: self.user@,
            reaction: self.reaction@,
            item: match self.item {
                Some(i) => Some(i@),
                None => None,
            },
        }
    }
}

/// An event.
#[derive(Debug)]
pub enum SlackEvent {
    Message(MessageEvent),
    ReactionAdded(ReactionEvent),
    ReactionRemoved(ReactionEvent),
    /// Somebody joined a channel.
    MemberJoined,
    Other,
}

/// What a [`SlackEvent`] holds.
pub enum EventView {
    Message(MessageView),
    ReactionAdded(ReactionView),
    ReactionRemoved(ReactionView),
    MemberJoined,
    Other,
}

impl View for SlackEvent {
    type V = EventView;

    open spec fn view(&self) -> EventView {
        match self {
            SlackEvent::Message(ev) => EventView::Message(ev@),
            SlackEvent::ReactionAdded(ev) => EventView::ReactionAdded(ev@),
            SlackEvent::ReactionRemoved(ev) => EventView::ReactionRemoved(ev@),
            SlackEvent::MemberJoined => EventView::MemberJoined,
            SlackEvent::Other => EventView::Other,
        }
    }
}

impl SenderView {
    /// Not a person: a bot, or nobody that is known.
    pub open spec fn is_machine(self) -> bool {
        self.bot_id is Some || self.user is None
    }
}

impl Sender {
    fn machine(&self) -> (r: bool)
        ensures
            r == self@.is_machine(),
    {
        self.bot_id.is_some() || self.user.is_none()
    }
}

impl OriginView {
    pub open spec fn kind(self) -> ChannelKind {
        if self.channel_type == Some("im"@) {
            ChannelKind::Dm
        } else {
            ChannelKind::Channel
        }
    }
}

impl Origin {
    fn channel_kind(&self) -> (r: ChannelKind)
        ensures
            r == self@.kind(),
    {
        match &self.channel_type {
            Some(t) => if text::same(t.as_str(), "im") {
                ChannelKind::Dm
            } else {
                ChannelKind::Channel
            },
            None => ChannelKind::Channel,
        }
    }
}

/// Whether a message is of a subtype.
fn is_subtype(ev: &MessageEvent, name: &str) -> (r: bool)
    ensures
        r == (ev@.subtype == Some(name@)),
{
    match &ev.subtype {
        Some(s) => text::same(s.as_str(), name),
        None => false,
    }
}

/// The attachments as they are shown: one without a name goes by its id.
pub open spec fn are_files(out: Seq<InboundFile>, files: Seq<FileView>) -> bool {
    &&& out.len() == files.len()
    &&& forall|i: int|
        0 <= i < out.len() ==> (#[trigger] out[i]).id@ == files[i].id && out[i].name@ == (
        match files[i].name {
            Some(n) => n,
            None => files[i].id,
        })
}

fn files_of(content: &Content) -> (out: Vec<InboundFile>)
    ensures
        are_files(out@, content@.files),
{
    let files: &Vec<EventFile> = &content.files;
    let ghost all = content@.files;
    let mut out: Vec<InboundFile> = Vec::new();
    let mut i: usize = 0;
    while i < files.len()
        invariant
            i <= files@.len(),
            all == files@.map_values(|f: EventFile| f@),
            out@.len() == i,
            forall|k: int|
                0 <= k < i ==> (#[trigger] out@[k]).id@ == all[k].id && out@[k].name@ == (
                match all[k].name {
                    Some(n) => n,
                    None => all[k].id,
                }),
        decreases files@.len() - i,
    {
        proof {
            assert(all[i as int] == files@[i as int]@);
        }
        let name: String = match &files[i].name {
            Some(n) => n.clone(),
            None => files[i].id.clone(),
        };
        out.push(InboundFile { id: files[i].id.clone(), name });
        i = i + 1;
    }
    out
}

/// Nothing but what the event itself tells.
pub open spec fn is_plain(m: InboundMsg) -> bool {
    m.file_paths@.len() == 0 && m.file_errors@.len() == 0
}

/// A post that can be answered: it says something or carries a file, it stands in a channel, and it
/// is no notice of the platform (unless a file came with it).
pub open spec fn is_answerable(ev: MessageView) -> bool {
    &&& ev.content is Some
    &&& ev.content->0.files.len() > 0 || ev.subtype is None || ev.subtype == Some(BOT_MESSAGE@)
        || ev.subtype == Some(THREAD_BROADCAST@)
    &&& ev.content->0.text is Some || ev.content->0.files.len() > 0
    &&& ev.origin.channel is Some
}

/// A post as it is delivered.
pub open spec fn is_post(ev: MessageView, m: InboundMsg) -> bool {
    let content = ev.content->0;
    &&& Some(m.channel@) == ev.origin.channel
    &&& m.channel_kind == ev.origin.kind()
    &&& m.ts@ == ev.origin.ts
    &&& text::opt_view(m.thread_ts) == ev.origin.thread_ts
    &&& text::opt_view(m.user) == ev.sender.user
    &&& m.is_bot == ev.sender.is_machine()
    &&& text::opt_view(m.bot_id) == ev.sender.bot_id
    &&& m.text@ == content.words()
    &&& are_files(m.files@, content.files)
    &&& is_plain(m)
    &&& m.reaction is None && m.deleted_ts is None && m.edited is None
}

fn words_of(content: &Content) -> (out: String)
    ensures
        out@ == content@.words(),
{
    match &content.text {
        Some(t) => t.clone(),
        None => String::new(),
    }
}

/// A post, as it is delivered. `None` for what cannot be answered.
pub fn message_of(ev: &MessageEvent) -> (r: Option<InboundMsg>)
    ensures
        match r {
            Some(m) => is_answerable(ev@) && is_post(ev@, m),
            None => !is_answerable(ev@),
        },
{
    let content: &Content = match &ev.content {
        Some(c) => c,
        None => return None,
    };
    let files: Vec<InboundFile> = files_of(content);
    let notice: bool = ev.subtype.is_some() && !is_subtype(ev, BOT_MESSAGE) && !is_subtype(
        ev,
        THREAD_BROADCAST,
    );
    if notice && files.len() == 0 {
        return None;
    }
    if content.text.is_none() && files.len() == 0 {
        return None;
    }
    let channel: String = match &ev.origin.channel {
        Some(c) => c.clone(),
        None => return None,
    };
    Some(
        InboundMsg {
            channel,
            channel_kind: ev.origin.channel_kind(),
            ts: ev.origin.ts.clone(),
            thread_ts: ev.origin.thread_ts.clone(),
            user: ev.sender.user.clone(),
            is_bot: ev.sender.machine(),
            bot_id: ev.sender.bot_id.clone(),
            text: words_of(content),
            files,
            file_paths: Vec::new(),
            file_errors: Vec::new(),
            reaction: None,
            deleted_ts: None,
            edited: None,
        },
    )
}

/// The text of a message before it changed.
pub open spec fn text_before(ev: MessageView) -> Seq<char> {
    match ev.previous_message {
        Some(p) => match p.content {
            Some(c) => c.words(),
            None => Seq::empty(),
        },
        None => Seq::empty(),
    }
}

pub open spec fn had_files(ev: MessageView) -> bool {
    ev.previous_message is Some && ev.previous_message->0.content is Some
        && ev.previous_message->0.content->0.files.len() > 0
}

/// A deletion that takes a person's request back.
pub open spec fn takes_back(ev: MessageView) -> bool {
    &&& ev.deleted_ts is Some
    &&& ev.previous_message is Some ==> !ev.previous_message->0.sender.is_machine()
    &&& ev.origin.channel is Some
}

/// A deletion as it is delivered: an instruction to take the request back.
pub open spec fn is_deletion(ev: MessageView, m: InboundMsg) -> bool {
    let deleted = ev.deleted_ts->0;
    &&& Some(m.channel@) == ev.origin.channel
    &&& m.channel_kind == ev.origin.kind()
    &&& m.ts@ == deleted
    &&& text::opt_view(m.thread_ts) == Some(
        match ev.origin.thread_ts {
            Some(t) => t,
            None => deleted,
        },
    )
    &&& text::opt_view(m.user) == (match ev.previous_message {
        Some(p) => p.sender.user,
        None => None,
    })
    &&& m.bot_id is None && !m.is_bot
    &&& m.text@ == chat::deletion_told(deleted, text_before(ev), had_files(ev))
    &&& m.files@.len() == 0
    &&& is_plain(m)
    &&& m.reaction is None && m.edited is None
    &&& text::opt_view(m.deleted_ts) == Some(deleted)
}

fn previous_text(ev: &MessageEvent) -> (out: String)
    ensures
        out@ == text_before(ev@),
{
    match &ev.previous_message {
        Some(p) => match &p.content {
            Some(c) => words_of(c),
            None => String::new(),
        },
        None => String::new(),
    }
}

/// A deletion, as it is delivered. The bot's own posts are no requests, so taking one of them off
/// takes nothing back.
pub fn deletion_of(ev: &MessageEvent) -> (r: Option<InboundMsg>)
    ensures
        match r {
            Some(m) => takes_back(ev@) && is_deletion(ev@, m),
            None => !takes_back(ev@),
        },
{
    let deleted: &String = match &ev.deleted_ts {
        Some(t) => t,
        None => return None,
    };
    let mut user: Option<String> = None;
    let mut files: bool = false;
    match &ev.previous_message {
        Some(p) => {
            if p.sender.machine() {
                return None;
            }
            user = p.sender.user.clone();
            files = match &p.content {
                Some(c) => c.files.len() > 0,
                None => false,
            };
        },
        None => {},
    }
    let body: String = previous_text(ev);
    let thread: String = match &ev.origin.thread_ts {
        Some(t) => t.clone(),
        None => deleted.clone(),
    };
    let channel: String = match &ev.origin.channel {
        Some(c) => c.clone(),
        None => return None,
    };
    Some(
        InboundMsg {
            channel,
            channel_kind: ev.origin.channel_kind(),
            ts: deleted.clone(),
            thread_ts: Some(thread),
            user,
            bot_id: None,
            is_bot: false,
            text: chat::deletion_notice(deleted.as_str(), body.as_str(), files),
            files: Vec::new(),
            file_paths: Vec::new(),
            file_errors: Vec::new(),
            reaction: None,
            deleted_ts: Some(deleted.clone()),
            edited: None,
        },
    )
}

/// The text that an edit left.
pub open spec fn text_after(ev: MessageView) -> Seq<char> {
    ev.message->0.content->0.words()
}

/// An edit by a person that changed the text.
pub open spec fn rewords(ev: MessageView) -> bool {
    &&& ev.message is Some
    &&& !ev.message->0.sender.is_machine()
    &&& ev.message->0.content is Some
    &&& text_after(ev) != text_before(ev)
    &&& ev.origin.channel is Some
}

/// An edit as it is delivered: the new body, and which edit it is.
pub open spec fn is_edit(ev: MessageView, m: InboundMsg) -> bool {
    let now = ev.message->0;
    &&& Some(m.channel@) == ev.origin.channel
    &&& m.channel_kind == ev.origin.kind()
    &&& m.ts@ == now.ts
    &&& text::opt_view(m.thread_ts) == ev.origin.thread_ts
    &&& text::opt_view(m.user) == now.sender.user
    &&& m.bot_id is None && !m.is_bot
    &&& m.text@ == text_after(ev)
    &&& are_files(m.files@, now.content->0.files)
    &&& is_plain(m)
    &&& m.reaction is None && m.deleted_ts is None
    &&& m.edited matches Some(e) && e.ts@ == now.ts && e.revision@ == (match now.edited_ts {
        Some(t) => t,
        None => text::decimal(text::bytes(text_after(ev)) as int),
    })
}

/// An edit, as it is delivered. What left the text as it was, and the bot's own edits, are none.
pub fn edit_of(ev: &MessageEvent) -> (r: Option<InboundMsg>)
    ensures
        match r {
            Some(m) => rewords(ev@) && is_edit(ev@, m),
            None => !rewords(ev@),
        },
{
    let now: &ChangedMessage = match &ev.message {
        Some(m) => m,
        None => return None,
    };
    if now.sender.machine() {
        return None;
    }
    let content: &Content = match &now.content {
        Some(c) => c,
        None => return None,
    };
    let new_text: String = words_of(content);
    let old_text: String = previous_text(ev);
    if text::same(new_text.as_str(), old_text.as_str()) {
        return None;
    }
    let files: Vec<InboundFile> = files_of(content);
    let channel: String = match &ev.origin.channel {
        Some(c) => c.clone(),
        None => return None,
    };
    let revision: String = match &now.edited_ts {
        Some(t) => t.clone(),
        None => text::number(text::byte_len(new_text.as_str()) as u64),
    };
    Some(
        InboundMsg {
            channel,
            channel_kind: ev.origin.channel_kind(),
            ts: now.ts.clone(),
            thread_ts: ev.origin.thread_ts.clone(),
            user: now.sender.user.clone(),
            bot_id: None,
            is_bot: false,
            text: new_text,
            files,
            file_paths: Vec::new(),
            file_errors: Vec::new(),
            reaction: None,
            deleted_ts: None,
            edited: Some(Edited { ts: now.ts.clone(), revision }),
        },
    )
}

/// A reaction on a message that stands in a channel.
pub open spec fn is_on_message(ev: ReactionView) -> bool {
    ev.item is Some && ev.item->0.origin.channel is Some
}

/// A reaction as it is delivered.
pub open spec fn is_reaction(ev: ReactionView, added: bool, m: InboundMsg) -> bool {
    let item = ev.item->0;
    &&& Some(m.channel@) == item.origin.channel
    &&& m.channel_kind == item.origin.kind()
    &&& m.ts@ == item.origin.ts
    &&& text::opt_view(m.thread_ts) == item.origin.thread_ts
    &&& text::opt_view(m.user) == Some(ev.user)
    &&& m.bot_id is None && !m.is_bot
    &&& m.reaction matches Some(r) && r.emoji@ == ev.reaction && r.item_ts@ == item.origin.ts
        && r.added == added && m.text@ == r.told(
        ev.user,
        match item.text {
            Some(t) => t,
            None => "(no text)"@,
        },
    )
    &&& m.files@.len() == 0
    &&& is_plain(m)
    &&& m.deleted_ts is None && m.edited is None
}

/// A reaction, as it is delivered. Whose message it is on is not known here.
pub fn reaction_of(ev: &ReactionEvent, added: bool) -> (r: Option<InboundMsg>)
    ensures
        match r {
            Some(m) => is_on_message(ev@) && is_reaction(ev@, added, m),
            None => !is_on_message(ev@),
        },
{
    let item: &ReactionItem = match &ev.item {
        Some(i) => i,
        None => return None,
    };
    let channel: String = match &item.origin.channel {
        Some(c) => c.clone(),
        None => return None,
    };
    let reaction: Reaction = Reaction {
        emoji: ev.reaction.clone(),
        item_ts: item.origin.ts.clone(),
        added,
    };
    let quoted: &str = match &item.text {
        Some(t) => t.as_str(),
        None => "(no text)",
    };
    let told: String = reaction.synthetic_text(ev.user.as_str(), quoted);
    Some(
        InboundMsg {
            channel,
            channel_kind: item.origin.channel_kind(),
            ts: item.origin.ts.clone(),
            thread_ts: item.origin.thread_ts.clone(),
            user: Some(ev.user.clone()),
            is_bot: false,
            bot_id: None,
            text: told,
            files: Vec::new(),
            file_paths: Vec::new(),
            file_errors: Vec::new(),
            reaction: Some(reaction),
            deleted_ts: None,
            edited: None,
        },
    )
}

/// An event as it is delivered: a deletion, an edit, a post or a reaction, the first that it is.
pub open spec fn delivers(event: EventView, m: InboundMsg) -> bool {
    match event {
        EventView::Message(ev) => if ev.deleted_ts is Some {
            takes_back(ev) && is_deletion(ev, m)
        } else if ev.subtype == Some(MESSAGE_CHANGED@) {
            rewords(ev) && is_edit(ev, m)
        } else {
            is_answerable(ev) && is_post(ev, m)
        },
        EventView::ReactionAdded(ev) => is_on_message(ev) && is_reaction(ev, true, m),
        EventView::ReactionRemoved(ev) => is_on_message(ev) && is_reaction(ev, false, m),
        EventView::MemberJoined => false,
        EventView::Other => false,
    }
}

/// An event that is dropped.
pub open spec fn is_dropped(event: EventView) -> bool {
    match event {
        EventView::Message(ev) => if ev.deleted_ts is Some {
            !takes_back(ev)
        } else if ev.subtype == Some(MESSAGE_CHANGED@) {
            !rewords(ev)
        } else {
            !is_answerable(ev)
        },
        EventView::ReactionAdded(ev) => !is_on_message(ev),
        EventView::ReactionRemoved(ev) => !is_on_message(ev),
        EventView::MemberJoined => true,
        EventView::Other => true,
    }
}

/// Folds one event into what is delivered; `None` for what is dropped.
pub fn inbound_of(event: &SlackEvent) -> (r: Option<InboundMsg>)
    ensures
        match r {
            Some(m) => delivers(event@, m) && !is_dropped(event@),
            None => is_dropped(event@),
        },
{
    match event {
        SlackEvent::Message(ev) => if ev.deleted_ts.is_some() {
            deletion_of(ev)
        } else if is_subtype(ev, MESSAGE_CHANGED) {
            edit_of(ev)
        } else {
            message_of(ev)
        },
        SlackEvent::ReactionAdded(ev) => reaction_of(ev, true),
        SlackEvent::ReactionRemoved(ev) => reaction_of(ev, false),
        SlackEvent::MemberJoined => None,
        SlackEvent::Other => None,
    }
}

/// A text in the log where it may be absent: in quotes, with `name` and brackets round it where it has
/// a type of its own.
pub open spec fn logged(name: Seq<char>, s: Option<Seq<char>>) -> Seq<char> {
    match s {
        Some(t) => if name.len() > 0 {
            "Some("@ + name + "("@ + text::debug_quoted(t) + "))"@
        } else {
            "Some("@ + text::debug_quoted(t) + ")"@
        },
        None => "None"@,
    }
}

fn log_text(name: &str, s: Option<&String>) -> (out: String)
    ensures
        out@ == logged(
            name@,
            match s {
                Some(t) => Some(t@),
                None => None,
            },
        ),
{
    match s {
        Some(t) => {
            let shown: String = text::debug_text(t.as_str());
            if !name.is_empty() {
                let inner: String = text::cat4("Some(", name, "(", shown.as_str());
                text::cat(inner.as_str(), "))")
            } else {
                text::cat3("Some(", shown.as_str(), ")")
            }
        },
        None => "None".to_owned(),
    }
}

/// What the log is told of an event that was dropped: which message it was and who sent it, or what
/// kind of message it was. Of the bot's own edits it is told nothing.
pub open spec fn drop_note(event: EventView) -> Option<Seq<char>> {
    match event {
        EventView::Message(ev) => if ev.deleted_ts is Some {
            Some(
                "message_deleted ignored ts="@ + logged("SlackTs"@, ev.deleted_ts) + " sender="@ + (
                match ev.previous_message {
                    Some(p) => "Some(("@ + logged("SlackUserId"@, p.sender.user) + ", "@ + logged(
                        "SlackBotId"@,
                        p.sender.bot_id,
                    ) + "))"@,
                    None => "None"@,
                }),
            )
        } else if ev.subtype == Some(MESSAGE_CHANGED@) {
            if ev.message is Some && ev.message->0.sender.bot_id is Some {
                None
            } else {
                Some(
                    "message_changed ignored ts="@ + logged(
                        ""@,
                        match ev.message {
                            Some(m) => Some(m.ts),
                            None => None,
                        },
                    ) + " sender="@ + logged(
                        "SlackUserId"@,
                        match ev.message {
                            Some(m) => m.sender.user,
                            None => None,
                        },
                    ),
                )
            }
        } else {
            Some(
                "dropped unanswerable message subtype="@ + (match ev.subtype {
                    Some(s) => "Some("@ + s + ")"@,
                    None => "None"@,
                }),
            )
        },
        _ => None,
    }
}

fn deleted_note(ev: &MessageEvent) -> (out: String)
    requires
        ev@.deleted_ts is Some,
    ensures
        Some(out@) == drop_note(EventView::Message(ev@)),
{
    let ts: String = log_text("SlackTs", ev.deleted_ts.as_ref());
    let sender: String = match &ev.previous_message {
        Some(p) => {
            let user: String = log_text("SlackUserId", p.sender.user.as_ref());
            let bot: String = log_text("SlackBotId", p.sender.bot_id.as_ref());
            let both: String = text::cat4("Some((", user.as_str(), ", ", bot.as_str());
            text::cat(both.as_str(), "))")
        },
        None => "None".to_owned(),
    };
    text::cat4("message_deleted ignored ts=", ts.as_str(), " sender=", sender.as_str())
}

fn changed_note(ev: &MessageEvent) -> (out: String)
    requires
        ev@.deleted_ts is None,
        ev@.subtype == Some(MESSAGE_CHANGED@),
        !(ev@.message is Some && ev@.message->0.sender.bot_id is Some),
    ensures
        Some(out@) == drop_note(EventView::Message(ev@)),
{
    proof {
        reveal_strlit("");
        reveal_strlit("SlackUserId");
    }
    let (ts, user): (String, String) = match &ev.message {
        Some(m) => (log_text("", Some(&m.ts)), log_text("SlackUserId", m.sender.user.as_ref())),
        None => (log_text("", None), log_text("SlackUserId", None)),
    };
    text::cat4("message_changed ignored ts=", ts.as_str(), " sender=", user.as_str())
}

/// What to log of an event that was dropped. The bot's own edits are not worth a line: its progress
/// message is redrawn all the time.
pub fn dropped_line(event: &SlackEvent) -> (r: Option<String>)
    ensures
        text::opt_view(r) == drop_note(event@),
{
    match event {
        SlackEvent::Message(ev) => {
            if ev.deleted_ts.is_some() {
                return Some(deleted_note(ev));
            }
            if is_subtype(ev, MESSAGE_CHANGED) {
                let own: bool = match &ev.message {
                    Some(m) => m.sender.bot_id.is_some(),
                    None => false,
                };
                return if own {
                    None
                } else {
                    Some(changed_note(ev))
                };
            }
            let kind: String = match &ev.subtype {
                Some(s) => text::cat3("Some(", s.as_str(), ")"),
                None => "None".to_owned(),
            };
            Some(text::cat("dropped unanswerable message subtype=", kind.as_str()))
        },
        _ => None,
    }
}

/// The events that are handed on from one machine to another.
#[derive(Clone, Copy, Debug, PartialEq, Eq, Structural)]
pub enum RelayKind {
    Message,
    ReactionAdded,
    ReactionRemoved,
    MemberJoined,
}

/// The kind that an event is handed on as; the others are kept to this machine.
pub open spec fn handed_as(event: EventView) -> Option<RelayKind> {
    match event {
        EventView::Message(_) => Some(RelayKind::Message),
        EventView::ReactionAdded(_) => Some(RelayKind::ReactionAdded),
        EventView::ReactionRemoved(_) => Some(RelayKind::ReactionRemoved),
        EventView::MemberJoined => Some(RelayKind::MemberJoined),
        EventView::Other => None,
    }
}

/// The kind that an event is handed on as; `None` for one that is not handed on.
pub fn handed_on(event: &SlackEvent) -> (r: Option<RelayKind>)
    ensures
        r == handed_as(event@),
{
    match event {
        SlackEvent::Message(_) => Some(RelayKind::Message),
        SlackEvent::ReactionAdded(_) => Some(RelayKind::ReactionAdded),
        SlackEvent::ReactionRemoved(_) => Some(RelayKind::ReactionRemoved),
        SlackEvent::MemberJoined => Some(RelayKind::MemberJoined),
        SlackEvent::Other => None,
    }
}

/// What is handed on to another machine, in a form that can be sent as it is.
#[derive(Debug)]
pub enum FleetEvent {
    /// An event under its name, as JSON.
    Event { name: String, event: String },
    /// A pressed button and the message it belongs to, as JSON.
    Action { action: String, body: String },
}

/// An event as it is handed on to another machine. `json` is the event as JSON, where it could be
/// written; only the kinds that the other machine handles are handed on.
pub fn fleet_event_of(event: &SlackEvent, json: Option<String>) -> (r: Option<FleetEvent>)
    ensures
        match r {
            Some(FleetEvent::Event { name, event: body }) => handed_as(event@) is Some && json is Some
                && name@ == handed_as(event@)->0.label() && body@ == json->0@,
            Some(FleetEvent::Action { .. }) => false,
            None => handed_as(event@) is None || json is None,
        },
{
    match (handed_on(event), json) {
        (Some(k), Some(body)) => Some(
            FleetEvent::Event { name: k.name().to_owned(), event: body },
        ),
        _ => None,
    }
}

impl RelayKind {
    /// The name that an event is handed on under.
    pub open spec fn label(self) -> Seq<char> {
        match self {
            RelayKind::Message => "message"@,
            RelayKind::ReactionAdded => "reaction_added"@,
            RelayKind::ReactionRemoved => "reaction_removed"@,
            RelayKind::MemberJoined => "member_joined_channel"@,
        }
    }

    /// The name that an event is handed on under.
    pub fn name(self) -> (s: &'static str)
        ensures
            s@ == self.label(),
    {
        match self {
            RelayKind::Message => "message",
            RelayKind::ReactionAdded => "reaction_added",
            RelayKind::ReactionRemoved => "reaction_removed",
            RelayKind::MemberJoined => "member_joined_channel",
        }
    }

    /// The kind of event that has a name; `None` for one that is not handled.
    pub fn of(name: &str) -> (r: Option<RelayKind>)
        ensures
            r == kind_named(name@),
            match r {
                Some(k) => k.label() == name@,
                None => forall|k: RelayKind| #[trigger] k.label() != name@,
            },
    {
        if text::same(name, "message") {
            Some(RelayKind::Message)
        } else if text::same(name, "reaction_added") {
            Some(RelayKind::ReactionAdded)
        } else if text::same(name, "reaction_removed") {
            Some(RelayKind::ReactionRemoved)
        } else if text::same(name, "member_joined_channel") {
            Some(RelayKind::MemberJoined)
        } else {
            None
        }
    }
}

/// The kind of event that has a name.
pub open spec fn kind_named(name: Seq<char>) -> Option<RelayKind> {
    if name == "message"@ {
        Some(RelayKind::Message)
    } else if name == "reaction_added"@ {
        Some(RelayKind::ReactionAdded)
    } else if name == "reaction_removed"@ {
        Some(RelayKind::ReactionRemoved)
    } else if name == "member_joined_channel"@ {
        Some(RelayKind::MemberJoined)
    } else {
        None
    }
}

/// A kind that is handed on under its name is taken in as that kind.
pub proof fn law_kinds_are_named(k: RelayKind)
    ensures
        kind_named(k.label()) == Some(k),
{
    reveal_strlit("message");
    reveal_strlit("reaction_added");
    reveal_strlit("reaction_removed");
    reveal_strlit("member_joined_channel");
    assert("message"@.len() == 7);
    assert("reaction_added"@.len() == 14);
    assert("reaction_removed"@.len() == 16);
    assert("member_joined_channel"@.len() == 21);
}

/// What became of an event that another machine handed on.
#[derive(Debug)]
pub enum Relayed {
    /// It is delivered.
    Deliver(InboundMsg),
    /// It is dropped, as it would be had it come here first.
    Drop,
    /// It is of a kind that is not handled. The line is for the log.
    Unhandled(String),
    /// It could not be read. The line is for the log of faults.
    Unread(String),
}

/// What becomes of an event that came under a handled name, given what was read.
pub open spec fn is_taken(r: Relayed, name: Seq<char>, read: Result<EventView, Seq<char>>) -> bool {
    match read {
        Ok(event) => match r {
            Relayed::Deliver(m) => delivers(event, m) && !is_dropped(event),
            Relayed::Drop => is_dropped(event),
            _ => false,
        },
        Err(e) => r matches Relayed::Unread(line) && line@ == "could not read a \""@ + name
            + "\" the relay forwarded: "@ + e,
    }
}

/// An event that was read, or why it could not be, by what it holds.
pub open spec fn read_view(read: Result<SlackEvent, String>) -> Result<EventView, Seq<char>> {
    match read {
        Ok(event) => Ok(event@),
        Err(e) => Err(e@),
    }
}

/// Takes in an event that came under a handled name: `read` is the event, or why it could not be read.
/// What comes of it is the same as had it come here first.
pub fn take_relayed(name: &str, read: &Result<SlackEvent, String>) -> (r: Relayed)
    ensures
        is_taken(r, name@, read_view(*read)),
{
    match read {
        Ok(event) => match inbound_of(event) {
            Some(m) => Relayed::Deliver(m),
            None => Relayed::Drop,
        },
        Err(e) => Relayed::Unread(
            text::cat4("could not read a \"", name, "\" the relay forwarded: ", e.as_str()),
        ),
    }
}

/// Takes in an event that another machine handed on as JSON. Its name says what it is read as; what
/// comes of it is the same as had it come here first.
pub fn inbound_from_relay(name: &str, event_json: &str) -> (r: Relayed)
    ensures
        match kind_named(name@) {
            Some(k) => is_taken(r, name@, wire::read_as(k, event_json@)),
            None => r matches Relayed::Unhandled(line) && line@ == "relay sent a \""@ + name@
                + "\" we do not handle"@,
        },
{
    match RelayKind::of(name) {
        None => Relayed::Unhandled(text::cat3("relay sent a \"", name, "\" we do not handle")),
        Some(k) => {
            let read: Result<SlackEvent, String> = wire::read_event(k, event_json);
            take_relayed(name, &read)
        },
    }
}

// ── buttons ─────────────────────────────────────────────────────────────────

/// One pressed button of a permission prompt.
#[derive(Debug)]
pub struct PermClick {
    pub req_id: String,
    /// `allow`, `deny`, `allow-thread` or `allow-channel`.
    pub action: String,
    /// Who pressed it.
    pub by: String,
}

/// The id of a button: `perm:<action>:<request>`.
pub open spec fn button_id(action: Seq<char>, req_id: Seq<char>) -> Seq<char> {
    "perm:"@ + action + ":"@ + req_id
}

/// The action and the request that a button's id names.
pub open spec fn button_parts(id: Seq<char>) -> Option<(Seq<char>, Seq<char>)> {
    match text::split_first(id, ':') {
        Some((head, rest)) => if head == "perm"@ {
            text::split_first(rest, ':')
        } else {
            None
        },
        None => None,
    }
}

/// The id of a button.
pub fn action_id(action: &str, req_id: &str) -> (out: String)
    ensures
        out@ == button_id(action@, req_id@),
{
    let mut out: String = "perm:".to_owned();
    out.append(action);
    out.append(":");
    out.append(req_id);
    out
}

/// Reads a button's id. `None` for a button that is not a permission prompt's.
pub fn read_action_id(id: &str, by: &str) -> (r: Option<PermClick>)
    ensures
        match r {
            Some(c) => button_parts(id@) == Some((c.action@, c.req_id@)) && c.by@ == by@,
            None => button_parts(id@) is None,
        },
{
    match text::cut_first(id, ':') {
        Some((head, rest)) => {
            if !text::same(head.as_str(), "perm") {
                return None;
            }
            match text::cut_first(rest.as_str(), ':') {
                Some((action, req_id)) => Some(PermClick { req_id, action, by: by.to_owned() }),
                None => None,
            }
        },
        None => None,
    }
}

/// The presses among some buttons' ids.
pub open spec fn presses(ids: Seq<Seq<char>>) -> Seq<(Seq<char>, Seq<char>)>
    decreases ids.len(),
{
    if ids.len() == 0 {
        Seq::empty()
    } else {
        match button_parts(ids.last()) {
            Some(p) => presses(ids.drop_last()).push(p),
            None => presses(ids.drop_last()),
        }
    }
}

/// Presses as values: what was pressed and for which request.
pub open spec fn click_views(clicks: Seq<PermClick>) -> Seq<(Seq<char>, Seq<char>)> {
    clicks.map_values(|c: PermClick| (c.action@, c.req_id@))
}

/// The presses of permission prompts' buttons among those that were pressed at once. Other buttons
/// are passed over.
pub fn clicks_of(ids: &[String], by: &str) -> (out: Vec<PermClick>)
    ensures
        click_views(out@) == presses(text::views(ids@)),
        forall|i: int| 0 <= i < out@.len() ==> (#[trigger] out@[i]).by@ == by@,
{
    let ghost all = text::views(ids@);
    let mut out: Vec<PermClick> = Vec::new();
    let mut i: usize = 0;
    proof {
        assert(all.take(0) =~= Seq::<Seq<char>>::empty());
        assert(click_views(out@) =~= presses(all.take(0)));
    }
    while i < ids.len()
        invariant
            i <= ids@.len(),
            all == text::views(ids@),
            click_views(out@) =~= presses(all.take(i as int)),
            forall|k: int| 0 <= k < out@.len() ==> (#[trigger] out@[k]).by@ == by@,
        decreases ids@.len() - i,
    {
        proof {
            assert(all.take(i + 1).drop_last() =~= all.take(i as int));
            assert(all.take(i + 1).last() == ids@[i as int]@);
        }
        match read_action_id(ids[i].as_str(), by) {
            Some(c) => {
                out.push(c);
            },
            None => {},
        }
        i = i + 1;
    }
    proof {
        assert(all.take(all.len() as int) =~= all);
    }
    out
}

/// A button press that was handed on as JSON.
pub fn perm_click_from_relay(action_json: &str, body_json: &str) -> (r: Option<PermClick>)
    ensures
        match json::json_text(action_json@, "/action_id"@) {
            None => r is None,
            Some(id) => match r {
                Some(c) => button_parts(id) == Some((c.action@, c.req_id@)) && c.by@ == (
                match json::json_text(body_json@, "/user/id"@) {
                    Some(u) => u,
                    None => Seq::empty(),
                }),
                None => button_parts(id) is None,
            },
        },
{
    let id: String = match json::text_at(action_json, "/action_id") {
        Some(id) => id,
        None => return None,
    };
    let by: String = match json::text_at(body_json, "/user/id") {
        Some(u) => u,
        None => String::new(),
    };
    read_action_id(id.as_str(), by.as_str())
}

/// A button's id tells the action and the request it was made of, as actions hold no `:`.
pub proof fn law_button_round_trip(action: Seq<char>, req_id: Seq<char>)
    requires
        !action.contains(':'),
    ensures
        button_parts(button_id(action, req_id)) == Some((action, req_id)),
{
    reveal_strlit("perm:");
    reveal_strlit("perm");
    reveal_strlit(":");
    let id = button_id(action, req_id);
    text::lemma_index_of(id, ':');
    assert(id[4] == ':');
    assert(id[0] == 'p' && id[1] == 'e' && id[2] == 'r' && id[3] == 'm');
    let i = text::index_of(id, ':');
    assert(i == 4) by {
        if i < 4 {
            assert(id[i] == ':');
        }
    }
    assert(id.take(4) =~= "perm"@);
    let rest = id.skip(5);
    assert(rest =~= action + ":"@ + req_id);
    text::lemma_index_of(rest, ':');
    let j = text::index_of(rest, ':');
    let n = action.len() as int;
    assert(rest[n] == ':');
    if j < n {
        assert(rest[j] == action[j]);
        assert(action.contains(action[j]));
    }
    assert(rest.take(n) =~= action);
    assert(rest.skip(n + 1) =~= req_id);
}

/// How many characters of a tool's input a permission prompt shows.
pub const PROMPT_CHARS: usize = 600;

/// What a permission prompt asks: which tool, and the beginning of its input.
pub open spec fn prompt_body(tool_name: Seq<char>, input_json: Seq<char>) -> Seq<char> {
    ":lock: *Permission requested* — `"@ + tool_name + "`\n```"@ + (if input_json.len()
        > PROMPT_CHARS {
        input_json.take(PROMPT_CHARS as int)
    } else {
        input_json
    }) + "```"@
}

/// What a permission prompt asks.
pub fn perm_prompt_body(tool_name: &str, input_json: &str) -> (out: String)
    ensures
        out@ == prompt_body(tool_name@, input_json@),
{
    let mut out: String = ":lock: *Permission requested* — `".to_owned();
    out.append(tool_name);
    out.append("`\n```");
    let preview: String = text::clip_chars(input_json, PROMPT_CHARS, "");
    proof {
        reveal_strlit("");
        assert(input_json@.len() > PROMPT_CHARS ==> preview@ =~= input_json@.take(
            PROMPT_CHARS as int,
        ));
    }
    out.append(preview.as_str());
    out.append("```");
    out
}

/// The label of the button that grants a tool for good: in a direct message the channel is the
/// person.
pub fn channel_grant_label(channel: &str) -> (s: &'static str)
    ensures
        s@ == grant_label(channel@),
{
    let cs: Vec<char> = text::chars_of(channel);
    if cs.len() > 0 && cs[0] == 'D' {
        "Allow for User"
    } else {
        "Allow for Channel"
    }
}

/// How a button of a permission prompt looks.
#[derive(Clone, Copy, Debug, PartialEq, Eq, Structural)]
pub enum ButtonStyle {
    Plain,
    Primary,
    Danger,
}

/// A button of a permission prompt.
#[derive(Debug)]
pub struct PermButton {
    pub label: String,
    pub action_id: String,
    pub style: ButtonStyle,
}

/// A button as a value: its label, its id and how it looks.
pub open spec fn button_views(buttons: Seq<PermButton>) -> Seq<(Seq<char>, Seq<char>, ButtonStyle)> {
    buttons.map_values(|b: PermButton| (b.label@, b.action_id@, b.style))
}

/// The label of the button that grants a tool for good.
pub open spec fn grant_label(channel: Seq<char>) -> Seq<char> {
    if channel.len() > 0 && channel[0] == 'D' {
        "Allow for User"@
    } else {
        "Allow for Channel"@
    }
}

fn button(label: &str, action: &str, req_id: &str, style: ButtonStyle) -> (b: PermButton)
    ensures
        b.label@ == label@,
        b.action_id@ == button_id(action@, req_id@),
        b.style == style,
{
    PermButton { label: label.to_owned(), action_id: action_id(action, req_id), style }
}

/// The buttons of a permission prompt.
pub fn perm_buttons(channel: &str, req_id: &str) -> (out: Vec<PermButton>)
    ensures
        button_views(out@) == seq![
            ("Allow"@, button_id("allow"@, req_id@), ButtonStyle::Primary),
            ("Allow for thread"@, button_id("allow-thread"@, req_id@), ButtonStyle::Plain),
            (grant_label(channel@), button_id("allow-channel"@, req_id@), ButtonStyle::Plain),
            ("Deny"@, button_id("deny"@, req_id@), ButtonStyle::Danger),
        ],
{
    let mut out: Vec<PermButton> = Vec::new();
    out.push(button("Allow", "allow", req_id, ButtonStyle::Primary));
    out.push(button("Allow for thread", "allow-thread", req_id, ButtonStyle::Plain));
    out.push(button(channel_grant_label(channel), "allow-channel", req_id, ButtonStyle::Plain));
    out.push(button("Deny", "deny", req_id, ButtonStyle::Danger));
    proof {
        assert(button_views(out@) =~= seq![
            ("Allow"@, button_id("allow"@, req_id@), ButtonStyle::Primary),
            ("Allow for thread"@, button_id("allow-thread"@, req_id@), ButtonStyle::Plain),
            (grant_label(channel@), button_id("allow-channel"@, req_id@), ButtonStyle::Plain),
            ("Deny"@, button_id("deny"@, req_id@), ButtonStyle::Danger),
        ]);
    }
    out
}

/// What a permission prompt is called where it is not shown as a whole.
pub fn perm_prompt_title(tool_name: &str) -> (out: String)
    ensures
        out@ == "Permission: "@ + tool_name@,
{
    text::cat("Permission: ", tool_name)
}

/// Whether an error says that a thread's root does not exist. Any other error says nothing of it.
pub fn error_says_gone(error: &str) -> (r: bool)
    ensures
        r == (text::has(error@, "thread_not_found"@) || text::has(error@, "message_not_found"@)),
{
    text::contains(error, "thread_not_found") || text::contains(error, "message_not_found")
}

/// Whether a thread's root is gone, by what came of asking for one of its messages: how many there
/// were, or an error. The line is for the log where an error does not tell.
pub fn thread_root_gone(channel: &str, thread_ts: &str, found: &Result<usize, String>) -> (r: (
    bool,
    Option<String>,
))
    ensures
        match found {
            Ok(n) => r.0 == (*n == 0) && r.1 is None,
            Err(e) => {
                let gone = text::has(e@, "thread_not_found"@) || text::has(
                    e@,
                    "message_not_found"@,
                );
                &&& r.0 == gone
                &&& r.1 is None <==> gone
                &&& !gone ==> r.1->0@ == "thread-root probe "@ + channel@ + ":"@ + thread_ts@
                    + " inconclusive: "@ + e@
            },
        },
{
    match found {
        Ok(n) => (*n == 0, None),
        Err(e) => {
            if error_says_gone(e.as_str()) {
                (true, None)
            } else {
                let mut line: String = text::cat4("thread-root probe ", channel, ":", thread_ts);
                line.append(" inconclusive: ");
                line.append(e.as_str());
                (false, Some(line))
            }
        },
    }
}

/// What a thread's status line did: set to a text, or cleared by an empty one.
pub fn thinking_note(status: &str) -> (out: String)
    ensures
        out@ == if status@.len() == 0 {
            "cleared"@
        } else {
            "set \""@ + status@ + "\""@
        },
{
    if status.is_empty() {
        "cleared".to_owned()
    } else {
        let mut out: String = "set \"".to_owned();
        out.append(status);
        out.append("\"");
        out
    }
}

/// One change of a message's reactions.
#[derive(Clone, Copy, Debug, PartialEq, Eq, Structural)]
pub enum ReactionChange {
    /// Take the acknowledgement off.
    RemoveAck,
    /// Take the retry mark off.
    RemoveRetry,
    /// Put the robot on.
    AddRobot,
}

/// What marks a message as received: the acknowledgement and the retry mark go, the robot comes.
/// Every change is tried, whatever became of the others.
pub fn received_changes() -> (out: Vec<ReactionChange>)
    ensures
        out@ == seq![
            ReactionChange::RemoveAck,
            ReactionChange::RemoveRetry,
            ReactionChange::AddRobot,
        ],
{
    let out: Vec<ReactionChange> = vec![
        ReactionChange::RemoveAck,
        ReactionChange::RemoveRetry,
        ReactionChange::AddRobot,
    ];
    proof {
        assert(out@ =~= seq![
            ReactionChange::RemoveAck,
            ReactionChange::RemoveRetry,
            ReactionChange::AddRobot,
        ]);
    }
    out
}

impl ReactionChange {
    /// The name of the reaction that is put on or taken off.
    pub fn emoji<'a>(self, ack: &'a str) -> (s: &'a str)
        ensures
            s@ == match self {
                ReactionChange::RemoveAck => ack@,
                ReactionChange::RemoveRetry => "arrows_counterclockwise"@,
                ReactionChange::AddRobot => "robot_face"@,
            },
    {
        match self {
            ReactionChange::RemoveAck => ack,
            ReactionChange::RemoveRetry => "arrows_counterclockwise",
            ReactionChange::AddRobot => "robot_face",
        }
    }
}

// ── what Slack answers ──────────────────────────────────────────────────────

/// A text where it is not empty.
pub open spec fn filled(s: Option<Seq<char>>) -> Option<Seq<char>> {
    match s {
        Some(t) => if t.len() > 0 {
            Some(t)
        } else {
            None
        },
        None => None,
    }
}

fn full_text_at(doc: &str, pointer: &str) -> (r: Option<String>)
    ensures
        text::opt_view(r) == filled(json::json_text(doc@, pointer@)),
{
    match json::text_at(doc, pointer) {
        Some(t) => if t.as_str().is_empty() {
            None
        } else {
            Some(t)
        },
        None => None,
    }
}

/// Where the name of a channel is looked up.
#[derive(Debug)]
pub enum ChannelName {
    /// It has one.
    Named(String),
    /// A direct message: it goes by the person's name.
    Person(String),
    Unknown,
}

/// What a channel's information says of its name. `info` is the JSON that Slack answers.
pub fn channel_name_of(info: &str) -> (r: ChannelName)
    ensures
        if json::json_bool(info@, "/channel/is_im"@) == Some(true) {
            match filled(json::json_text(info@, "/channel/user"@)) {
                Some(u) => r matches ChannelName::Person(p) && p@ == u,
                None => r is Unknown,
            }
        } else {
            match filled(json::json_text(info@, "/channel/name"@)) {
                Some(n) => r matches ChannelName::Named(s) && s@ == "#"@ + n,
                None => r is Unknown,
            }
        },
{
    let direct: bool = match json::bool_at(info, "/channel/is_im") {
        Some(b) => b,
        None => false,
    };
    if direct {
        match full_text_at(info, "/channel/user") {
            Some(u) => ChannelName::Person(u),
            None => ChannelName::Unknown,
        }
    } else {
        match full_text_at(info, "/channel/name") {
            Some(n) => ChannelName::Named(text::cat("#", n.as_str())),
            None => ChannelName::Unknown,
        }
    }
}

/// The name a person goes by: the first that is filled of the display name, the real name and the
/// account's name.
pub open spec fn person_name(
    display: Option<Seq<char>>,
    full: Option<Seq<char>>,
    account: Option<Seq<char>>,
) -> Option<Seq<char>> {
    let n = if filled(display) is Some {
        filled(display)
    } else if filled(full) is Some {
        filled(full)
    } else {
        filled(account)
    };
    match n {
        Some(t) => Some("@"@ + t),
        None => None,
    }
}

/// What a person's information says of their name.
pub fn user_name_of(info: &str) -> (r: Option<String>)
    ensures
        text::opt_view(r) == person_name(
            json::json_text(info@, "/user/profile/display_name"@),
            json::json_text(info@, "/user/real_name"@),
            json::json_text(info@, "/user/name"@),
        ),
{
    let name: Option<String> = match full_text_at(info, "/user/profile/display_name") {
        Some(n) => Some(n),
        None => match full_text_at(info, "/user/real_name") {
            Some(n) => Some(n),
            None => full_text_at(info, "/user/name"),
        },
    };
    match name {
        Some(n) => Some(text::cat("@", n.as_str())),
        None => None,
    }
}

/// What a mention resolves to.
#[derive(Debug)]
pub enum BotId {
    /// A person.
    Human,
    /// A bot, under the id that it is allowed by.
    Bot(String),
    /// A bot whose id is not told.
    Hidden,
    /// Nobody.
    NoUser,
}

/// What a person's information says of the bot behind it.
pub fn bot_id_of(info: &str) -> (r: BotId)
    ensures
        if !json::json_has(info@, "/user"@) {
            r is NoUser
        } else if json::json_bool(info@, "/user/is_bot"@) == Some(true) {
            match json::json_text(info@, "/user/profile/bot_id"@) {
                Some(b) => r matches BotId::Bot(s) && s@ == b,
                None => r is Hidden,
            }
        } else {
            r is Human
        },
{
    if !json::has_at(info, "/user") {
        return BotId::NoUser;
    }
    let bot: bool = match json::bool_at(info, "/user/is_bot") {
        Some(b) => b,
        None => false,
    };
    if bot {
        match json::text_at(info, "/user/profile/bot_id") {
            Some(b) => BotId::Bot(b),
            None => BotId::Hidden,
        }
    } else {
        BotId::Human
    }
}

/// Where an attachment is fetched from, what it is called and how large it is.
#[derive(Debug)]
pub struct FileInfo {
    pub url: String,
    pub name: String,
    pub size: u64,
}

/// What a file's information says. The error says what is missing.
pub fn file_info_of(info: &str, file_id: &str) -> (r: Result<FileInfo, String>)
    ensures
        if !json::json_has(info@, "/file"@) {
            r matches Err(e) && e@ == "files.info returned no file for "@ + file_id@
        } else {
            match json::json_text(info@, "/file/url_private"@) {
                None => r matches Err(e) && e@ == "file has no url_private"@,
                Some(u) => r matches Ok(f) && f.url@ == u && f.name@ == (match json::json_text(
                    info@,
                    "/file/name"@,
                ) {
                    Some(n) => n,
                    None => file_id@,
                }) && f.size == (match json::json_number(info@, "/file/size"@) {
                    Some(n) => n,
                    None => 0,
                }),
            }
        },
{
    if !json::has_at(info, "/file") {
        return Err(text::cat("files.info returned no file for ", file_id));
    }
    match json::text_at(info, "/file/url_private") {
        None => Err("file has no url_private".to_owned()),
        Some(url) => {
            let name: String = match json::text_at(info, "/file/name") {
                Some(n) => n,
                None => file_id.to_owned(),
            };
            let size: u64 = match json::number_at(info, "/file/size") {
                Some(n) => n,
                None => 0,
            };
            Ok(FileInfo { url, name, size })
        },
    }
}

/// Where a part of the `n`th channel stands.
pub open spec fn channel_pointer(n: int, part: Seq<char>) -> Seq<char> {
    "/channels/"@ + text::decimal(n) + part
}

/// The ids and names of the first `n` channels; one without an id is passed over.
pub open spec fn channel_list(page: Seq<char>, n: nat) -> Seq<(Seq<char>, Seq<char>)>
    decreases n,
{
    if n == 0 {
        Seq::empty()
    } else {
        let before = channel_list(page, (n - 1) as nat);
        match json::json_text(page, channel_pointer(n - 1, "/id"@)) {
            Some(id) => before.push(
                (
                    id,
                    match json::json_text(page, channel_pointer(n - 1, "/name"@)) {
                        Some(s) => s,
                        None => Seq::empty(),
                    },
                ),
            ),
            None => before,
        }
    }
}

fn channel_part(page: &str, n: usize, part: &str) -> (r: Option<String>)
    ensures
        text::opt_view(r) == json::json_text(page@, channel_pointer(n as int, part@)),
{
    let mut pointer: String = "/channels/".to_owned();
    let k: String = text::number(n as u64);
    pointer.append(k.as_str());
    pointer.append(part);
    json::text_at(page, pointer.as_str())
}

/// The channels that one page of Slack's answer lists, as ids and names.
pub fn channels_of(page: &str) -> (out: Vec<(String, String)>)
    ensures
        out@.map_values(|c: (String, String)| (c.0@, c.1@)) == channel_list(
            page@,
            json::item_count(page@, "/channels"@),
        ),
{
    let n: usize = json::count_at(page, "/channels");
    let mut out: Vec<(String, String)> = Vec::new();
    let mut i: usize = 0;
    proof {
        assert(out@.map_values(|c: (String, String)| (c.0@, c.1@)) =~= Seq::empty());
    }
    while i < n
        invariant
            i <= n,
            out@.map_values(|c: (String, String)| (c.0@, c.1@)) == channel_list(page@, i as nat),
        decreases n - i,
    {
        match channel_part(page, i, "/id") {
            Some(id) => {
                let name: String = match channel_part(page, i, "/name") {
                    Some(s) => s,
                    None => String::new(),
                };
                let ghost before = out@;
                let ghost pair = (id@, name@);
                out.push((id, name));
                proof {
                    assert(out@.map_values(|c: (String, String)| (c.0@, c.1@))
                        =~= before.map_values(|c: (String, String)| (c.0@, c.1@)).push(pair));
                }
            },
            None => {},
        }
        i = i + 1;
    }
    out
}

/// A post is delivered as it stands: one that a person or a bot wrote, and one that a thread's writer
/// also sent to the channel. A post with files is delivered whatever the platform calls it.
pub proof fn law_posts_are_delivered(ev: MessageView, m: InboundMsg)
    requires
        ev.deleted_ts is None,
        ev.subtype != Some("MessageChanged"@),
        ev.content is Some,
        ev.origin.channel is Some,
        ev.content->0.files.len() > 0 || (ev.content->0.text is Some && (ev.subtype is None
            || ev.subtype == Some("BotMessage"@) || ev.subtype == Some("ThreadBroadcast"@))),
    ensures
        !is_dropped(EventView::Message(ev)),
        delivers(EventView::Message(ev), m) ==> {
            &&& Some(m.channel@) == ev.origin.channel
            &&& m.ts@ == ev.origin.ts
            &&& text::opt_view(m.thread_ts) == ev.origin.thread_ts
            &&& text::opt_view(m.user) == ev.sender.user
            &&& text::opt_view(m.bot_id) == ev.sender.bot_id
            &&& m.is_bot <==> ev.sender.bot_id is Some || ev.sender.user is None
            &&& ev.content->0.text is Some ==> Some(m.text@) == ev.content->0.text
            &&& ev.content->0.text is None ==> m.text@.len() == 0
            &&& m.files@.len() == ev.content->0.files.len()
            &&& forall|i: int|
                0 <= i < m.files@.len() ==> (#[trigger] m.files@[i]).id@
                    == ev.content->0.files[i].id && (ev.content->0.files[i].name is Some ==> Some(
                    m.files@[i].name@,
                ) == ev.content->0.files[i].name) && (ev.content->0.files[i].name is None
                    ==> m.files@[i].name@ == ev.content->0.files[i].id)
            &&& m.channel_kind == ChannelKind::Dm <==> ev.origin.channel_type == Some("im"@)
            &&& m.file_paths@.len() == 0 && m.file_errors@.len() == 0
            &&& m.reaction is None && m.deleted_ts is None && m.edited is None
        },
{
}

/// What the platform itself says in a channel is no post, and neither is one with nothing in it.
pub proof fn law_notices_are_dropped(ev: MessageView)
    requires
        ev.deleted_ts is None,
        ev.subtype != Some("MessageChanged"@),
        ev.content is None || ev.origin.channel is None || (ev.content->0.files.len() == 0 && (
        ev.content->0.text is None || (ev.subtype is Some && ev.subtype != Some("BotMessage"@)
            && ev.subtype != Some("ThreadBroadcast"@)))),
    ensures
        is_dropped(EventView::Message(ev)),
        forall|m: InboundMsg| !delivers(EventView::Message(ev), m),
{
}

/// What becomes of an event is one of two: it is delivered, or it is dropped.
pub proof fn law_dropped_is_not_delivered(event: EventView, m: InboundMsg)
    ensures
        delivers(event, m) ==> !is_dropped(event),
{
}

/// What a person takes back is told to its thread: where it was, whose it was, what it said. It is told
/// also where the platform does not say whose it was; what a bot takes back is not.
pub proof fn law_deletions_are_told(ev: MessageView, m: InboundMsg)
    requires
        ev.deleted_ts is Some,
    ensures
        is_dropped(EventView::Message(ev)) <==> ev.origin.channel is None || (
        ev.previous_message is Some && (ev.previous_message->0.sender.bot_id is Some
            || ev.previous_message->0.sender.user is None)),
        delivers(EventView::Message(ev), m) ==> {
            &&& Some(m.channel@) == ev.origin.channel
            &&& Some(m.ts@) == ev.deleted_ts
            &&& text::opt_view(m.deleted_ts) == ev.deleted_ts
            &&& ev.origin.thread_ts is Some ==> text::opt_view(m.thread_ts) == ev.origin.thread_ts
            &&& ev.origin.thread_ts is None ==> text::opt_view(m.thread_ts) == ev.deleted_ts
            &&& ev.previous_message is Some ==> text::opt_view(m.user)
                == ev.previous_message->0.sender.user
            &&& ev.previous_message is None ==> m.user is None
            &&& !m.is_bot && m.bot_id is None
            &&& m.files@.len() == 0
            &&& m.edited is None && m.reaction is None
            &&& m.channel_kind == ChannelKind::Dm <==> ev.origin.channel_type == Some("im"@)
        },
{
}

/// What was taken back is told in words: of text, the text; of files, that there were some.
pub proof fn law_deletions_tell_what_was_said(ev: MessageView, m: InboundMsg)
    requires
        ev.deleted_ts is Some,
        delivers(EventView::Message(ev), m),
        ev.previous_message is Some,
        ev.previous_message->0.content is Some,
        ev.previous_message->0.content->0.text is Some,
    ensures
        m.text@ == chat::deletion_told(
            ev.deleted_ts->0,
            ev.previous_message->0.content->0.text->0,
            ev.previous_message->0.content->0.files.len() > 0,
        ),
{
}

/// An edit is told where a person changed the words; the new words are told, and which post they are
/// of. An edit that leaves the words as they were is dropped, and so is one by a bot.
pub proof fn law_edits_are_told(ev: MessageView, m: InboundMsg)
    requires
        ev.deleted_ts is None,
        ev.subtype == Some("MessageChanged"@),
        ev.message is Some,
        ev.message->0.content is Some,
        ev.message->0.content->0.text is Some,
        ev.previous_message is Some,
        ev.previous_message->0.content is Some,
        ev.previous_message->0.content->0.text is Some,
    ensures
        is_dropped(EventView::Message(ev)) <==> ev.origin.channel is None
            || ev.message->0.sender.bot_id is Some || ev.message->0.sender.user is None || (
        ev.message->0.content->0.text == ev.previous_message->0.content->0.text),
        delivers(EventView::Message(ev), m) ==> {
            &&& Some(m.channel@) == ev.origin.channel
            &&& m.ts@ == ev.message->0.ts
            &&& text::opt_view(m.thread_ts) == ev.origin.thread_ts
            &&& text::opt_view(m.user) == ev.message->0.sender.user
            &&& Some(m.text@) == ev.message->0.content->0.text
            &&& m.files@.len() == ev.message->0.content->0.files.len()
            &&& !m.is_bot && m.bot_id is None && m.deleted_ts is None && m.reaction is None
            &&& m.edited is Some && m.edited->0.ts@ == ev.message->0.ts
            &&& ev.message->0.edited_ts is Some ==> Some(m.edited->0.revision@)
                == ev.message->0.edited_ts
            &&& m.channel_kind == ChannelKind::Dm <==> ev.origin.channel_type == Some("im"@)
        },
{
}

/// A reaction to a post is told with whose it is, which it is, and on which post; one that is taken
/// back is told as that.
pub proof fn law_reactions_are_told(ev: ReactionView, m: InboundMsg)
    ensures
        is_dropped(EventView::ReactionAdded(ev)) <==> ev.item is None
            || ev.item->0.origin.channel is None,
        is_dropped(EventView::ReactionRemoved(ev)) <==> ev.item is None
            || ev.item->0.origin.channel is None,
        delivers(EventView::ReactionAdded(ev), m) ==> m.reaction is Some && m.reaction->0.added,
        delivers(EventView::ReactionRemoved(ev), m) ==> m.reaction is Some && !m.reaction->0.added,
        delivers(EventView::ReactionAdded(ev), m) || delivers(EventView::ReactionRemoved(ev), m)
            ==> {
            &&& m.reaction->0.emoji@ == ev.reaction
            &&& m.reaction->0.item_ts@ == ev.item->0.origin.ts
            &&& Some(m.channel@) == ev.item->0.origin.channel
            &&& m.ts@ == ev.item->0.origin.ts
            &&& text::opt_view(m.thread_ts) == ev.item->0.origin.thread_ts
            &&& text::opt_view(m.user) == Some(ev.user)
            &&& !m.is_bot && m.bot_id is None && m.files@.len() == 0
            &&& m.deleted_ts is None && m.edited is None
            &&& ev.item->0.text is Some ==> m.text@ == m.reaction->0.told(
                ev.user,
                ev.item->0.text->0,
            )
            &&& m.channel_kind == ChannelKind::Dm <==> ev.item->0.origin.channel_type == Some("im"@)
        },
{
}

/// A button's id is read back only where it is a button of a permission: what it names, put together
/// again, is the id.
pub proof fn law_only_buttons_are_read(id: Seq<char>)
    ensures
        match button_parts(id) {
            Some((action, req_id)) => id == "perm:"@ + action + ":"@ + req_id && !action.contains(
                ':',
            ),
            None => forall|action: Seq<char>, req_id: Seq<char>|
                !action.contains(':') ==> id != #[trigger] ("perm:"@ + action + ":"@ + req_id),
        },
{
    text::law_split_first(id, ':');
    reveal_strlit("perm:");
    reveal_strlit("perm");
    reveal_strlit(":");
    assert("perm:"@ =~= "perm"@ + ":"@);
    assert(":"@ =~= seq![':']);
    match button_parts(id) {
        Some((action, req_id)) => {
            let (head, rest) = text::split_first(id, ':')->0;
            text::law_split_first(rest, ':');
            assert("perm"@ + seq![':'] + (action + seq![':'] + req_id) =~= "perm:"@ + action + ":"@
                + req_id);
        },
        None => {
            assert forall|action: Seq<char>, req_id: Seq<char>| !action.contains(':') implies id
                != #[trigger] ("perm:"@ + action + ":"@ + req_id) by {
                law_button_round_trip(action, req_id);
            }
        },
    }
}

/// Every button of a permission that is pressed counts once, in order; what is no such button does
/// not.
pub proof fn law_presses_add_up(a: Seq<Seq<char>>, b: Seq<Seq<char>>)
    ensures
        presses(a + b) == presses(a) + presses(b),
        forall|id: Seq<char>|
            #![trigger button_parts(id)]
            presses(seq![id]) == (match button_parts(id) {
                Some(p) => seq![p],
                None => Seq::empty(),
            }),
    decreases b.len(),
{
    if b.len() > 0 {
        law_presses_add_up(a, b.drop_last());
        assert((a + b).drop_last() =~= a + b.drop_last());
        assert(presses(a + b) =~= presses(a) + presses(b));
    } else {
        assert(a + b =~= a);
        assert(presses(a) + presses(b) =~= presses(a));
    }
    assert forall|id: Seq<char>| #![trigger button_parts(id)] presses(seq![id]) == (
    match button_parts(id) {
        Some(p) => seq![p],
        None => Seq::empty(),
    }) by {
        assert(seq![id].drop_last() =~= Seq::<Seq<char>>::empty());
        assert(presses(seq![id].drop_last()) =~= Seq::empty());
        if let Some(p) = button_parts(id) {
            assert(presses(seq![id]) =~= seq![p]);
        }
    }
}

/// A permission's prompt names the tool and shows what it is called with, up to the limit.
pub proof fn law_prompt_shows_the_call(tool_name: Seq<char>, input_json: Seq<char>)
    ensures
        text::has(prompt_body(tool_name, input_json), tool_name),
        text::has(
            prompt_body(tool_name, input_json),
            if input_json.len() <= 600 {
                input_json
            } else {
                input_json.take(600)
            },
        ),
{
    let body = prompt_body(tool_name, input_json);
    let shown = if input_json.len() <= 600 {
        input_json
    } else {
        input_json.take(600)
    };
    let head = ":lock: *Permission requested* — `"@;
    let at = head + tool_name + "`\n```"@;
    assert(body.subrange(head.len() as int, (head.len() + tool_name.len()) as int) =~= tool_name);
    assert(text::stands_at(body, tool_name, head.len() as int));
    assert(body.subrange(at.len() as int, (at.len() + shown.len()) as int) =~= shown);
    assert(text::stands_at(body, shown, at.len() as int));
}

/// A grant for a direct conversation is one for its user: such a channel's id begins with a D.
pub proof fn law_grants_are_labelled(channel: Seq<char>)
    ensures
        "D"@.is_prefix_of(channel) ==> grant_label(channel) == "Allow for User"@,
        !"D"@.is_prefix_of(channel) ==> grant_label(channel) == "Allow for Channel"@,
{
    reveal_strlit("D");
    assert("D"@.len() == 1 && "D"@[0] == 'D');
    if channel.len() > 0 {
        assert(channel.take(1)[0] == channel[0]);
        assert("D"@ =~= seq!['D']);
        if channel[0] == 'D' {
            assert(channel.subrange(0, 1) =~= "D"@);
        }
    }
}

/// A person is called by the first of three names that is not empty: the one they show, their full one,
/// that of their account.
pub proof fn law_people_are_named(
    display: Option<Seq<char>>,
    full: Option<Seq<char>>,
    account: Option<Seq<char>>,
)
    ensures
        display is Some && display->0.len() > 0 ==> person_name(display, full, account) == Some(
            "@"@ + display->0,
        ),
        (display is None || display->0.len() == 0) && full is Some && full->0.len() > 0
            ==> person_name(display, full, account) == Some("@"@ + full->0),
        (display is None || display->0.len() == 0) && (full is None || full->0.len() == 0)
            && account is Some && account->0.len() > 0 ==> person_name(display, full, account)
            == Some("@"@ + account->0),
        person_name(display, full, account) is None <==> (display is None || display->0.len() == 0)
            && (full is None || full->0.len() == 0) && (account is None || account->0.len() == 0),
{
}

/// Every channel of a page that has an id is listed, with its name.
pub proof fn law_channels_are_listed(page: Seq<char>, n: nat, i: int)
    requires
        0 <= i < n,
    ensures
        ({
            let id = json::json_text(page, "/channels/"@ + text::decimal(i) + "/id"@);
            let name = json::json_text(page, "/channels/"@ + text::decimal(i) + "/name"@);
            &&& id is Some && name is Some ==> channel_list(page, n).contains((id->0, name->0))
            &&& id is Some && name is None ==> channel_list(page, n).contains(
                (id->0, Seq::empty()),
            )
        }),
        channel_list(page, n).len() <= n,
    decreases n,
{
    let id = json::json_text(page, channel_pointer(i, "/id"@));
    let before = channel_list(page, (n - 1) as nat);
    let all = channel_list(page, n);
    if n > 1 {
        law_channels_are_listed(page, (n - 1) as nat, if i < n - 1 { i } else { 0 });
    }
    if id is Some {
        let x = (
            id->0,
            match json::json_text(page, channel_pointer(i, "/name"@)) {
                Some(s) => s,
                None => Seq::empty(),
            },
        );
        if i < n - 1 {
            let j = choose|j: int| 0 <= j < before.len() && before[j] == x;
            assert(all[j] == x);
        } else {
            assert(all.last() == x);
        }
    }
}

} // verus!
