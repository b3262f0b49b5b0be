//! Events as Slack writes them: JSON that is read into the library's own types.
use crate::chat::slack::events::{
    changed_view, content_view, previous_view, ChangedMessage, ChangedView, Content, ContentView,
    EventFile, EventView, MessageEvent, MessageView, Origin, OriginView, PreviousMessage,
    PreviousView, ReactionEvent, ReactionItem, ReactionView, RelayKind, Sender, SenderView,
    SlackEvent,
};
use crate::text;
use serde_json::{from_str, from_value};
use slack_morphism::events::{
    SlackMemberJoinedChannelEvent, SlackMessageEvent, SlackReactionAddedEvent,
    SlackReactionRemovedEvent,
};
use slack_morphism::SlackReactionsItem;
use vstd::prelude::*;

verus! {

// ── messages ────────────────────────────────────────────────────────────────

/// What stands at the front of a message event.
#[derive(Debug)]
pub struct MessageHead {
    pub origin: Origin,
    pub subtype: Option<String>,
    pub deleted_ts: Option<String>,
}

/// What a [`MessageHead`] holds.
pub struct HeadView {
    pub origin: OriginView,
    pub subtype: Option<Seq<char>>,
    pub deleted_ts: Option<Seq<char>>,
}

impl View for MessageHead {
    type V = HeadView;

    open spec fn view(&self) -> HeadView {
        HeadView {
            origin: self.origin@,
            subtype: text::opt_view(self.subtype),
            deleted_ts: text::opt_view(self.deleted_ts),
        }
    }
}

/// Where the message event that a JSON text holds stands and what kind it is; or why the text is no
/// message event.
pub uninterp spec fn message_head(json: Seq<char>) -> Result<HeadView, Seq<char>>;

/// `serde_json::from_value` into slack-morphism's `SlackMessageEvent`: its origin, subtype (by the name
/// that `Debug` writes) and deleted timestamp, or the error's text. They depend on the JSON alone.
#[verifier::external_body]
fn head_in(json: &str) -> (r: Result<MessageHead, String>)
    ensures
        message_head(json@) == match r {
            Ok(h) => Ok(h@),
            Err(e) => Err(e@),
        },
{
    let read = from_str(json).and_then(from_value::<SlackMessageEvent>);
    let read = read.map_err(|e| e.to_string())?;
    let o = read.origin;
    let channel = o.channel.map(|c| c.0);
    let channel_type = o.channel_type.map(|t| t.0);
    let thread_ts = o.thread_ts.map(|t| t.0);
    let origin = Origin { ts: o.ts.0, channel, channel_type, thread_ts };
    let subtype = read.subtype.map(|t| format!("{t:?}"));
    Ok(MessageHead { origin, subtype, deleted_ts: read.deleted_ts.map(|t| t.0) })
}

/// Who sent the message event that a JSON text holds, and what it says; or why the text is no message
/// event.
pub uninterp spec fn message_content(json: Seq<char>) -> Result<
    (SenderView, Option<ContentView>),
    Seq<char>,
>;

/// `serde_json::from_value` into slack-morphism's `SlackMessageEvent`: its sender and content, or the
/// error's text. They depend on the JSON alone.
#[verifier::external_body]
fn content_in(json: &str) -> (r: Result<(Sender, Option<Content>), String>)
    ensures
        message_content(json@) == match r {
            Ok((s, c)) => Ok((s@, content_view(c))),
            Err(e) => Err(e@),
        },
{
    let read = from_str(json).and_then(from_value::<SlackMessageEvent>);
    let read = read.map_err(|e| e.to_string())?;
    let s = read.sender;
    let sender = Sender { user: s.user.map(|u| u.0), bot_id: s.bot_id.map(|b| b.0) };
    let content = read.content.map(|c| {
        let files = c.files.into_iter().flatten().map(|f| EventFile { id: f.id.0, name: f.name });
        Content { text: c.text, files: files.collect() }
    });
    Ok((sender, content))
}

/// The message that the edit in a JSON text left; or why the text is no message event.
pub uninterp spec fn message_changed(json: Seq<char>) -> Result<Option<ChangedView>, Seq<char>>;

/// `serde_json::from_value` into slack-morphism's `SlackMessageEvent`: the message that an edit left,
/// or the error's text. They depend on the JSON alone.
#[verifier::external_body]
fn changed_in(json: &str) -> (r: Result<Option<ChangedMessage>, String>)
    ensures
        message_changed(json@) == match r {
            Ok(m) => Ok(changed_view(m)),
            Err(e) => Err(e@),
        },
{
    let read = from_str(json).and_then(from_value::<SlackMessageEvent>);
    let message = read.map_err(|e| e.to_string())?.message;
    Ok(message.map(|m| {
        let user = m.sender.user.map(|u| u.0);
        let bot_id = m.sender.bot_id.map(|b| b.0);
        let content = m.content.map(|c| {
            let files = c.files.into_iter().flatten().map(|f| EventFile { id: f.id.0, name: f.name });
            Content { text: c.text, files: files.collect() }
        });
        let edited_ts = m.edited.map(|e| e.ts.0);
        ChangedMessage { ts: m.ts.0, sender: Sender { user, bot_id }, content, edited_ts }
    }))
}

/// The message before the edit or the deletion in a JSON text; or why the text is no message event.
pub uninterp spec fn message_before(json: Seq<char>) -> Result<Option<PreviousView>, Seq<char>>;

/// `serde_json::from_value` into slack-morphism's `SlackMessageEvent`: the message before an edit or a
/// deletion, or the error's text. They depend on the JSON alone.
#[verifier::external_body]
fn before_in(json: &str) -> (r: Result<Option<PreviousMessage>, String>)
    ensures
        message_before(json@) == match r {
            Ok(m) => Ok(previous_view(m)),
            Err(e) => Err(e@),
        },
{
    let read = from_str(json).and_then(from_value::<SlackMessageEvent>);
    let message = read.map_err(|e| e.to_string())?.previous_message;
    Ok(message.map(|m| {
        let user = m.sender.user.map(|u| u.0);
        let bot_id = m.sender.bot_id.map(|b| b.0);
        let content = m.content.map(|c| {
            let files = c.files.into_iter().flatten().map(|f| EventFile { id: f.id.0, name: f.name });
            Content { text: c.text, files: files.collect() }
        });
        PreviousMessage { sender: Sender { user, bot_id }, content }
    }))
}

/// The message event that a JSON text holds; or why it holds none.
pub open spec fn message_read(json: Seq<char>) -> Result<MessageView, Seq<char>> {
    match message_head(json) {
        Err(e) => Err(e),
        Ok(head) => match message_content(json) {
            Err(e) => Err(e),
            Ok((sender, content)) => match message_changed(json) {
                Err(e) => Err(e),
                Ok(message) => match message_before(json) {
                    Err(e) => Err(e),
                    Ok(previous_message) => Ok(
                        MessageView {
                            origin: head.origin,
                            sender,
                            content,
                            subtype: head.subtype,
                            deleted_ts: head.deleted_ts,
                            message,
                            previous_message,
                        },
                    ),
                },
            },
        },
    }
}

/// Reads a message event.
pub fn read_message(json: &str) -> (r: Result<MessageEvent, String>)
    ensures
        message_read(json@) == match r {
            Ok(ev) => Ok(ev@),
            Err(e) => Err(e@),
        },
{
    let head: MessageHead = match head_in(json) {
        Ok(h) => h,
        Err(e) => return Err(e),
    };
    let (sender, content): (Sender, Option<Content>) = match content_in(json) {
        Ok(c) => c,
        Err(e) => return Err(e),
    };
    let message: Option<ChangedMessage> = match changed_in(json) {
        Ok(m) => m,
        Err(e) => return Err(e),
    };
    let previous_message: Option<PreviousMessage> = match before_in(json) {
        Ok(m) => m,
        Err(e) => return Err(e),
    };
    Ok(
        MessageEvent {
            origin: head.origin,
            sender,
            content,
            subtype: head.subtype,
            deleted_ts: head.deleted_ts,
            message,
            previous_message,
        },
    )
}

// ── reactions and members ───────────────────────────────────────────────────

/// The reaction in a JSON text that tells of one that was added; or why it tells of none.
pub uninterp spec fn added_read(json: Seq<char>) -> Result<ReactionView, Seq<char>>;

/// `serde_json::from_value` into slack-morphism's `SlackReactionAddedEvent`: who reacted, with what and
/// on which message, or the error's text. They depend on the JSON alone.
#[verifier::external_body]
fn added_in(json: &str) -> (r: Result<ReactionEvent, String>)
    ensures
        added_read(json@) == match r {
            Ok(ev) => Ok(ev@),
            Err(e) => Err(e@),
        },
{
    let read = from_str(json).and_then(from_value::<SlackReactionAddedEvent>);
    let read = read.map_err(|e| e.to_string())?;
    let item = match read.item {
        SlackReactionsItem::Message(m) => {
            let o = m.origin;
            let channel = o.channel.map(|c| c.0);
            let channel_type = o.channel_type.map(|t| t.0);
            let thread_ts = o.thread_ts.map(|t| t.0);
            let origin = Origin { ts: o.ts.0, channel, channel_type, thread_ts };
            Some(ReactionItem { origin, text: m.content.text })
        },
        SlackReactionsItem::File(_) => None,
    };
    Ok(ReactionEvent { user: read.user.0, reaction: read.reaction.0, item })
}

/// The reaction in a JSON text that tells of one that was taken off; or why it tells of none.
pub uninterp spec fn removed_read(json: Seq<char>) -> Result<ReactionView, Seq<char>>;

/// `serde_json::from_value` into slack-morphism's `SlackReactionRemovedEvent`: who took off what and
/// from which message, or the error's text. They depend on the JSON alone.
#[verifier::external_body]
fn removed_in(json: &str) -> (r: Result<ReactionEvent, String>)
    ensures
        removed_read(json@) == match r {
            Ok(ev) => Ok(ev@),
            Err(e) => Err(e@),
        },
{
    let read = from_str(json).and_then(from_value::<SlackReactionRemovedEvent>);
    let read = read.map_err(|e| e.to_string())?;
    let item = match read.item {
        SlackReactionsItem::Message(m) => {
            let o = m.origin;
            let channel = o.channel.map(|c| c.0);
            let channel_type = o.channel_type.map(|t| t.0);
            let thread_ts = o.thread_ts.map(|t| t.0);
            let origin = Origin { ts: o.ts.0, channel, channel_type, thread_ts };
            Some(ReactionItem { origin, text: m.content.text })
        },
        SlackReactionsItem::File(_) => None,
    };
    Ok(ReactionEvent { user: read.user.0, reaction: read.reaction.0, item })
}

/// Whether a JSON text tells of a member that joined a channel; or why it does not.
pub uninterp spec fn joined_read(json: Seq<char>) -> Result<(), Seq<char>>;

/// `serde_json::from_value` into slack-morphism's `SlackMemberJoinedChannelEvent`: that it could be
/// read, or the error's text. Which depends on the JSON alone.
#[verifier::external_body]
fn joined_in(json: &str) -> (r: Result<(), String>)
    ensures
        joined_read(json@) == match r {
            Ok(u) => Ok(u),
            Err(e) => Err(e@),
        },
{
    let read = from_str(json).and_then(from_value::<SlackMemberJoinedChannelEvent>);
    read.map(|_| ()).map_err(|e| e.to_string())
}

/// The event of a kind that a JSON text holds; or why it holds none.
pub open spec fn read_as(kind: RelayKind, json: Seq<char>) -> Result<EventView, Seq<char>> {
    match kind {
        RelayKind::Message => match message_read(json) {
            Ok(ev) => Ok(EventView::Message(ev)),
            Err(e) => Err(e),
        },
        RelayKind::ReactionAdded => match added_read(json) {
            Ok(ev) => Ok(EventView::ReactionAdded(ev)),
            Err(e) => Err(e),
        },
        RelayKind::ReactionRemoved => match removed_read(json) {
            Ok(ev) => Ok(EventView::ReactionRemoved(ev)),
            Err(e) => Err(e),
        },
        RelayKind::MemberJoined => match joined_read(json) {
            Ok(_) => Ok(EventView::MemberJoined),
            Err(e) => Err(e),
        },
    }
}

/// Reads an event of a kind.
pub fn read_event(kind: RelayKind, json: &str) -> (r: Result<SlackEvent, String>)
    ensures
        read_as(kind, json@) == match r {
            Ok(ev) => Ok(ev@),
            Err(e) => Err(e@),
        },
{
    match kind {
        RelayKind::Message => match read_message(json) {
            Ok(ev) => Ok(SlackEvent::Message(ev)),
            Err(e) => Err(e),
        },
        RelayKind::ReactionAdded => match added_in(json) {
            Ok(ev) => Ok(SlackEvent::ReactionAdded(ev)),
            Err(e) => Err(e),
        },
        RelayKind::ReactionRemoved => match removed_in(json) {
            Ok(ev) => Ok(SlackEvent::ReactionRemoved(ev)),
            Err(e) => Err(e),
        },
        RelayKind::MemberJoined => match joined_in(json) {
            Ok(_) => Ok(SlackEvent::MemberJoined),
            Err(e) => Err(e),
        },
    }
}

} // verus!
