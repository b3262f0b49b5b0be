//! The tools that agents talk to Slack with, and the door to them.
use crate::json;
use crate::product::Product;
use crate::text;
use vstd::prelude::*;

verus! {

/// What kind of value an argument takes.
#[derive(Clone, Copy, Debug, PartialEq, Eq, Structural)]
pub enum ArgKind {
    Text,
    Bool,
    Number,
    /// A list of texts.
    Texts,
}

/// An argument of a tool.
#[derive(Debug)]
pub struct ToolArg {
    pub name: String,
    pub kind: ArgKind,
    pub description: String,
}

/// A tool. Its description and those of its arguments are what an agent goes by.
#[derive(Debug)]
pub struct Tool {
    pub name: String,
    pub description: String,
    pub args: Vec<ToolArg>,
    /// The arguments that have to be there.
    pub required: Vec<String>,
}

/// An argument, as a value.
#[verifier::ext_equal]
pub struct ArgView {
    pub name: Seq<char>,
    pub kind: ArgKind,
    pub description: Seq<char>,
}

/// A tool, as a value.
#[verifier::ext_equal]
pub struct ToolView {
    pub name: Seq<char>,
    pub description: Seq<char>,
    pub args: Seq<ArgView>,
    pub required: Seq<Seq<char>>,
}

impl View for ToolArg {
    type V = ArgView;

    open spec fn view(&self) -> ArgView {
        ArgView { name: self.name@, kind: self.kind, description: self.description@ }
    }
}

pub open spec fn arg_views(args: Seq<ToolArg>) -> Seq<ArgView> {
    args.map_values(|a: ToolArg| a@)
}

impl View for Tool {
    type V = ToolView;

    open spec fn view(&self) -> ToolView {
        ToolView {
            name: self.name@,
            description: self.description@,
            args: arg_views(self.args@),
            required: text::views(self.required@),
        }
    }
}

pub open spec fn tool_views(tools: Seq<Tool>) -> Seq<ToolView> {
    tools.map_values(|t: Tool| t@)
}

// ── the tools ───────────────────────────────────────────────────────────────

/// The tool `reply`.
pub open spec fn reply_tool() -> ToolView {
    ToolView {
        name: "reply"@,
        description: "Reply on Slack. Pass channel_id (the conversation from the inbound event). Use thread_ts for threading. Pass files (absolute paths) for attachments. `text` is standard Markdown by default — write **bold**, tables and ```lang code fences normally. Do NOT narrate this tool: never write \"I should use reply\" / \"I have reply\" / \"I will reply\" / \"I replied\" or any similar preamble. Do NOT output any text after calling reply — the tool call is the entire turn."@,
        args: seq![
            ArgView {
                name: "channel_id"@,
                kind: ArgKind::Text,
                description: "Channel or DM ID (C.../D.../G...)"@,
            },
            ArgView {
                name: "text"@,
                kind: ArgKind::Text,
                description: "Message text. Standard Markdown by default — see `markdown`."@,
            },
            ArgView {
                name: "markdown"@,
                kind: ArgKind::Bool,
                description: "Defaults to TRUE: `text` is read as standard Markdown, so headings (##), tables, task lists and fenced code blocks with language all render. Slack mentions (<@U…>), channel links (<#C…>) and :emoji: still work. Set FALSE only to fall back to Slack mrkdwn — the legacy dialect where bold is *single asterisks* and there is no table syntax."@,
            },
            ArgView {
                name: "thread_ts"@,
                kind: ArgKind::Text,
                description: "Thread timestamp for threaded replies"@,
            },
            ArgView {
                name: "files"@,
                kind: ArgKind::Texts,
                description: "Absolute file paths to upload as attachments (max 50MB each)"@,
            },
            ArgView {
                name: "message_ids"@,
                kind: ArgKind::Texts,
                description: "ALWAYS pass the inbound message_id(s) this reply answers — used for correlation/audit (and to annotate if the user deletes the message). Internal only — does not change where the reply is posted."@,
            },
        ],
        required: seq!["channel_id"@, "text"@],
    }
}

/// The tool `react`.
pub open spec fn react_tool() -> ToolView {
    ToolView {
        name: "react"@,
        description: "Add an emoji reaction to a Slack message. Do NOT narrate this tool: never write \"I should use react\" / \"I have react\" / \"I will react\" / \"I reacted\" or any similar preamble. Do NOT output any text after calling react — the tool call is the entire turn."@,
        args: seq![
            ArgView {
                name: "channel_id"@,
                kind: ArgKind::Text,
                description: "Channel or DM ID (C.../D.../G...) the message lives in."@,
            },
            ArgView {
                name: "message_ts"@,
                kind: ArgKind::Text,
                description: "Timestamp of the message to react to"@,
            },
            ArgView {
                name: "emoji"@,
                kind: ArgKind::Text,
                description: "Emoji name without colons (e.g. \"thumbsup\")"@,
            },
        ],
        required: seq!["channel_id"@, "message_ts"@, "emoji"@],
    }
}

/// The tool `no_reply`.
pub open spec fn no_reply_tool() -> ToolView {
    ToolView {
        name: "no_reply"@,
        description: "Record that you are INTENTIONALLY not replying to one or more delivered Slack messages (e.g. a message aimed at someone else, small talk, or already-handled). Posts nothing to Slack — it tells the bridge your silence is deliberate (not a failure). Pass the message_id(s) you are choosing not to answer. Do NOT narrate this tool: never write \"I should use no_reply\" / \"I have no_reply\" / \"I will not reply\" or any similar preamble. Do NOT output any text after calling no_reply — the tool call is the entire turn (any trailing text leaks into Slack as a stray message)."@,
        args: seq![
            ArgView {
                name: "channel_id"@,
                kind: ArgKind::Text,
                description: "Channel or DM ID"@,
            },
            ArgView {
                name: "message_ids"@,
                kind: ArgKind::Texts,
                description: "The inbound message_id(s) you are intentionally not answering (coverage range — a single no_reply may cover several)."@,
            },
            ArgView {
                name: "reason"@,
                kind: ArgKind::Text,
                description: "Optional short reason (e.g. \"aimed at another user\")."@,
            },
            ArgView {
                name: "thread_ts"@,
                kind: ArgKind::Text,
                description: "Optional thread timestamp (to clear the thinking indicator)."@,
            },
        ],
        required: seq!["channel_id"@, "message_ids"@],
    }
}

/// The tool `edit_message`.
pub open spec fn edit_message_tool() -> ToolView {
    ToolView {
        name: "edit_message"@,
        description: "Edit a message the bot previously sent (message_ts). Use for progress updates, OR to deliver your final answer by editing an earlier message instead of posting a new reply. Like reply, `text` is standard Markdown by default."@,
        args: seq![
            ArgView {
                name: "channel_id"@,
                kind: ArgKind::Text,
                description: "Channel or DM ID (C.../D.../G...) the message to edit lives in."@,
            },
            ArgView {
                name: "message_ts"@,
                kind: ArgKind::Text,
                description: "Timestamp of the bot message to edit."@,
            },
            ArgView {
                name: "markdown"@,
                kind: ArgKind::Bool,
                description: "Defaults to TRUE (standard Markdown). Set FALSE for legacy Slack mrkdwn."@,
            },
            ArgView {
                name: "text"@,
                kind: ArgKind::Text,
                description: "The message's new full text (it REPLACES the old text, not appended). Standard Markdown by default — see `markdown`."@,
            },
            ArgView {
                name: "thread_ts"@,
                kind: ArgKind::Text,
                description: "Thread root timestamp. Pass it together with message_ids when this edit is your answer (marks the message(s) answered and clears the thinking indicator)."@,
            },
            ArgView {
                name: "message_ids"@,
                kind: ArgKind::Texts,
                description: "If this edit IS your answer to one or more inbound messages, pass their message_id(s) — marks them answered (correlation/audit, and so they are not re-delivered after a worker reconnect). OMIT for a mere progress-update edit (the turn is not done yet)."@,
            },
        ],
        required: seq!["channel_id"@, "message_ts"@, "text"@],
    }
}

/// The tool `download_attachment`.
pub open spec fn download_attachment_tool(service: Seq<char>) -> ToolView {
    ToolView {
        name: "download_attachment"@,
        description: "Download a Slack file to the local inbox. Returns the file path for "@ + service + " to Read."@,
        args: seq![
            ArgView {
                name: "file_id"@,
                kind: ArgKind::Text,
                description: "Slack file ID from the inbound message meta"@,
            },
        ],
        required: seq!["file_id"@],
    }
}

/// The tool `fetch_messages`.
pub open spec fn fetch_messages_tool() -> ToolView {
    ToolView {
        name: "fetch_messages"@,
        description: "Fetch recent messages from a Slack channel or thread. Returns oldest-first with timestamps."@,
        args: seq![
            ArgView {
                name: "channel"@,
                kind: ArgKind::Text,
                description: "Channel ID"@,
            },
            ArgView {
                name: "limit"@,
                kind: ArgKind::Number,
                description: "Max messages (default 20, max 100)"@,
            },
            ArgView {
                name: "thread_ts"@,
                kind: ArgKind::Text,
                description: "If provided, fetch thread replies instead of channel history"@,
            },
        ],
        required: seq!["channel"@],
    }
}

/// All tools.
pub open spec fn tools(service: Seq<char>) -> Seq<ToolView> {
    seq![
        reply_tool(),
        react_tool(),
        no_reply_tool(),
        edit_message_tool(),
        download_attachment_tool(service),
        fetch_messages_tool(),
    ]
}

fn arg(name: &str, kind: ArgKind, description: &str) -> (a: ToolArg)
    ensures
        a@ == (ArgView { name: name@, kind, description: description@ }),
{
    ToolArg { name: name.to_owned(), kind, description: description.to_owned() }
}

fn texts(list: &[&'static str]) -> (out: Vec<String>)
    ensures
        text::views(out@) == list@.map_values(|s: &str| s@),
{
    let mut out: Vec<String> = Vec::new();
    let mut i: usize = 0;
    while i < list.len()
        invariant
            i <= list@.len(),
            text::views(out@) =~= list@.map_values(|s: &str| s@).take(i as int),
        decreases list@.len() - i,
    {
        broadcast use text::lemma_views_push;

        out.push(list[i].to_owned());
        i = i + 1;
    }
    out
}

fn make_reply() -> (t: Tool)
    ensures
        t@ == reply_tool(),
{
    let mut args: Vec<ToolArg> = Vec::new();
    args.push(
        arg(
            "channel_id",
            ArgKind::Text,
            "Channel or DM ID (C.../D.../G...)",
        ),
    );
    args.push(
        arg(
            "text",
            ArgKind::Text,
            "Message text. Standard Markdown by default — see `markdown`.",
        ),
    );
    args.push(
        arg(
            "markdown",
            ArgKind::Bool,
            "Defaults to TRUE: `text` is read as standard Markdown, so headings (##), tables, task lists and fenced code blocks with language all render. Slack mentions (<@U…>), channel links (<#C…>) and :emoji: still work. Set FALSE only to fall back to Slack mrkdwn — the legacy dialect where bold is *single asterisks* and there is no table syntax.",
        ),
    );
    args.push(
        arg(
            "thread_ts",
            ArgKind::Text,
            "Thread timestamp for threaded replies",
        ),
    );
    args.push(
        arg(
            "files",
            ArgKind::Texts,
            "Absolute file paths to upload as attachments (max 50MB each)",
        ),
    );
    args.push(
        arg(
            "message_ids",
            ArgKind::Texts,
            "ALWAYS pass the inbound message_id(s) this reply answers — used for correlation/audit (and to annotate if the user deletes the message). Internal only — does not change where the reply is posted.",
        ),
    );
    let required: Vec<String> = texts(&["channel_id", "text"]);
    proof {
        assert(arg_views(args@) =~= reply_tool().args);
        assert(text::views(required@) =~= reply_tool().required);
    }
    Tool {
        name: "reply".to_owned(),
        description: "Reply on Slack. Pass channel_id (the conversation from the inbound event). Use thread_ts for threading. Pass files (absolute paths) for attachments. `text` is standard Markdown by default — write **bold**, tables and ```lang code fences normally. Do NOT narrate this tool: never write \"I should use reply\" / \"I have reply\" / \"I will reply\" / \"I replied\" or any similar preamble. Do NOT output any text after calling reply — the tool call is the entire turn.".to_owned(),
        args,
        required,
    }
}

fn make_react() -> (t: Tool)
    ensures
        t@ == react_tool(),
{
    let mut args: Vec<ToolArg> = Vec::new();
    args.push(
        arg(
            "channel_id",
            ArgKind::Text,
            "Channel or DM ID (C.../D.../G...) the message lives in.",
        ),
    );
    args.push(
        arg(
            "message_ts",
            ArgKind::Text,
            "Timestamp of the message to react to",
        ),
    );
    args.push(
        arg(
            "emoji",
            ArgKind::Text,
            "Emoji name without colons (e.g. \"thumbsup\")",
        ),
    );
    let required: Vec<String> = texts(&["channel_id", "message_ts", "emoji"]);
    proof {
        assert(arg_views(args@) =~= react_tool().args);
        assert(text::views(required@) =~= react_tool().required);
    }
    Tool {
        name: "react".to_owned(),
        description: "Add an emoji reaction to a Slack message. Do NOT narrate this tool: never write \"I should use react\" / \"I have react\" / \"I will react\" / \"I reacted\" or any similar preamble. Do NOT output any text after calling react — the tool call is the entire turn.".to_owned(),
        args,
        required,
    }
}

fn make_no_reply() -> (t: Tool)
    ensures
        t@ == no_reply_tool(),
{
    let mut args: Vec<ToolArg> = Vec::new();
    args.push(
        arg(
            "channel_id",
            ArgKind::Text,
            "Channel or DM ID",
        ),
    );
    args.push(
        arg(
            "message_ids",
            ArgKind::Texts,
            "The inbound message_id(s) you are intentionally not answering (coverage range — a single no_reply may cover several).",
        ),
    );
    args.push(
        arg(
            "reason",
            ArgKind::Text,
            "Optional short reason (e.g. \"aimed at another user\").",
        ),
    );
    args.push(
        arg(
            "thread_ts",
            ArgKind::Text,
            "Optional thread timestamp (to clear the thinking indicator).",
        ),
    );
    let required: Vec<String> = texts(&["channel_id", "message_ids"]);
    proof {
        assert(arg_views(args@) =~= no_reply_tool().args);
        assert(text::views(required@) =~= no_reply_tool().required);
    }
    Tool {
        name: "no_reply".to_owned(),
        description: "Record that you are INTENTIONALLY not replying to one or more delivered Slack messages (e.g. a message aimed at someone else, small talk, or already-handled). Posts nothing to Slack — it tells the bridge your silence is deliberate (not a failure). Pass the message_id(s) you are choosing not to answer. Do NOT narrate this tool: never write \"I should use no_reply\" / \"I have no_reply\" / \"I will not reply\" or any similar preamble. Do NOT output any text after calling no_reply — the tool call is the entire turn (any trailing text leaks into Slack as a stray message).".to_owned(),
        args,
        required,
    }
}

fn make_edit_message() -> (t: Tool)
    ensures
        t@ == edit_message_tool(),
{
    let mut args: Vec<ToolArg> = Vec::new();
    args.push(
        arg(
            "channel_id",
            ArgKind::Text,
            "Channel or DM ID (C.../D.../G...) the message to edit lives in.",
        ),
    );
    args.push(
        arg(
            "message_ts",
            ArgKind::Text,
            "Timestamp of the bot message to edit.",
        ),
    );
    args.push(
        arg(
            "markdown",
            ArgKind::Bool,
            "Defaults to TRUE (standard Markdown). Set FALSE for legacy Slack mrkdwn.",
        ),
    );
    args.push(
        arg(
            "text",
            ArgKind::Text,
            "The message's new full text (it REPLACES the old text, not appended). Standard Markdown by default — see `markdown`.",
        ),
    );
    args.push(
        arg(
            "thread_ts",
            ArgKind::Text,
            "Thread root timestamp. Pass it together with message_ids when this edit is your answer (marks the message(s) answered and clears the thinking indicator).",
        ),
    );
    args.push(
        arg(
            "message_ids",
            ArgKind::Texts,
            "If this edit IS your answer to one or more inbound messages, pass their message_id(s) — marks them answered (correlation/audit, and so they are not re-delivered after a worker reconnect). OMIT for a mere progress-update edit (the turn is not done yet).",
        ),
    );
    let required: Vec<String> = texts(&["channel_id", "message_ts", "text"]);
    proof {
        assert(arg_views(args@) =~= edit_message_tool().args);
        assert(text::views(required@) =~= edit_message_tool().required);
    }
    Tool {
        name: "edit_message".to_owned(),
        description: "Edit a message the bot previously sent (message_ts). Use for progress updates, OR to deliver your final answer by editing an earlier message instead of posting a new reply. Like reply, `text` is standard Markdown by default.".to_owned(),
        args,
        required,
    }
}

fn make_download_attachment(service: &str) -> (t: Tool)
    ensures
        t@ == download_attachment_tool(service@),
{
    let mut args: Vec<ToolArg> = Vec::new();
    args.push(
        arg(
            "file_id",
            ArgKind::Text,
            "Slack file ID from the inbound message meta",
        ),
    );
    let required: Vec<String> = texts(&["file_id"]);
    proof {
        assert(arg_views(args@) =~= download_attachment_tool(service@).args);
        assert(text::views(required@) =~= download_attachment_tool(service@).required);
    }
    Tool {
        name: "download_attachment".to_owned(),
        description: text::cat3(
            "Download a Slack file to the local inbox. Returns the file path for ",
            service,
            " to Read.",
        ),
        args,
        required,
    }
}

fn make_fetch_messages() -> (t: Tool)
    ensures
        t@ == fetch_messages_tool(),
{
    let mut args: Vec<ToolArg> = Vec::new();
    args.push(
        arg(
            "channel",
            ArgKind::Text,
            "Channel ID",
        ),
    );
    args.push(
        arg(
            "limit",
            ArgKind::Number,
            "Max messages (default 20, max 100)",
        ),
    );
    args.push(
        arg(
            "thread_ts",
            ArgKind::Text,
            "If provided, fetch thread replies instead of channel history",
        ),
    );
    let required: Vec<String> = texts(&["channel"]);
    proof {
        assert(arg_views(args@) =~= fetch_messages_tool().args);
        assert(text::views(required@) =~= fetch_messages_tool().required);
    }
    Tool {
        name: "fetch_messages".to_owned(),
        description: "Fetch recent messages from a Slack channel or thread. Returns oldest-first with timestamps.".to_owned(),
        args,
        required,
    }
}

// ── as JSON ─────────────────────────────────────────────────────────────────

/// What JSON Schema says of a kind of value.
pub open spec fn kind_json(kind: ArgKind) -> Seq<char> {
    match kind {
        ArgKind::Text => "\"type\":\"string\""@,
        ArgKind::Bool => "\"type\":\"boolean\""@,
        ArgKind::Number => "\"type\":\"number\""@,
        ArgKind::Texts => "\"type\":\"array\",\"items\":{\"type\":\"string\"}"@,
    }
}

/// An argument among the properties of a schema.
pub open spec fn arg_json(a: ArgView) -> Seq<char> {
    json::json_quoted(a.name) + ":{"@ + kind_json(a.kind) + ",\"description\":"@
        + json::json_quoted(a.description) + "}"@
}

/// The schema of a tool's arguments.
pub open spec fn schema_json(t: ToolView) -> Seq<char> {
    "{\"type\":\"object\",\"properties\":{"@ + text::joined(
        t.args.map_values(|a: ArgView| arg_json(a)),
        ","@,
    ) + "},\"required\":["@ + text::joined(
        t.required.map_values(|r: Seq<char>| json::json_quoted(r)),
        ","@,
    ) + "]}"@
}

/// A tool as agents are told of it.
pub open spec fn tool_json(t: ToolView) -> Seq<char> {
    "{\"name\":"@ + json::json_quoted(t.name) + ",\"description\":"@ + json::json_quoted(
        t.description,
    ) + ",\"inputSchema\":"@ + schema_json(t) + "}"@
}

impl ToolArg {
    fn to_json(&self) -> (out: String)
        ensures
            out@ == arg_json(self@),
    {
        let kind: &str = match self.kind {
            ArgKind::Text => "\"type\":\"string\"",
            ArgKind::Bool => "\"type\":\"boolean\"",
            ArgKind::Number => "\"type\":\"number\"",
            ArgKind::Texts => "\"type\":\"array\",\"items\":{\"type\":\"string\"}",
        };
        let name: String = json::quoted(self.name.as_str());
        let description: String = json::quoted(self.description.as_str());
        let mut out: String = text::cat4(name.as_str(), ":{", kind, ",\"description\":");
        out.append(description.as_str());
        out.append("}");
        out
    }
}

impl Tool {
    /// The schema of the tool's arguments, as JSON.
    pub fn schema(&self) -> (out: String)
        ensures
            out@ == schema_json(self@),
    {
        broadcast use text::lemma_views_empty;

        let ghost properties = self@.args.map_values(|a: ArgView| arg_json(a));
        let mut args: Vec<String> = Vec::new();
        let mut i: usize = 0;
        while i < self.args.len()
            invariant
                i <= self.args@.len() == properties.len(),
                properties == self@.args.map_values(|a: ArgView| arg_json(a)),
                text::views(args@) =~= properties.take(i as int),
            decreases self.args@.len() - i,
        {
            broadcast use text::lemma_views_push;

            args.push(self.args[i].to_json());
            proof {
                assert(self@.args[i as int] == self.args@[i as int]@);
                assert(properties.take(i + 1) =~= properties.take(i as int).push(
                    properties[i as int],
                ));
            }
            i = i + 1;
        }
        let ghost needed = self@.required.map_values(|r: Seq<char>| json::json_quoted(r));
        let mut required: Vec<String> = Vec::new();
        let mut j: usize = 0;
        while j < self.required.len()
            invariant
                j <= self.required@.len() == needed.len(),
                needed == self@.required.map_values(|r: Seq<char>| json::json_quoted(r)),
                text::views(required@) =~= needed.take(j as int),
            decreases self.required@.len() - j,
        {
            broadcast use text::lemma_views_push;

            required.push(json::quoted(self.required[j].as_str()));
            proof {
                assert(self@.required[j as int] == self.required@[j as int]@);
                assert(needed.take(j + 1) =~= needed.take(j as int).push(needed[j as int]));
            }
            j = j + 1;
        }
        proof {
            assert(properties.take(properties.len() as int) =~= properties);
            assert(needed.take(needed.len() as int) =~= needed);
        }
        let a: String = text::join(args.as_slice(), ",");
        let r: String = text::join(required.as_slice(), ",");
        text::cat5(
            "{\"type\":\"object\",\"properties\":{",
            a.as_str(),
            "},\"required\":[",
            r.as_str(),
            "]}",
        )
    }

    /// The tool as agents are told of it, as JSON.
    pub fn to_json(&self) -> (out: String)
        ensures
            out@ == tool_json(self@),
    {
        let name: String = json::quoted(self.name.as_str());
        let description: String = json::quoted(self.description.as_str());
        let schema: String = self.schema();
        let mut out: String = text::cat4(
            "{\"name\":",
            name.as_str(),
            ",\"description\":",
            description.as_str(),
        );
        out.append(",\"inputSchema\":");
        out.append(schema.as_str());
        out.append("}");
        out
    }
}

// ── the door ────────────────────────────────────────────────────────────────

/// What an agent shows to be let in.
pub open spec fn bearer(token: Seq<char>) -> Seq<char> {
    "Bearer "@ + token
}

/// What an agent is told of the door: where it is, what to show there, and the session to name.
pub open spec fn config(port: u16, session_id: Seq<char>, token: Seq<char>) -> Seq<char> {
    "{\"mcpServers\":{\"agentgw\":{\"type\":\"http\",\"url\":"@ + json::json_quoted(
        "http://127.0.0.1:"@ + text::decimal(port as int) + "/mcp"@,
    ) + ",\"headers\":{\"Authorization\":"@ + json::json_quoted(bearer(token))
        + ",\"X-Agentgw-Session\":"@ + json::json_quoted(session_id) + "}}}}"@
}

/// A generated file, below the directory of such files.
#[derive(Debug)]
pub struct ConfigFile {
    pub name: String,
    pub json: String,
}

/// Something that an agent was seen to do.
#[derive(Debug)]
pub struct Sighting {
    pub kind: String,
    pub session_id: String,
}

/// What is to be done with a call of a tool.
#[derive(Debug)]
pub enum CallStep {
    /// It is answered with a fault. The line is for the log of faults.
    Refuse { line: String, answer: String },
    /// It is carried out. The line is for the log; the agent was seen to hold the tools.
    Run { line: String, sighting: Sighting },
}

/// The tools' door.
#[derive(Debug)]
pub struct Mcp;

impl Mcp {
    /// All tools.
    pub fn tool_definitions(product: &Product) -> (out: Vec<Tool>)
        ensures
            tool_views(out@) == tools(product.service@),
    {
        let mut out: Vec<Tool> = Vec::new();
        out.push(make_reply());
        out.push(make_react());
        out.push(make_no_reply());
        out.push(make_edit_message());
        out.push(make_download_attachment(product.service.as_str()));
        out.push(make_fetch_messages());
        proof {
            assert(tool_views(out@) =~= tools(product.service@));
        }
        out
    }

    /// What an agent is told of the door, as JSON.
    pub fn config_json(mcp_port: u16, session_id: &str, mcp_token: &str) -> (out: String)
        ensures
            out@ == config(mcp_port, session_id@, mcp_token@),
    {
        let port: String = text::number(mcp_port as u64);
        let url: String = text::cat3("http://127.0.0.1:", port.as_str(), "/mcp");
        let shown: String = text::cat("Bearer ", mcp_token);
        let url_json: String = json::quoted(url.as_str());
        let shown_json: String = json::quoted(shown.as_str());
        let session_json: String = json::quoted(session_id);
        let mut out: String = text::cat4(
            "{\"mcpServers\":{\"agentgw\":{\"type\":\"http\",\"url\":",
            url_json.as_str(),
            ",\"headers\":{\"Authorization\":",
            shown_json.as_str(),
        );
        out.append(",\"X-Agentgw-Session\":");
        out.append(session_json.as_str());
        out.append("}}}}");
        out
    }

    /// The file that an agent reads what it is told from.
    pub fn write_config(mcp_port: u16, session_id: &str, mcp_token: &str) -> (f: ConfigFile)
        ensures
            f.name@ == "mcp/"@ + session_id@ + ".json"@,
            f.json@ == config(mcp_port, session_id@, mcp_token@),
    {
        ConfigFile {
            name: text::cat3("mcp/", session_id, ".json"),
            json: Self::config_json(mcp_port, session_id, mcp_token),
        }
    }

    /// Whether a request is let in, by its `Authorization` header.
    pub fn lets_in(shown: Option<&str>, token: &str) -> (r: bool)
        ensures
            r == (shown is Some && shown->0@ == bearer(token@)),
    {
        let expected: String = text::cat("Bearer ", token);
        match shown {
            Some(s) => text::same(s, expected.as_str()),
            None => false,
        }
    }

    /// An agent took hold of the tools: what was seen, where it names its session.
    pub fn on_initialize(session_id: &str) -> (r: Option<Sighting>)
        ensures
            match r {
                Some(s) => session_id@.len() > 0 && s.kind@ == "mcp_initialized"@ && s.session_id@
                    == session_id@,
                None => session_id@.len() == 0,
            },
    {
        if session_id.is_empty() {
            None
        } else {
            Some(
                Sighting {
                    kind: "mcp_initialized".to_owned(),
                    session_id: session_id.to_owned(),
                },
            )
        }
    }

    /// An agent calls a tool. To call one is to hold the tools, which for an agent that outlived the
    /// bridge is the only sign of it.
    pub fn on_call(session_id: &str, tool: &str) -> (r: CallStep)
        ensures
            match r {
                CallStep::Refuse { line, answer } => session_id@.len() == 0 && line@ == tool@
                    + " call without session header"@ && answer@
                    == "no session — the bridge cannot tell which thread this is"@,
                CallStep::Run { line, sighting } => session_id@.len() > 0 && line@ == "tool "@
                    + tool@ && sighting.kind@ == "mcp_ready"@ && sighting.session_id@
                    == session_id@,
            },
    {
        if session_id.is_empty() {
            CallStep::Refuse {
                line: text::cat(tool, " call without session header"),
                answer: "no session — the bridge cannot tell which thread this is".to_owned(),
            }
        } else {
            CallStep::Run {
                line: text::cat("tool ", tool),
                sighting: Sighting {
                    kind: "mcp_ready".to_owned(),
                    session_id: session_id.to_owned(),
                },
            }
        }
    }

    /// The line for the log where a tool failed.
    pub fn failed_line(tool: &str, error: &str) -> (out: String)
        ensures
            out@ == "tool "@ + tool@ + " failed: "@ + error@,
    {
        text::cat4("tool ", tool, " failed: ", error)
    }

    /// What agents are told about the tools as a whole.
    pub fn instructions() -> (out: &'static str)
        ensures
            out@
                == "Slack bridge — reply to the Slack thread with these tools. Events: <channel source=\"slack\" channel_id=... message_id=...>; attachments are pre-downloaded (`file_paths` = local files to Read, `file_errors` = failures). Use `download_attachment` only for a file from another message/thread."@,
    {
        "Slack bridge — reply to the Slack thread with these tools. Events: <channel source=\"slack\" channel_id=... message_id=...>; attachments are pre-downloaded (`file_paths` = local files to Read, `file_errors` = failures). Use `download_attachment` only for a file from another message/thread."
    }
}

// ── what holds ──────────────────────────────────────────────────────────────

/// No key opens the door for another: what is shown for one key lets in only with that key.
pub proof fn law_each_key_its_own(shown: Seq<char>, token: Seq<char>)
    requires
        bearer(shown) == bearer(token),
    ensures
        shown == token,
{
    let a = bearer(shown);
    let n = "Bearer "@.len() as int;
    assert(a.skip(n) =~= shown);
    assert(bearer(token).skip(n) =~= token);
}

/// Every argument of every tool explains itself.
pub proof fn law_arguments_explain_themselves(service: Seq<char>, t: int, a: int)
    requires
        0 <= t < tools(service).len(),
        0 <= a < tools(service)[t].args.len(),
    ensures
        tools(service)[t].args[a].description.len() >= 10,
{
    reveal_strlit("Channel or DM ID (C.../D.../G...)");
    reveal_strlit("Message text. Standard Markdown by default — see `markdown`.");
    reveal_strlit("Defaults to TRUE: `text` is read as standard Markdown, so headings (##), tables, task lists and fenced code blocks with language all render. Slack mentions (<@U…>), channel links (<#C…>) and :emoji: still work. Set FALSE only to fall back to Slack mrkdwn — the legacy dialect where bold is *single asterisks* and there is no table syntax.");
    reveal_strlit("Thread timestamp for threaded replies");
    reveal_strlit("Absolute file paths to upload as attachments (max 50MB each)");
    reveal_strlit("ALWAYS pass the inbound message_id(s) this reply answers — used for correlation/audit (and to annotate if the user deletes the message). Internal only — does not change where the reply is posted.");
    reveal_strlit("Channel or DM ID (C.../D.../G...) the message lives in.");
    reveal_strlit("Timestamp of the message to react to");
    reveal_strlit("Emoji name without colons (e.g. \"thumbsup\")");
    reveal_strlit("Channel or DM ID");
    reveal_strlit("The inbound message_id(s) you are intentionally not answering (coverage range — a single no_reply may cover several).");
    reveal_strlit("Optional short reason (e.g. \"aimed at another user\").");
    reveal_strlit("Optional thread timestamp (to clear the thinking indicator).");
    reveal_strlit("Channel or DM ID (C.../D.../G...) the message to edit lives in.");
    reveal_strlit("Timestamp of the bot message to edit.");
    reveal_strlit("Defaults to TRUE (standard Markdown). Set FALSE for legacy Slack mrkdwn.");
    reveal_strlit("The message's new full text (it REPLACES the old text, not appended). Standard Markdown by default — see `markdown`.");
    reveal_strlit("Thread root timestamp. Pass it together with message_ids when this edit is your answer (marks the message(s) answered and clears the thinking indicator).");
    reveal_strlit("If this edit IS your answer to one or more inbound messages, pass their message_id(s) — marks them answered (correlation/audit, and so they are not re-delivered after a worker reconnect). OMIT for a mere progress-update edit (the turn is not done yet).");
    reveal_strlit("Slack file ID from the inbound message meta");
    reveal_strlit("Channel ID");
    reveal_strlit("Max messages (default 20, max 100)");
    reveal_strlit("If provided, fetch thread replies instead of channel history");
}

/// What a tool needs is among its arguments.
pub proof fn law_required_are_arguments(service: Seq<char>, t: int, r: int)
    requires
        0 <= t < tools(service).len(),
        0 <= r < tools(service)[t].required.len(),
    ensures
        exists|a: int|
            0 <= a < tools(service)[t].args.len() && (#[trigger] tools(service)[t].args[a]).name
                == tools(service)[t].required[r],
{
    if t == 0 {
        if r == 0 {
            assert(reply_tool().args[0].name == reply_tool().required[0]);
        }
        if r == 1 {
            assert(reply_tool().args[1].name == reply_tool().required[1]);
        }
    }
    if t == 1 {
        if r == 0 {
            assert(react_tool().args[0].name == react_tool().required[0]);
        }
        if r == 1 {
            assert(react_tool().args[1].name == react_tool().required[1]);
        }
        if r == 2 {
            assert(react_tool().args[2].name == react_tool().required[2]);
        }
    }
    if t == 2 {
        if r == 0 {
            assert(no_reply_tool().args[0].name == no_reply_tool().required[0]);
        }
        if r == 1 {
            assert(no_reply_tool().args[1].name == no_reply_tool().required[1]);
        }
    }
    if t == 3 {
        if r == 0 {
            assert(edit_message_tool().args[0].name == edit_message_tool().required[0]);
        }
        if r == 1 {
            assert(edit_message_tool().args[1].name == edit_message_tool().required[1]);
        }
        if r == 2 {
            assert(edit_message_tool().args[3].name == edit_message_tool().required[2]);
        }
    }
    if t == 4 {
        if r == 0 {
            assert(download_attachment_tool(service).args[0].name == download_attachment_tool(
                service,
            ).required[0]);
        }
    }
    if t == 5 {
        if r == 0 {
            assert(fetch_messages_tool().args[0].name == fetch_messages_tool().required[0]);
        }
    }
}

} // verus!
