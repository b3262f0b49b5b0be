use agentgw::mcp::{CallStep, Mcp, Tool};
use agentgw::product::Product;
use serde_json::Value;

fn product() -> Product {
    Product {
        service: "Robin".to_string(),
        program: "Robin Shell".to_string(),
        command: "robin".to_string(),
    }
}

fn json(text: &str) -> Value {
    serde_json::from_str(text).expect("JSON")
}

fn tools() -> Vec<Tool> {
    Mcp::tool_definitions(&product())
}

fn defined() -> Vec<Value> {
    tools().iter().map(|t| json(&t.to_json())).collect()
}

#[test]
fn mcp_config_shape() {
    let v = json(&Mcp::config_json(8790, "sid-1", "secret"));
    let s = &v["mcpServers"]["agentgw"];
    assert_eq!(s["type"], "http");
    assert_eq!(s["url"], "http://127.0.0.1:8790/mcp");
    assert_eq!(s["headers"]["Authorization"], "Bearer secret");
    assert_eq!(s["headers"]["X-Agentgw-Session"], "sid-1");
}

#[test]
fn a_config_survives_quotes_in_what_it_names() {
    let v = json(&Mcp::config_json(1, "a\"b\\c\n", "t\"k"));
    let s = &v["mcpServers"]["agentgw"];
    assert_eq!(s["headers"]["Authorization"], "Bearer t\"k");
    assert_eq!(s["headers"]["X-Agentgw-Session"], "a\"b\\c\n");
    let f = Mcp::write_config(8790, "sid-1", "secret");
    assert_eq!(f.name, "mcp/sid-1.json");
    assert_eq!(f.json, Mcp::config_json(8790, "sid-1", "secret"));
}

#[test]
fn all_six_tools_are_defined() {
    let tools = defined();
    let names: Vec<&str> = tools.iter().map(|t| t["name"].as_str().unwrap()).collect();
    assert_eq!(
        names,
        vec![
            "reply",
            "react",
            "no_reply",
            "edit_message",
            "download_attachment",
            "fetch_messages"
        ]
    );
    for t in &tools {
        assert!(t["inputSchema"]["properties"].is_object(), "{t}");
        assert!(t["description"].as_str().unwrap().len() > 20, "{t}");
    }
}

#[test]
fn anti_narration_wording_is_verbatim() {
    let tools = defined();
    let by = |n: &str| -> String {
        tools.iter().find(|t| t["name"] == n).unwrap()["description"].as_str().unwrap().to_string()
    };
    assert!(by("reply").contains(
        r#"Do NOT narrate this tool: never write "I should use reply" / "I have reply" / "I will reply" / "I replied" or any similar preamble. Do NOT output any text after calling reply — the tool call is the entire turn."#
    ));
    assert!(by("react").contains(
        r#"Do NOT narrate this tool: never write "I should use react" / "I have react" / "I will react" / "I reacted" or any similar preamble."#
    ));
    assert!(by("no_reply").contains(r#"any trailing text leaks into Slack as a stray message"#));
    assert!(by("download_attachment").ends_with("Returns the file path for Robin to Read."));
}

#[test]
fn every_tool_argument_explains_itself() {
    for t in defined() {
        let name = t["name"].as_str().unwrap();
        let props = t["inputSchema"]["properties"].as_object().unwrap();
        assert!(!props.is_empty(), "{name}: 引数が1つも無い");
        for (arg, spec) in props {
            if arg == "items" {
                continue;
            }
            let d = spec["description"].as_str().unwrap_or("");
            assert!(d.len() >= 10, "{name}.{arg}: 説明が無い(または短すぎる): {d:?}");
        }
    }
}

#[test]
fn required_fields_match_the_current_connector() {
    let tools = defined();
    let req = |n: &str| -> Vec<String> {
        tools.iter().find(|t| t["name"] == n).unwrap()["inputSchema"]["required"]
            .as_array()
            .unwrap()
            .iter()
            .map(|v| v.as_str().unwrap().to_string())
            .collect()
    };
    assert_eq!(req("reply"), ["channel_id", "text"]);
    assert_eq!(req("react"), ["channel_id", "message_ts", "emoji"]);
    assert_eq!(req("no_reply"), ["channel_id", "message_ids"]);
    assert_eq!(req("edit_message"), ["channel_id", "message_ts", "text"]);
    assert_eq!(req("download_attachment"), ["file_id"]);
    assert_eq!(req("fetch_messages"), ["channel"]);
}

#[test]
fn a_schema_names_the_kinds_of_its_arguments() {
    let reply = json(&tools()[0].schema());
    assert_eq!(reply["type"], "object");
    let p = &reply["properties"];
    assert_eq!(p["text"]["type"], "string");
    assert_eq!(p["markdown"]["type"], "boolean");
    assert_eq!(p["files"]["type"], "array");
    assert_eq!(p["files"]["items"]["type"], "string");
    let fetch = json(&tools()[5].schema());
    assert_eq!(fetch["properties"]["limit"]["type"], "number");
}

#[test]
fn only_the_key_opens_the_door() {
    assert!(Mcp::lets_in(Some("Bearer k1"), "k1"));
    assert!(!Mcp::lets_in(Some("Bearer k2"), "k1"));
    assert!(!Mcp::lets_in(Some("k1"), "k1"));
    assert!(!Mcp::lets_in(None, "k1"));
}

#[test]
fn a_call_without_a_session_is_refused() {
    assert!(matches!(Mcp::on_call("", "reply"), CallStep::Refuse { line, answer }
        if line == "reply call without session header"
            && answer == "no session — the bridge cannot tell which thread this is"));
    assert!(matches!(Mcp::on_call("sid-1", "reply"), CallStep::Run { line, sighting }
        if line == "tool reply" && sighting.kind == "mcp_ready" && sighting.session_id == "sid-1"));
    assert!(Mcp::on_initialize("").is_none());
    let s = Mcp::on_initialize("sid-1").unwrap();
    assert_eq!((s.kind.as_str(), s.session_id.as_str()), ("mcp_initialized", "sid-1"));
    assert_eq!(Mcp::failed_line("reply", "boom"), "tool reply failed: boom");
    assert!(Mcp::instructions().starts_with("Slack bridge — reply to the Slack thread"));
}
