use devscribe::chat::{
    chat_status_label, context_mentions, current_presentation, input_placeholder, selection_lines_label, status_text,
    streaming_text, thread_layout, message_view, ChatStatus, MessageView, ThreadItem, edit_diffstat, group_thread, tool_status, tool_status_glyph, tool_summary,
    truncate_lines, ChatMessage, ChatMode, ChatPresentation, PermissionState, TabKey, ThreadRow, ToolActivity,
    ToolActivityResult, ToolStatus,
};
use devscribe::sessions::{
    filter_sessions, session_list, session_list_placeholder, to_ascii_lower, trim_white, SessionList,
};
use devscribe::json::{node_rows, scalar_text, JsonKind, JsonRow, JsonRowContent, JsonValue};

fn s(x: &str) -> String {
    x.to_string()
}

fn obj(entries: Vec<(&str, JsonValue)>) -> JsonValue {
    JsonValue::Object(entries.into_iter().map(|(k, v)| (s(k), v)).collect())
}

fn tool(name: &str, input: JsonValue, permission: Option<PermissionState>, result: Option<bool>) -> ToolActivity {
    ToolActivity {
        id: s("t1"),
        name: s(name),
        input,
        permission,
        result: result.map(|is_error| ToolActivityResult { is_error }),
    }
}

#[test]
fn mentions_are_at_tokens_trimmed_of_punctuation() {
    assert_eq!(context_mentions("look at @src/main.rs, and @docs/README.md."), vec!["src/main.rs", "docs/README.md."]);
    assert_eq!(context_mentions("mail foo@bar.com or @ alone"), Vec::<&str>::new());
    assert_eq!(context_mentions("@@twice! @!?"), vec!["twice"]);
    assert_eq!(context_mentions("\t@a\u{3000}@b\n"), vec!["a", "b"]);
    assert_eq!(context_mentions(""), Vec::<&str>::new());
}

#[test]
fn truncate_lines_keeps_the_first_lines_and_counts_the_rest() {
    assert_eq!(truncate_lines("a\nb\nc", 3), "a\nb\nc");
    assert_eq!(truncate_lines("a\nb\nc\nd", 2), "a\nb\n\u{2026} 2 more lines");
    assert_eq!(truncate_lines("a\r\nb\r\nc", 1), "a\n\u{2026} 2 more lines");
    assert_eq!(truncate_lines("x\ny", 0), "\n\u{2026} 2 more lines");
}

#[test]
fn tool_summary_names_what_a_call_acts_on() {
    let input = obj(vec![("file_path", JsonValue::String(s("/p/a.rs"))), ("pattern", JsonValue::String(s("fn")))]);
    assert_eq!(tool_summary("Read", &input), "Read /p/a.rs");
    assert_eq!(tool_summary("Grep", &input), "Grep fn");
    assert_eq!(tool_summary("Bash", &input), "Bash");
    assert_eq!(tool_summary("mcp__thing", &input), "mcp__thing");
    let not_string = obj(vec![("command", JsonValue::Number(s("3")))]);
    assert_eq!(tool_summary("Bash", &not_string), "Bash");
    let bash = obj(vec![("command", JsonValue::String(s("ls -l")))]);
    assert_eq!(tool_summary("Bash", &bash), "Bash ls -l");
}

#[test]
fn tool_status_and_glyphs() {
    let input = JsonValue::Null;
    assert_eq!(tool_status(&tool("Read", JsonValue::Null, Some(PermissionState::Denied), Some(false))), ToolStatus::Denied);
    assert_eq!(tool_status(&tool("Read", JsonValue::Null, None, Some(true))), ToolStatus::Failed);
    assert_eq!(tool_status(&tool("Read", input, Some(PermissionState::Approved), Some(false))), ToolStatus::Done);
    assert_eq!(tool_status(&tool("Read", JsonValue::Null, Some(PermissionState::Pending), None)), ToolStatus::Running);
    assert_eq!(tool_status_glyph(ToolStatus::Done, false), "\u{2713}");
    assert_eq!(tool_status_glyph(ToolStatus::Running, true), "\u{25cf}");
    assert_eq!(tool_status_glyph(ToolStatus::Running, false), "\u{25cb}");
    assert_eq!(tool_status_glyph(ToolStatus::Failed, false), "!");
}

#[test]
fn edit_diffstat_counts_lines_of_both_sides() {
    let input = obj(vec![("old_string", JsonValue::String(s("a\nb\n"))), ("new_string", JsonValue::String(s("a\nb\nc")))]);
    assert_eq!(edit_diffstat(&tool("Edit", input, None, None)), Some((2, 3)));
    let missing = obj(vec![("old_string", JsonValue::String(s("a")))]);
    assert_eq!(edit_diffstat(&tool("Edit", missing, None, None)), None);
    let empty = obj(vec![("old_string", JsonValue::String(s(""))), ("new_string", JsonValue::String(s("x")))]);
    assert_eq!(edit_diffstat(&tool("Edit", empty, None, None)), Some((0, 1)));
}

fn shape(rows: &[ThreadRow]) -> Vec<String> {
    rows.iter()
        .map(|r| match r {
            ThreadRow::Message(ChatMessage::Operator(t)) => format!("op:{t}"),
            ThreadRow::Message(ChatMessage::Assistant { text, .. }) => format!("as:{text}"),
            ThreadRow::Message(ChatMessage::Tool(t)) => format!("card:{}", t.name),
            ThreadRow::ToolGroup(g) => format!("group:{}", g.iter().map(|t| t.name.as_str()).collect::<Vec<_>>().join(",")),
        })
        .collect()
}

#[test]
fn group_thread_clusters_settled_tool_calls() {
    let msgs = vec![
        ChatMessage::Operator(s("hi")),
        ChatMessage::Tool(tool("Read", JsonValue::Null, None, Some(false))),
        ChatMessage::Tool(tool("Grep", JsonValue::Null, Some(PermissionState::Approved), None)),
        ChatMessage::Tool(tool("Edit", JsonValue::Null, Some(PermissionState::Pending), None)),
        ChatMessage::Tool(tool("Bash", JsonValue::Null, Some(PermissionState::Denied), None)),
        ChatMessage::Assistant { text: s("done"), streaming: false },
        ChatMessage::Tool(tool("Write", JsonValue::Null, None, None)),
    ];
    let rows = group_thread(&msgs);
    assert_eq!(shape(&rows), vec!["op:hi", "group:Read,Grep", "card:Edit", "group:Bash", "as:done", "group:Write"]);
    assert!(group_thread(&[]).is_empty());
}

#[test]
fn presentation_follows_mode_and_active_tab() {
    assert_eq!(current_presentation(ChatMode::Docked, false, &None), Some(ChatPresentation::Docked));
    assert_eq!(current_presentation(ChatMode::Closed, true, &Some(TabKey::Chat)), Some(ChatPresentation::Tab));
    assert_eq!(current_presentation(ChatMode::Closed, false, &Some(TabKey::Chat)), None);
    assert_eq!(current_presentation(ChatMode::Collapsed, true, &Some(TabKey::Search)), None);
}

#[test]
fn scalar_text_matches_json_printing() {
    assert_eq!(scalar_text(&JsonValue::String(s("a\"b"))), "\"a\"b\"");
    assert_eq!(scalar_text(&JsonValue::Number(s("1.5"))), "1.5");
    assert_eq!(scalar_text(&JsonValue::Bool(false)), "false");
    assert_eq!(scalar_text(&JsonValue::Null), "null");
    assert_eq!(scalar_text(&JsonValue::Array(vec![])), "[]");
    let nested = obj(vec![("k\"", JsonValue::Array(vec![JsonValue::Null, JsonValue::String(s("x\ny\u{1}"))]))]);
    assert_eq!(scalar_text(&nested), "{\"k\\\"\":[null,\"x\\ny\\u0001\"]}");
}

fn row(depth: usize, key: Option<&str>, content: JsonRowContent) -> JsonRow {
    JsonRow { depth, key: key.map(s), content }
}

#[test]
fn node_rows_flattens_the_tree_with_paths_and_collapse_state() {
    let value = obj(vec![
        ("a", JsonValue::Number(s("1"))),
        ("list", JsonValue::Array(vec![JsonValue::Bool(true), obj(vec![])])),
        ("m", obj(vec![("x", JsonValue::Null)])),
    ]);
    let mut out = Vec::new();
    node_rows(None, &value, s("root"), &vec![s("root.m")], 0, &mut out);
    let leaf = |d, k: Option<&str>, t: &str, kind| row(d, k, JsonRowContent::Leaf { text: s(t), kind });
    assert_eq!(
        out,
        vec![
            row(0, None, JsonRowContent::Header { path: s("root"), collapsed: false, summary: s("{") }),
            leaf(1, Some("a"), "1", JsonKind::Number),
            row(1, Some("list"), JsonRowContent::Header { path: s("root.list"), collapsed: false, summary: s("[") }),
            leaf(2, None, "true", JsonKind::Bool),
            leaf(2, None, "{}", JsonKind::Container),
            row(1, None, JsonRowContent::Closing { glyph: s("]") }),
            row(1, Some("m"), JsonRowContent::Header { path: s("root.m"), collapsed: true, summary: s("{\u{2026}} 1 keys") }),
            row(0, None, JsonRowContent::Closing { glyph: s("}") }),
        ]
    );
}

#[test]
fn node_rows_keys_array_items_by_index() {
    let value = JsonValue::Array((0..12).map(|i| JsonValue::Number(i.to_string())).collect());
    let mut out = Vec::new();
    node_rows(Some("k"), &value, s("root"), &vec![s("root")], 3, &mut out);
    assert_eq!(
        out,
        vec![row(3, Some("k"), JsonRowContent::Header { path: s("root"), collapsed: true, summary: s("[\u{2026}] 12 items") })]
    );
    let nested = JsonValue::Array((0..12).map(|_| JsonValue::Array(vec![JsonValue::Null])).collect());
    let mut out = Vec::new();
    node_rows(None, &nested, s("root"), &vec![s("root[11]")], 0, &mut out);
    assert_eq!(out[out.len() - 2], row(1, None, JsonRowContent::Header { path: s("root[11]"), collapsed: true, summary: s("[\u{2026}] 1 items") }));
}

#[test]
fn str_field_reads_only_string_entries() {
    let v = obj(vec![("a", JsonValue::String(s("x"))), ("b", JsonValue::Bool(true)), ("a", JsonValue::String(s("y")))]);
    assert_eq!(v.str_field("a"), Some(&s("x")));
    assert_eq!(v.str_field("b"), None);
    assert_eq!(v.str_field("c"), None);
    assert_eq!(JsonValue::String(s("a")).str_field("a"), None);
}

#[test]
fn diff_preview_truncates_long_sides_unless_expanded() {
    let long = "1\n2\n3\n4\n5\n6\n7\n8";
    let (old, new, is_long) = devscribe::chat::diff_preview(long, "x", false);
    assert!(is_long);
    assert_eq!(old, "1\n2\n3\n4\n5\n6\n\u{2026} 2 more lines");
    assert_eq!(new, "x");
    let (old, _, is_long) = devscribe::chat::diff_preview(long, "x", true);
    assert!(is_long);
    assert_eq!(old, long);
    let (old, new, is_long) = devscribe::chat::diff_preview("a", "b", false);
    assert_eq!((old.as_str(), new.as_str(), is_long), ("a", "b", false));
}

#[test]
fn chat_status_line() {
    assert_eq!(chat_status_label(&ChatStatus::Starting, "Scribe", None, 0, 0), "STARTING SCRIBE\u{2026}");
    assert_eq!(
        chat_status_label(&ChatStatus::Unavailable(s("binary not found")), "Scribe", None, 0, 0),
        "UNAVAILABLE \u{2014} binary not found"
    );
    assert_eq!(chat_status_label(&ChatStatus::Ready, "Scribe", None, 12, 340), "scribe \u{2014} 12+340 TOK");
    assert_eq!(
        chat_status_label(&ChatStatus::Ready, "Scribe", Some("model-x"), 1, 2),
        "model-x \u{2014} 1+2 TOK"
    );
    assert_eq!(status_text(&ChatStatus::Starting, "CODEX", "x", 0, 0), "STARTING CODEX\u{2026}");
}

#[test]
fn chat_text_helpers() {
    assert_eq!(streaming_text("Hi", true, true), "Hi\u{258c}");
    assert_eq!(streaming_text("Hi", true, false), "Hi");
    assert_eq!(streaming_text("Hi", false, true), "Hi");
    assert_eq!(selection_lines_label(""), "1 line");
    assert_eq!(selection_lines_label("one"), "1 line");
    assert_eq!(selection_lines_label("a\nb\n"), "2 lines");
    assert_eq!(selection_lines_label("a\r\nb\nc"), "3 lines");
    assert_eq!(input_placeholder(true, "Scribe"), "Ask about this project\u{2026} (Shift+Enter for a new line)");
    assert_eq!(input_placeholder(false, "Scribe"), "Waiting for Scribe to start\u{2026}");
}

#[test]
fn session_picker_filters_titles() {
    let titles = vec![s("Fix the Parser"), s("Write docs"), s("parser tests"), s("Ünïcode")];
    assert_eq!(filter_sessions("", &titles), vec![0, 1, 2, 3]);
    assert_eq!(filter_sessions("   ", &titles), vec![0, 1, 2, 3]);
    assert_eq!(filter_sessions("  PARSER ", &titles), vec![0, 2]);
    assert_eq!(filter_sessions("docs", &titles), vec![1]);
    assert_eq!(filter_sessions("ünï", &titles), Vec::<usize>::new());
    assert_eq!(filter_sessions("Ünï", &titles), vec![3]);
    assert_eq!(filter_sessions("zzz", &titles), Vec::<usize>::new());
    assert_eq!(trim_white("\t a b \n"), "a b");
    assert_eq!(trim_white(" \u{3000}"), "");
    assert_eq!(to_ascii_lower("AbC-Ä"), "abc-Ä");
    assert_eq!(session_list(false, false), SessionList::NoSessions);
    assert_eq!(session_list(true, false), SessionList::NoMatches);
    assert_eq!(session_list(true, true), SessionList::Sessions);
    assert_eq!(session_list_placeholder(SessionList::NoSessions), Some("No past sessions for this project yet"));
    assert_eq!(session_list_placeholder(SessionList::NoMatches), Some("No sessions match your search"));
    assert_eq!(session_list_placeholder(SessionList::Sessions), None);
}

#[test]
fn thread_layout_places_dividers_and_extras() {
    let msgs = vec![
        ChatMessage::Operator(s("hi")),
        ChatMessage::Tool(tool("Read", JsonValue::Null, None, Some(false))),
        ChatMessage::Assistant { text: s("done"), streaming: false },
        ChatMessage::Operator(s("again")),
        ChatMessage::Assistant { text: s("ok"), streaming: true },
    ];
    let rows = group_thread(&msgs);
    assert_eq!(
        thread_layout(&rows, true, true, true),
        vec![ThreadItem::LoadEarlier, ThreadItem::Row(0), ThreadItem::Row(1), ThreadItem::Row(2), ThreadItem::Divider, ThreadItem::Row(3), ThreadItem::Row(4), ThreadItem::Typing, ThreadItem::Continuation]
    );
    assert_eq!(thread_layout(&rows, false, false, false), vec![ThreadItem::Row(0), ThreadItem::Row(1), ThreadItem::Row(2), ThreadItem::Divider, ThreadItem::Row(3), ThreadItem::Row(4)]);
    // an empty transcript gets no continuation links (it shows the empty state)
    assert_eq!(thread_layout(&[], false, false, true), vec![]);
    assert_eq!(thread_layout(&[], false, true, true), vec![ThreadItem::Typing, ThreadItem::Continuation]);
}

#[test]
fn pending_tool_calls_draw_as_permission_cards() {
    assert_eq!(message_view(&ChatMessage::Operator(s("x"))), MessageView::Operator);
    assert_eq!(message_view(&ChatMessage::Assistant { text: s("x"), streaming: false }), MessageView::Assistant);
    let pending = ChatMessage::Tool(tool("Edit", JsonValue::Null, Some(PermissionState::Pending), None));
    assert_eq!(message_view(&pending), MessageView::PermissionCard);
    let approved = ChatMessage::Tool(tool("Edit", JsonValue::Null, Some(PermissionState::Approved), None));
    assert_eq!(message_view(&approved), MessageView::ToolActivity);
    let ungated = ChatMessage::Tool(tool("Read", JsonValue::Null, None, None));
    assert_eq!(message_view(&ungated), MessageView::ToolActivity);
}

#[test]
fn scalar_text_of_a_container_is_serde_json_compact_text() {
    let mut map = serde_json::Map::new();
    map.insert(s("a"), serde_json::Value::Array(vec![serde_json::Value::Bool(true), serde_json::Value::String(s("t\tq\"\u{7f}é"))]));
    map.insert(s("b\\"), serde_json::Value::Null);
    let value = serde_json::Value::Object(map);
    let ours = obj(vec![
        ("a", JsonValue::Array(vec![JsonValue::Bool(true), JsonValue::String(s("t\tq\"\u{7f}é"))])),
        ("b\\", JsonValue::Null),
    ]);
    assert_eq!(scalar_text(&ours), value.to_string());
}
