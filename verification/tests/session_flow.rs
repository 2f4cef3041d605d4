use irclogs::channels::ChannelDir;
use irclogs::channels::ChannelNode;
use irclogs::channels::LogFileData;
use irclogs::channels::LogStore;
use irclogs::channels::insert_channel;
use irclogs::parser::LogFormat;
use irclogs::session::Action;
use irclogs::session::ContentBlock;
use irclogs::session::ModelResponse;
use irclogs::session::Session;
use irclogs::session::SseEvent;
use irclogs::tools::CopyInput;
use irclogs::tools::OutputInput;
use irclogs::tools::SearchInput;
use irclogs::tools::ToolInput;

fn fixture() -> (ChannelNode, LogStore) {
    let mut root = ChannelNode::default();
    let segments = vec!["OFTC".to_string(), "#example".to_string()];
    let dir = ChannelDir {
        path: "/logs/OFTC/#example".to_string(),
        format: LogFormat::Iso8601,
        files: vec![
            "2025-01-01.log".to_string(),
            "2025-01-02.log".to_string(),
            "2025-01-03.log".to_string(),
        ],
    };
    insert_channel(&mut root, &segments, dir);
    let mk = |date: &str, lines: &[&str]| LogFileData {
        path: format!("/logs/OFTC/#example/{date}.log"),
        lines: lines.iter().map(|l| l.to_string()).collect(),
    };
    let store = LogStore {
        files: vec![
            mk("2025-01-01", &["calm day", "nothing"]),
            mk("2025-01-02", &["some latency talk", "more detail", "calm"]),
            mk("2025-01-03", &["calm again"]),
        ],
    };
    (root, store)
}

fn tool_use(blocks: Vec<ContentBlock>) -> ModelResponse {
    ModelResponse { stop_reason: "tool_use".to_string(), content: Some(blocks) }
}

fn use_block(id: &str, name: &str, input: ToolInput) -> ContentBlock {
    ContentBlock::ToolUse { id: id.to_string(), name: name.to_string(), input }
}

fn search_block() -> ContentBlock {
    use_block(
        "t1",
        "search",
        ToolInput::Search(SearchInput {
            pattern: Some("latency".to_string()),
            channel: Some("OFTC/#example".to_string()),
            date: None,
            from_date: None,
            to_date: None,
            order: None,
            after: None,
            before: None,
            around: Some(1),
            count_only: None,
            max_results: None,
        }),
    )
}

#[test]
fn test_end_to_end_scenario() {
    let (tree, store) = fixture();
    let mut s = Session::new(
        "find mentions of latency".to_string(),
        String::new(),
        10,
    );
    s.push_query_message();
    let mut all_events: Vec<SseEvent> = Vec::new();

    // turn 1: search
    let r = s.begin_turn(100);
    assert!(matches!(r.action, Action::Request));
    let r = s.handle_response(tool_use(vec![search_block()]), &tree, &store);
    all_events.extend(r.events);
    assert!(matches!(r.action, Action::Continue));

    // turn 2: copy the matched date's lines
    let r = s.begin_turn(200);
    assert!(matches!(r.action, Action::Request));
    let copy = use_block(
        "t2",
        "copy",
        ToolInput::Copy(CopyInput {
            channel: Some("OFTC/#example".to_string()),
            date: Some("2025-01-02".to_string()),
            lines: Some("1-2".to_string()),
        }),
    );
    let r = s.handle_response(tool_use(vec![copy]), &tree, &store);
    all_events.extend(r.events);
    assert!(matches!(r.action, Action::Continue));

    // turn 3: a summary heading
    let r = s.begin_turn(300);
    assert!(matches!(r.action, Action::Request));
    let output = use_block(
        "t3",
        "output",
        ToolInput::Output(OutputInput {
            text: Some("# Latency mentions".to_string()),
            clear: None,
        }),
    );
    let r = s.handle_response(tool_use(vec![output]), &tree, &store);
    all_events.extend(r.events);
    assert!(matches!(r.action, Action::Continue));

    // turn 4: end_turn with trailing text
    let r = s.begin_turn(400);
    assert!(matches!(r.action, Action::Request));
    let resp = ModelResponse {
        stop_reason: "end_turn".to_string(),
        content: Some(vec![ContentBlock::Text("All found mentions are above.".to_string())]),
    };
    let r = s.handle_response(resp, &tree, &store);
    let (filename, content) = match r.action {
        Action::Write { filename, content } => (filename, content),
        other => panic!("expected a write, got {:?}", action_name(&other)),
    };
    assert_eq!(filename, "find-mentions-of-latency.md");
    let artifact = String::from_utf8(content).unwrap();
    let copied = artifact.find("some latency talk").expect("copied lines present");
    let heading = artifact.find("# Latency mentions").expect("heading present");
    let trailing = artifact.find("All found mentions are above.").expect("trailing text present");
    assert!(copied < heading && heading < trailing, "append order kept: {artifact}");

    // the write succeeds: exactly one Done event ends the stream
    let r = s.write_finished(None, &tree, &store);
    all_events.extend(r.events);
    let terminals: Vec<&SseEvent> = all_events
        .iter()
        .filter(|e| matches!(e, SseEvent::Done { .. } | SseEvent::Error(_)))
        .collect();
    assert_eq!(terminals.len(), 1);
    match terminals[0] {
        SseEvent::Done { url, output } => {
            assert_eq!(url, "/ask/output/find-mentions-of-latency.html");
            assert_eq!(output, &artifact);
        },
        _ => panic!("expected Done"),
    }
}

fn action_name(a: &Action) -> &'static str {
    match a {
        Action::Continue => "continue",
        Action::Request => "request",
        Action::Write { .. } => "write",
        Action::Stop => "stop",
    }
}

#[test]
fn test_abort_emits_single_error_and_stops() {
    let (tree, store) = fixture();
    let mut s = Session::new("weather?".to_string(), String::new(), 10);
    s.push_query_message();
    let r = s.begin_turn(10);
    assert!(matches!(r.action, Action::Request));
    let r = s.handle_response(tool_use(vec![use_block("t1", "abort", ToolInput::Abort)]), &tree, &store);
    assert!(matches!(r.action, Action::Stop));
    assert_eq!(r.events.len(), 1);
    match &r.events[0] {
        SseEvent::Error(msg) => assert_eq!(msg, "no relevant results found"),
        _ => panic!("expected the fixed Error"),
    }
    // no further model calls occur
    let r = s.begin_turn(10);
    assert!(matches!(r.action, Action::Stop));
    assert!(r.events.is_empty());
}

#[test]
fn test_failed_write_emits_no_done() {
    let (tree, store) = fixture();
    let mut s = Session::new("find latency".to_string(), String::new(), 10);
    s.push_query_message();
    s.begin_turn(10);
    let done = use_block(
        "t9",
        "done",
        ToolInput::Done(irclogs::tools::DoneInput { title: Some("My Title".to_string()) }),
    );
    let output = use_block(
        "t8",
        "output",
        ToolInput::Output(OutputInput { text: Some("body".to_string()), clear: None }),
    );
    let r = s.handle_response(tool_use(vec![output, done]), &tree, &store);
    assert!(matches!(r.action, Action::Write { .. }));
    let r = s.write_finished(Some("disk full".to_string()), &tree, &store);
    assert!(!r.events.iter().any(|e| matches!(e, SseEvent::Done { .. })));
    let tool_results: Vec<&SseEvent> = r
        .events
        .iter()
        .filter(|e| matches!(e, SseEvent::ToolResult { .. }))
        .collect();
    match tool_results[0] {
        SseEvent::ToolResult { output_preview, .. } => {
            assert_eq!(output_preview, "error writing file: disk full");
        },
        _ => unreachable!(),
    }
}

#[test]
fn test_context_limit_guard() {
    let (_tree, _store) = fixture();
    let mut s = Session::new("q".to_string(), String::new(), 10);
    s.push_query_message();
    let r = s.begin_turn(150_001);
    assert!(matches!(r.action, Action::Stop));
    assert_eq!(r.events.len(), 1);
    match &r.events[0] {
        SseEvent::Error(msg) => assert_eq!(msg, "context limit reached"),
        _ => panic!("expected Error"),
    }
}

#[test]
fn test_budget_exhaustion_is_silent() {
    let (tree, store) = fixture();
    let mut s = Session::new("q".to_string(), String::new(), 1);
    s.push_query_message();
    let r = s.begin_turn(10);
    assert!(matches!(r.action, Action::Request));
    let r = s.handle_response(
        tool_use(vec![use_block(
            "t1",
            "display",
            ToolInput::Display(irclogs::tools::DisplayInput { text: Some("hi".to_string()) }),
        )]),
        &tree,
        &store,
    );
    assert!(matches!(r.action, Action::Continue));
    // the budget is spent: the session just ends, with no terminal event
    let r = s.begin_turn(10);
    assert!(matches!(r.action, Action::Stop));
    assert!(r.events.is_empty());
}

#[test]
fn test_unknown_tool_recoverable() {
    let (tree, store) = fixture();
    let mut s = Session::new("q".to_string(), String::new(), 5);
    s.push_query_message();
    s.begin_turn(10);
    let blk = use_block(
        "t1",
        "frobnicate",
        ToolInput::Unknown { name: "frobnicate".to_string(), raw: "{}".to_string() },
    );
    let r = s.handle_response(tool_use(vec![blk]), &tree, &store);
    assert!(matches!(r.action, Action::Continue));
    let previews: Vec<String> = r
        .events
        .iter()
        .filter_map(|e| match e {
            SseEvent::ToolResult { output_preview, .. } => Some(output_preview.clone()),
            _ => None,
        })
        .collect();
    assert_eq!(previews, vec!["unknown tool: frobnicate".to_string()]);
}

#[test]
fn test_blank_end_turn_reports_no_results() {
    let (tree, store) = fixture();
    let mut s = Session::new("q".to_string(), String::new(), 5);
    s.push_query_message();
    s.begin_turn(10);
    let resp = ModelResponse { stop_reason: "end_turn".to_string(), content: Some(vec![]) };
    let r = s.handle_response(resp, &tree, &store);
    assert!(matches!(r.action, Action::Stop));
    assert_eq!(r.events.len(), 1);
    match &r.events[0] {
        SseEvent::Error(msg) => assert_eq!(msg, "no results found"),
        _ => panic!("expected Error"),
    }
}

#[test]
fn test_unexpected_stop_reason_is_fatal() {
    let (tree, store) = fixture();
    let mut s = Session::new("q".to_string(), String::new(), 5);
    s.push_query_message();
    s.begin_turn(10);
    let resp = ModelResponse { stop_reason: "max_tokens".to_string(), content: None };
    let r = s.handle_response(resp, &tree, &store);
    assert!(matches!(r.action, Action::Stop));
    match &r.events[0] {
        SseEvent::Error(msg) => assert_eq!(msg, "unexpected stop_reason: max_tokens"),
        _ => panic!("expected Error"),
    }
}

#[test]
fn test_cache_marker_on_last_block() {
    let (tree, store) = fixture();
    let mut s = Session::new("q".to_string(), String::new(), 5);
    assert_eq!(s.cache_marker_position(), None);
    s.push_query_message();
    assert_eq!(s.cache_marker_position(), Some((0, 0)));
    s.begin_turn(10);
    s.handle_response(
        tool_use(vec![use_block(
            "t1",
            "display",
            ToolInput::Display(irclogs::tools::DisplayInput { text: None }),
        )]),
        &tree,
        &store,
    );
    // the marker always sits on the last block of the final message
    let (mi, _bi) = s.cache_marker_position().unwrap();
    assert_eq!(mi, s.transcript.len() - 1);
}

#[test]
fn test_abort_then_display_still_runs() {
    let (tree, store) = fixture();
    let mut s = Session::new("q".to_string(), String::new(), 5);
    s.push_query_message();
    s.begin_turn(10);
    let blocks = vec![
        use_block("t1", "abort", ToolInput::Abort),
        use_block(
            "t2",
            "display",
            ToolInput::Display(irclogs::tools::DisplayInput { text: Some("bye".to_string()) }),
        ),
    ];
    let r = s.handle_response(tool_use(blocks), &tree, &store);
    assert!(matches!(r.action, Action::Stop));
    // tools within one turn still execute in order, but at most one
    // terminal event is ever emitted
    let errors = r.events.iter().filter(|e| matches!(e, SseEvent::Error(_))).count();
    let displays = r.events.iter().filter(|e| matches!(e, SseEvent::Display(_))).count();
    assert_eq!(errors, 1);
    assert_eq!(displays, 1);
}

#[test]
fn test_abort_then_done_suppresses_second_terminal() {
    let (tree, store) = fixture();
    let mut s = Session::new("q".to_string(), String::new(), 5);
    s.push_query_message();
    s.begin_turn(10);
    let blocks = vec![
        use_block(
            "t0",
            "output",
            ToolInput::Output(OutputInput { text: Some("body".to_string()), clear: None }),
        ),
        use_block("t1", "abort", ToolInput::Abort),
        use_block(
            "t2",
            "done",
            ToolInput::Done(irclogs::tools::DoneInput { title: Some("T".to_string()) }),
        ),
    ];
    let r = s.handle_response(tool_use(blocks), &tree, &store);
    let mut all = r.events;
    let r = match r.action {
        Action::Write { .. } => s.write_finished(None, &tree, &store),
        _ => panic!("expected the done write"),
    };
    all.extend(r.events);
    let terminals = all
        .iter()
        .filter(|e| matches!(e, SseEvent::Done { .. } | SseEvent::Error(_)))
        .count();
    assert_eq!(terminals, 1, "the abort's Error is the only terminal event");
    assert!(all.iter().any(|e| matches!(e, SseEvent::Error(_))));
    assert!(!all.iter().any(|e| matches!(e, SseEvent::Done { .. })));
}

#[test]
fn test_mid_turn_done_reports_saved_url_and_resumes() {
    let (tree, store) = fixture();
    let mut s = Session::new("q".to_string(), "/base".to_string(), 5);
    s.push_query_message();
    s.begin_turn(10);
    let blocks = vec![
        use_block(
            "t0",
            "output",
            ToolInput::Output(OutputInput { text: Some("body".to_string()), clear: None }),
        ),
        use_block(
            "t1",
            "done",
            ToolInput::Done(irclogs::tools::DoneInput { title: Some("My Title".to_string()) }),
        ),
        use_block(
            "t2",
            "display",
            ToolInput::Display(irclogs::tools::DisplayInput { text: Some("after".to_string()) }),
        ),
    ];
    let r = s.handle_response(tool_use(blocks), &tree, &store);
    let (filename, content) = match r.action {
        Action::Write { filename, content } => (filename, content),
        _ => panic!("expected the done write"),
    };
    assert_eq!(filename, "my-title.md");
    assert_eq!(content, b"body\n".to_vec());
    let r2 = s.write_finished(None, &tree, &store);
    assert!(matches!(r2.action, Action::Stop));
    assert!(r2.events.iter().any(
        |e| matches!(e, SseEvent::Done { url, .. } if url == "/base/ask/output/my-title.html")
    ));
    assert!(r2.events.iter().any(|e| matches!(
        e,
        SseEvent::ToolResult { name, output_preview }
            if name == "done" && output_preview == "saved: /base/ask/output/my-title.html"
    )));
    assert!(r2.events.iter().any(|e| matches!(e, SseEvent::Display(t) if t == "after")));
}
