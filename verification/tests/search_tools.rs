use irclogs::channels::ChannelDir;
use irclogs::channels::ChannelNode;
use irclogs::channels::LogFileData;
use irclogs::channels::LogStore;
use irclogs::channels::insert_channel;
use irclogs::parser::LogFormat;
use irclogs::tools::SearchInput;
use irclogs::tools::CopyInput;
use irclogs::tools::OutputInput;
use irclogs::tools::execute_copy;
use irclogs::tools::execute_output;
use irclogs::tools::execute_search;
use irclogs::tools::build_tool_definitions;
use irclogs::buffer::OutputBuffer;

fn tree_with_channel(files: Vec<String>) -> ChannelNode {
    let mut root = ChannelNode::default();
    let segments = vec!["OFTC".to_string(), "#example".to_string()];
    let dir = ChannelDir {
        path: "/logs/OFTC/#example".to_string(),
        format: LogFormat::Iso8601,
        files,
    };
    insert_channel(&mut root, &segments, dir);
    root
}

fn store_for(date: &str, lines: &[&str]) -> LogStore {
    LogStore {
        files: vec![LogFileData {
            path: format!("/logs/OFTC/#example/{date}.log"),
            lines: lines.iter().map(|l| l.to_string()).collect(),
        }],
    }
}

fn search_input(pattern: &str, around: Option<u64>) -> SearchInput {
    SearchInput {
        pattern: Some(pattern.to_string()),
        channel: Some("OFTC/#example".to_string()),
        date: None,
        from_date: None,
        to_date: None,
        order: None,
        after: None,
        before: None,
        around,
        count_only: None,
        max_results: None,
    }
}

#[test]
fn test_search_context_union_contiguous() {
    // matches at lines 10 and 12 (1-based) with C=1: windows {9..11} and
    // {11..13} merge into one contiguous run with no "--" separator
    let mut lines: Vec<&str> = vec!["quiet"; 20];
    lines[9] = "latency spike";
    lines[11] = "latency again";
    let tree = tree_with_channel(vec!["2025-01-02.log".to_string()]);
    let store = store_for("2025-01-02", &lines);
    let out = execute_search(&search_input("latency", Some(1)), &tree, &store);
    assert!(out.contains("--- OFTC/#example 2025-01-02 (2 matches) ---"));
    assert!(!out.contains("\n--\n"), "windows overlap: no separator expected, got:\n{out}");
    for n in [9, 10, 11, 12, 13] {
        assert!(out.contains(&format!("{:>5}: ", n)), "line {n} missing:\n{out}");
    }
    assert!(!out.contains(&format!("{:>5}: ", 8)));
    assert!(!out.contains(&format!("{:>5}: ", 14)));
}

#[test]
fn test_search_context_two_runs() {
    // matches at lines 5 and 50 with C=1: two runs separated by "--"
    let mut lines: Vec<&str> = vec!["quiet"; 60];
    lines[4] = "latency one";
    lines[49] = "latency two";
    let tree = tree_with_channel(vec!["2025-01-02.log".to_string()]);
    let store = store_for("2025-01-02", &lines);
    let out = execute_search(&search_input("latency", Some(1)), &tree, &store);
    assert!(out.contains("\n--\n"), "expected a separator between runs:\n{out}");
}

#[test]
fn test_search_validation_errors() {
    let tree = tree_with_channel(vec!["2025-01-02.log".to_string()]);
    let store = store_for("2025-01-02", &["hello"]);
    let mut input = search_input("x", None);
    input.pattern = None;
    assert_eq!(execute_search(&input, &tree, &store), "error: pattern is required");
    let mut input = search_input("x", None);
    input.channel = None;
    assert_eq!(execute_search(&input, &tree, &store), "error: channel is required");
    let mut input = search_input("x", None);
    input.channel = Some("nowhere/#nope".to_string());
    assert_eq!(execute_search(&input, &tree, &store), "unknown channel: nowhere/#nope");
    let input = search_input("(unclosed", None);
    assert!(execute_search(&input, &tree, &store).starts_with("invalid regex: "));
}

#[test]
fn test_search_no_matches() {
    let tree = tree_with_channel(vec!["2025-01-02.log".to_string()]);
    let store = store_for("2025-01-02", &["nothing here"]);
    let out = execute_search(&search_input("latency", None), &tree, &store);
    assert_eq!(out, "no matches for \"latency\" in OFTC/#example");
}

#[test]
fn test_search_count_mode() {
    let tree = tree_with_channel(vec!["2025-01-02.log".to_string()]);
    let store = store_for("2025-01-02", &["latency a", "calm", "latency b"]);
    let mut input = search_input("latency", None);
    input.count_only = Some(true);
    let out = execute_search(&input, &tree, &store);
    assert_eq!(out, "2025-01-02: 2 matches\ntotal: 2 matches across 1 dates scanned");
}

#[test]
fn test_search_case_insensitive() {
    let tree = tree_with_channel(vec!["2025-01-02.log".to_string()]);
    let store = store_for("2025-01-02", &["LATENCY HERE"]);
    let out = execute_search(&search_input("latency", None), &tree, &store);
    assert!(out.contains("LATENCY HERE"), "{out}");
}

#[test]
fn test_copy_lines_into_buffer() {
    let tree = tree_with_channel(vec!["2025-01-02.log".to_string()]);
    let store = store_for("2025-01-02", &["first", "second", "third", "fourth"]);
    let mut buf = OutputBuffer::new();
    let input = CopyInput {
        channel: Some("OFTC/#example".to_string()),
        date: Some("2025-01-02".to_string()),
        lines: Some("2-3,9".to_string()),
    };
    let res = execute_copy(&input, &tree, &store, &mut buf);
    // line 9 is out of range and silently skipped
    assert_eq!(res, "copied 2 lines");
    assert_eq!(buf.as_string(), "--- OFTC/#example 2025-01-02 ---\nsecond\nthird\n");
}

#[test]
fn test_copy_validation_errors() {
    let tree = tree_with_channel(vec!["2025-01-02.log".to_string()]);
    let store = store_for("2025-01-02", &["x"]);
    let mut buf = OutputBuffer::new();
    let input = CopyInput { channel: None, date: None, lines: None };
    assert_eq!(execute_copy(&input, &tree, &store, &mut buf), "error: channel is required");
    let input = CopyInput {
        channel: Some("OFTC/#example".to_string()),
        date: Some("bad".to_string()),
        lines: None,
    };
    assert_eq!(execute_copy(&input, &tree, &store, &mut buf), "error: date (YYYY-MM-DD) is required");
    let input = CopyInput {
        channel: Some("OFTC/#example".to_string()),
        date: Some("2025-01-03".to_string()),
        lines: Some("1".to_string()),
    };
    assert_eq!(
        execute_copy(&input, &tree, &store, &mut buf),
        "no log for 2025-01-03 in OFTC/#example"
    );
    assert_eq!(buf.byte_len(), 0);
}

#[test]
fn test_copy_forwards_channel_and_linespec_errors() {
    let tree = tree_with_channel(vec!["2025-01-02.log".to_string()]);
    let store = store_for("2025-01-02", &["x"]);
    let mut buf = OutputBuffer::new();
    let input = CopyInput {
        channel: Some("nowhere/#nope".to_string()),
        date: Some("2025-01-02".to_string()),
        lines: Some("1".to_string()),
    };
    assert_eq!(execute_copy(&input, &tree, &store, &mut buf), "unknown channel: nowhere/#nope");
    let input = CopyInput {
        channel: Some("OFTC/#example".to_string()),
        date: Some("2025-01-02".to_string()),
        lines: Some("30-20".to_string()),
    };
    assert_eq!(execute_copy(&input, &tree, &store, &mut buf), "invalid range: 30-20");
    let input = CopyInput {
        channel: Some("OFTC/#example".to_string()),
        date: Some("2025-01-02".to_string()),
        lines: Some("5a".to_string()),
    };
    assert_eq!(
        execute_copy(&input, &tree, &store, &mut buf),
        "invalid line spec: only digits, commas, and hyphens allowed"
    );
    assert_eq!(buf.byte_len(), 0);
}

#[test]
fn test_output_append_and_clear() {
    let mut buf = OutputBuffer::new();
    let input = OutputInput { text: Some("# Heading".to_string()), clear: None };
    assert_eq!(execute_output(&input, &mut buf), "ok");
    assert_eq!(buf.as_string(), "# Heading\n");
    let input = OutputInput { text: Some("fresh".to_string()), clear: Some(true) };
    assert_eq!(execute_output(&input, &mut buf), "ok");
    assert_eq!(buf.as_string(), "fresh\n");
}

#[test]
fn test_tool_definitions_shape() {
    let defs = build_tool_definitions();
    let names: Vec<&str> = defs.iter().map(|d| d.name.as_str()).collect();
    assert_eq!(names, vec!["search", "copy", "output", "done", "display", "abort"]);
    assert_eq!(defs[0].required, vec!["pattern".to_string(), "channel".to_string()]);
    assert_eq!(defs[0].params.len(), 11);
    assert_eq!(defs[5].params.len(), 0);
}
