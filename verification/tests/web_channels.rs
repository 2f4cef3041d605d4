use irclogs::channels::Channel;
use irclogs::channels::ChannelDir;
use irclogs::channels::ChannelNode;
use irclogs::channels::channel_dates;
use irclogs::channels::collect_channels;
use irclogs::channels::find_channel_in_tree;
use irclogs::channels::insert_channel;
use irclogs::channels::resolve_log_path;
use irclogs::channels::validate_channel;
use irclogs::config::Config;
use irclogs::config::normalize_base_path;
use irclogs::parser::LogFormat;
use irclogs::web::epoch_days_to_date;
use irclogs::web::is_date_raw;
use irclogs::web::looks_like_date;
use irclogs::web::percent_decode;

fn sample_channel() -> Channel {
    Channel {
        name: "#example".to_string(),
        path_segments: vec!["OFTC".to_string(), "#example".to_string()],
        dirs: vec![ChannelDir {
            path: "/logs/OFTC/#example".to_string(),
            format: LogFormat::Znc,
            files: vec![
                "2025-01-03.log.zst".to_string(),
                "2025-01-01.log".to_string(),
                "notes.txt".to_string(),
                "2025-01-02.log".to_string(),
                "2025-01-02.log.zst".to_string(),
            ],
        }],
    }
}

#[test]
fn test_channel_dates_sorted_unique() {
    let ch = sample_channel();
    assert_eq!(channel_dates(&ch), vec!["2025-01-01", "2025-01-02", "2025-01-03"]);
}

#[test]
fn test_resolve_log_path_prefers_plain() {
    let ch = sample_channel();
    let (path, format) = resolve_log_path(&ch, "2025-01-02").unwrap();
    assert_eq!(path, "/logs/OFTC/#example/2025-01-02.log");
    assert_eq!(format, LogFormat::Znc);
    let (path, _) = resolve_log_path(&ch, "2025-01-03").unwrap();
    assert_eq!(path, "/logs/OFTC/#example/2025-01-03.log.zst");
    assert!(resolve_log_path(&ch, "2025-06-01").is_none());
}

#[test]
fn test_validate_channel_errors() {
    let mut root = ChannelNode::default();
    insert_channel(
        &mut root,
        &vec!["OFTC".to_string(), "#example".to_string()],
        ChannelDir { path: "/x".to_string(), format: LogFormat::Iso8601, files: vec![] },
    );
    insert_channel(
        &mut root,
        &vec!["OFTC".to_string(), "private".to_string()],
        ChannelDir { path: "/y".to_string(), format: LogFormat::Iso8601, files: vec![] },
    );
    assert!(validate_channel("OFTC/#example", &root).is_ok());
    assert_eq!(
        validate_channel("nope/#x", &root).unwrap_err(),
        "unknown channel: nope/#x"
    );
    assert_eq!(
        validate_channel("OFTC", &root).unwrap_err(),
        "not a channel: OFTC"
    );
    assert_eq!(
        validate_channel("OFTC/private", &root).unwrap_err(),
        "channel not accessible: OFTC/private"
    );
}

#[test]
fn test_find_channel_in_tree_key() {
    let mut root = ChannelNode::default();
    insert_channel(
        &mut root,
        &vec!["OFTC".to_string(), "#example".to_string()],
        ChannelDir { path: "/x".to_string(), format: LogFormat::Znc, files: vec![] },
    );
    let segments = vec!["OFTC".to_string(), "#example".to_string()];
    let (key, format) = find_channel_in_tree(&root, &segments, 0).unwrap();
    assert_eq!(key, "OFTC/#example");
    assert_eq!(format, LogFormat::Znc);
    assert!(find_channel_in_tree(&root, &vec!["OFTC".to_string()], 0).is_none());
}

#[test]
fn test_looks_like_date() {
    assert!(looks_like_date("2025-01-02"));
    assert!(!looks_like_date("2025-1-02"));
    assert!(!looks_like_date("20250102"));
    assert!(!looks_like_date("2025-01-0x"));
    assert!(is_date_raw("raw", 2));
    assert!(!is_date_raw("raw", 1));
    assert!(!is_date_raw("today", 2));
}

#[test]
fn test_percent_decode() {
    assert_eq!(percent_decode("OFTC/%23example"), "OFTC/#example");
    assert_eq!(percent_decode("a%2Fb"), "a/b");
    assert_eq!(percent_decode("plain"), "plain");
    assert_eq!(percent_decode("trail%2"), "trail%2");
}

#[test]
fn test_epoch_days_to_date() {
    assert_eq!(epoch_days_to_date(0), "1970-01-01");
    assert_eq!(epoch_days_to_date(19723), "2024-01-01");
    assert_eq!(epoch_days_to_date(20148), "2025-03-01");
}

#[test]
fn test_normalize_base_path() {
    assert_eq!(normalize_base_path(""), "");
    assert_eq!(normalize_base_path("/"), "");
    assert_eq!(normalize_base_path("irc"), "/irc");
    assert_eq!(normalize_base_path("/irc/"), "/irc");
    assert_eq!(normalize_base_path("//a/b//"), "/a/b");
}

#[test]
fn test_config_defaults() {
    let c = Config::default();
    assert_eq!(c.bind, "0.0.0.0:8080");
    assert_eq!(c.title, "IRC Logs");
    assert_eq!(c.search_limit, 10000);
    assert_eq!(c.logs_dirs, vec!["./logs".to_string()]);
    assert!(c.ai.is_none());
}

#[test]
fn test_channel_listing_sorted_by_name() {
    let mut root = ChannelNode::default();
    for name in ["#zeta", "#alpha", "#mid"] {
        insert_channel(
            &mut root,
            &vec!["OFTC".to_string(), name.to_string()],
            ChannelDir {
                path: format!("/logs/OFTC/{name}"),
                format: LogFormat::Znc,
                files: vec!["2025-01-01.log".to_string(), "2025-01-02.log".to_string()],
            },
        );
    }
    let mut out = String::new();
    collect_channels(&root, &mut out);
    let a = out.find("#alpha").unwrap();
    let m = out.find("#mid").unwrap();
    let z = out.find("#zeta").unwrap();
    assert!(a < m && m < z, "channels listed in name order:\n{out}");
    assert!(out.contains("- OFTC/#alpha (2025-01-01 to 2025-01-02, 2 files)\n"));
}
