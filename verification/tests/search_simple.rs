use irclogs::channels::ChannelDir;
use irclogs::channels::LogFileData;
use irclogs::channels::LogStore;
use irclogs::parser::LineKind;
use irclogs::parser::LogFormat;
use irclogs::search::search_channel;

fn fixture() -> (ChannelDir, LogStore) {
    let dir = ChannelDir {
        path: "/logs/#chan".to_string(),
        format: LogFormat::Znc,
        files: vec!["2025-01-01.log".to_string(), "2025-01-02.log".to_string()],
    };
    let store = LogStore {
        files: vec![
            LogFileData {
                path: "/logs/#chan/2025-01-01.log".to_string(),
                lines: vec![
                    "[10:00:00] <alice> shipping the Fix today".to_string(),
                    "[10:00:05] <bob> thanks".to_string(),
                ],
            },
            LogFileData {
                path: "/logs/#chan/2025-01-02.log".to_string(),
                lines: vec!["[09:00:00] <carol> another fix landed".to_string()],
            },
        ],
    };
    (dir, store)
}

#[test]
fn test_search_channel_newest_first_case_insensitive() {
    let (dir, store) = fixture();
    let hits = search_channel(&dir, LogFormat::Znc, "FIX", 10, &store);
    assert_eq!(hits.len(), 2);
    // newest date first
    assert_eq!(hits[0].0, "2025-01-02");
    assert_eq!(hits[1].0, "2025-01-01");
    match &hits[1].1.kind {
        LineKind::Message { nick, text } => {
            assert_eq!(nick, "alice");
            assert_eq!(text, "shipping the Fix today");
        },
        _ => panic!("expected message"),
    }
}

#[test]
fn test_search_channel_limit() {
    let (dir, store) = fixture();
    let hits = search_channel(&dir, LogFormat::Znc, "fix", 1, &store);
    assert_eq!(hits.len(), 1);
    assert_eq!(hits[0].0, "2025-01-02");
}

#[test]
fn test_search_channel_no_hits() {
    let (dir, store) = fixture();
    let hits = search_channel(&dir, LogFormat::Znc, "nothing-like-this", 10, &store);
    assert!(hits.is_empty());
}
