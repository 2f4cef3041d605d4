use irclogs::parser::LineKind;
use irclogs::parser::LogFormat;
use irclogs::parser::LogLine;
use irclogs::parser::Time;
use irclogs::parser::detect_format;
use irclogs::parser::parse_line;

#[test]
fn test_detect_format() {
    assert_eq!(detect_format("[12:34:56] <nick> hi"), LogFormat::Znc);
    assert_eq!(detect_format("2025-02-01T12:18:17Z <nick> hi"), LogFormat::Iso8601);
}

#[test]
fn test_iso8601_message() {
    let line = "2025-02-01T12:18:17Z <py1hon> hello world";
    let parsed = parse_line(line, LogFormat::Iso8601).unwrap();
    assert_eq!(parsed.time, Time { hour: 12, minute: 18, second: 17 });
    assert_eq!(parsed.kind, LineKind::Message {
        nick: "py1hon".into(),
        text: "hello world".into(),
    });
}

#[test]
fn test_iso8601_action() {
    let line = "2025-02-01T12:18:17Z * py1hon waves";
    let parsed = parse_line(line, LogFormat::Iso8601).unwrap();
    assert_eq!(parsed.kind, LineKind::Action {
        nick: "py1hon".into(),
        text: "waves".into(),
    });
}

#[test]
fn test_znc_message() {
    let line = "[05:06:37] <LordKitsuna> hello world";
    let parsed = parse_line(line, LogFormat::Znc).unwrap();
    assert_eq!(parsed.time, Time { hour: 5, minute: 6, second: 37 });
    assert_eq!(parsed.kind, LineKind::Message {
        nick: "LordKitsuna".into(),
        text: "hello world".into(),
    });
}

#[test]
fn test_znc_join() {
    let line = "[00:07:04] *** Joins: lxdr046342 (~lxdr@51-15-4-54.rev.poneytelecom.eu)";
    let parsed = parse_line(line, LogFormat::Znc).unwrap();
    assert_eq!(parsed.kind, LineKind::Join {
        nick: "lxdr046342".into(),
        userhost: "~lxdr@51-15-4-54.rev.poneytelecom.eu".into(),
    });
}

#[test]
fn test_znc_quit() {
    let line = "[00:06:44] *** Quits: lxdr046342 (~lxdr@51-15-4-54.rev.poneytelecom.eu) (Remote host closed the connection)";
    let parsed = parse_line(line, LogFormat::Znc).unwrap();
    assert_eq!(parsed.kind, LineKind::Quit {
        nick: "lxdr046342".into(),
        userhost: "~lxdr@51-15-4-54.rev.poneytelecom.eu".into(),
        reason: "Remote host closed the connection".into(),
    });
}

#[test]
fn test_znc_part() {
    let line = "[02:28:40] *** Parts: dza (~dza@0002ef68.user.oftc.net) (Connection pool? That's gross. Someone might have peed in that.)";
    let parsed = parse_line(line, LogFormat::Znc).unwrap();
    assert_eq!(parsed.kind, LineKind::Part {
        nick: "dza".into(),
        userhost: "~dza@0002ef68.user.oftc.net".into(),
        reason: "Connection pool? That's gross. Someone might have peed in that.".into(),
    });
}

#[test]
fn test_znc_nick_change() {
    let line = "[04:43:20] *** therobin is now known as Guest2176";
    let parsed = parse_line(line, LogFormat::Znc).unwrap();
    assert_eq!(parsed.kind, LineKind::NickChange {
        old_nick: "therobin".into(),
        new_nick: "Guest2176".into(),
    });
}

#[test]
fn test_znc_action() {
    let line = "[12:34:56] * nick does something";
    let parsed = parse_line(line, LogFormat::Znc).unwrap();
    assert_eq!(parsed.kind, LineKind::Action {
        nick: "nick".into(),
        text: "does something".into(),
    });
}

#[test]
fn test_time_display() {
    let t = Time { hour: 5, minute: 6, second: 7 };
    assert_eq!(t.to_hms(), "05:06:07");
    assert_eq!(t.to_anchor(), "T050607");
}

#[test]
fn test_is_event() {
    let msg = LogLine {
        time: Time { hour: 0, minute: 0, second: 0 },
        kind: LineKind::Message { nick: "a".into(), text: "b".into() },
    };
    assert!(!msg.is_event());

    let join = LogLine {
        time: Time { hour: 0, minute: 0, second: 0 },
        kind: LineKind::Join { nick: "a".into(), userhost: "b".into() },
    };
    assert!(join.is_event());
}

#[test]
fn test_iso8601_url_message() {
    let line = "2026-02-10T00:06:39Z <py1hon> is anyone here a cachyos user? https://discuss.cachyos.org/t/bcachefs-nvme-drive-fstab-no-longer-exists-wont-boot/22666";
    let parsed = parse_line(line, LogFormat::Iso8601).unwrap();
    if let LineKind::Message { nick, text } = &parsed.kind {
        assert_eq!(nick, "py1hon");
        assert!(text.contains("https://"));
    } else {
        panic!("expected message");
    }
}

#[test]
fn test_short_lines_rejected() {
    assert!(parse_line("", LogFormat::Znc).is_none());
    assert!(parse_line("hello", LogFormat::Iso8601).is_none());
    assert!(parse_line("[xx:yy:zz] <a> b", LogFormat::Znc).is_none());
}
