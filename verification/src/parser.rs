//! The IRC log-line parser: format detection and parsing of ISO-8601
//! and ZNC style lines into typed log records.

use vstd::prelude::*;
use vstd::string::StrSliceExecFns;

use crate::text::digit_char;
use crate::text::digit_val;
use crate::text::first_at_or_after;
use crate::text::is_digit;
use crate::text::is_digit_c;
use crate::text::lemma_first_at_or_after;
use crate::text::spec_digits;
use crate::text::str_chars;
use crate::text::string_push;
use crate::text::push_u64;
use crate::text::starts_with_at;
use crate::text::first_match;
use crate::text::match_here;
use crate::text::find_sub;

verus! {

#[derive(Debug, Clone, Copy, PartialEq, Eq, Structural)]
pub enum LogFormat {
    Iso8601,
    Znc,
}

#[derive(Debug, Clone, Copy, PartialEq, Eq, Structural)]
pub struct Time {
    pub hour: u8,
    pub minute: u8,
    pub second: u8,
}

#[derive(Debug, Clone, PartialEq, Eq)]
pub enum LineKind {
    Message { nick: String, text: String },
    Action { nick: String, text: String },
    Join { nick: String, userhost: String },
    Quit { nick: String, userhost: String, reason: String },
    Part { nick: String, userhost: String, reason: String },
    NickChange { old_nick: String, new_nick: String },
}

#[derive(Debug, Clone, PartialEq, Eq)]
pub struct LogLine {
    pub time: Time,
    pub kind: LineKind,
}

/// The mathematical shape of a parsed line kind.
pub enum LineKindV {
    Message { nick: Seq<char>, text: Seq<char> },
    Action { nick: Seq<char>, text: Seq<char> },
    Join { nick: Seq<char>, userhost: Seq<char> },
    Quit { nick: Seq<char>, userhost: Seq<char>, reason: Seq<char> },
    Part { nick: Seq<char>, userhost: Seq<char>, reason: Seq<char> },
    NickChange { old_nick: Seq<char>, new_nick: Seq<char> },
}

pub struct LogLineV {
    pub time: Time,
    pub kind: LineKindV,
}

impl View for LineKind {
    type V = LineKindV;

    open spec fn view(&self) -> LineKindV {
        match self {
            LineKind::Message { nick, text } => LineKindV::Message { nick: nick@, text: text@ },
            LineKind::Action { nick, text } => LineKindV::Action { nick: nick@, text: text@ },
            LineKind::Join { nick, userhost } => LineKindV::Join {
                nick: nick@,
                userhost: userhost@,
            },
            LineKind::Quit { nick, userhost, reason } => LineKindV::Quit {
                nick: nick@,
                userhost: userhost@,
                reason: reason@,
            },
            LineKind::Part { nick, userhost, reason } => LineKindV::Part {
                nick: nick@,
                userhost: userhost@,
                reason: reason@,
            },
            LineKind::NickChange { old_nick, new_nick } => LineKindV::NickChange {
                old_nick: old_nick@,
                new_nick: new_nick@,
            },
        }
    }
}

impl View for LogLine {
    type V = LogLineV;

    open spec fn view(&self) -> LogLineV {
        LogLineV { time: self.time, kind: self.kind@ }
    }
}

pub open spec fn opt_view(o: Option<LogLine>) -> Option<LogLineV> {
    match o {
        Some(l) => Some(l@),
        None => None,
    }
}

/// What `{:02}` prints: two digits for values below 100, plain digits above.
pub open spec fn two_digits(n: int) -> Seq<char> {
    if n < 10 {
        seq!['0', digit_char(n)]
    } else {
        spec_digits(n as nat)
    }
}

impl Time {
    /// `HH:MM:SS`.
    pub fn to_hms(self) -> (r: String)
        ensures
            r@ == two_digits(self.hour as int) + seq![':'] + two_digits(self.minute as int)
                + seq![':'] + two_digits(self.second as int),
    {
        let mut s = String::new();
        push_two(&mut s, self.hour);
        string_push(&mut s, ':');
        push_two(&mut s, self.minute);
        string_push(&mut s, ':');
        push_two(&mut s, self.second);
        assert(s@ =~= two_digits(self.hour as int) + seq![':'] + two_digits(self.minute as int)
            + seq![':'] + two_digits(self.second as int));
        s
    }

    /// `THHMMSS`, an HTML anchor for the line.
    pub fn to_anchor(self) -> (r: String)
        ensures
            r@ == seq!['T'] + two_digits(self.hour as int) + two_digits(self.minute as int)
                + two_digits(self.second as int),
    {
        let mut s = String::new();
        string_push(&mut s, 'T');
        push_two(&mut s, self.hour);
        push_two(&mut s, self.minute);
        push_two(&mut s, self.second);
        assert(s@ =~= seq!['T'] + two_digits(self.hour as int) + two_digits(self.minute as int)
            + two_digits(self.second as int));
        s
    }
}

fn push_two(s: &mut String, n: u8)
    ensures
        final(s)@ == old(s)@ + two_digits(n as int),
{
    if n < 10 {
        string_push(s, '0');
        string_push(s, digit_char_c(n));
        assert(s@ =~= old(s)@ + two_digits(n as int));
    } else {
        push_u64(s, n as u64);
    }
}

fn digit_char_c(n: u8) -> (c: char)
    requires
        n < 10,
    ensures
        c == digit_char(n as int),
{
    (48 + n) as char
}

impl LogLine {
    /// Whether the line is a channel event rather than spoken content.
    pub fn is_event(&self) -> (r: bool)
        ensures
            r == !(self@.kind is Message || self@.kind is Action),
    {
        !matches!(self.kind, LineKind::Message { .. } | LineKind::Action { .. })
    }
}

pub open spec fn spec_detect_format(s: Seq<char>) -> LogFormat {
    if s.len() > 0 && s[0] == '[' {
        LogFormat::Znc
    } else {
        LogFormat::Iso8601
    }
}

/// Guesses the log format from the first line of a file.
pub fn detect_format(first_line: &str) -> (r: LogFormat)
    ensures
        r == spec_detect_format(first_line@),
{
    if first_line.unicode_len() > 0 && first_line.get_char(0) == '[' {
        LogFormat::Znc
    } else {
        LogFormat::Iso8601
    }
}

/// A time parsed from the eight characters at `off`: `HH?MM?SS` with the
/// six digit positions checked, as `"HH".parse()` does.
pub open spec fn spec_parse_time(s: Seq<char>, off: int) -> Option<Time> {
    if off + 8 <= s.len() && is_digit(s[off]) && is_digit(s[off + 1]) && is_digit(s[off + 3])
        && is_digit(s[off + 4]) && is_digit(s[off + 6]) && is_digit(s[off + 7]) {
        Some(
            Time {
                hour: (digit_val(s[off]) * 10 + digit_val(s[off + 1])) as u8,
                minute: (digit_val(s[off + 3]) * 10 + digit_val(s[off + 4])) as u8,
                second: (digit_val(s[off + 6]) * 10 + digit_val(s[off + 7])) as u8,
            },
        )
    } else {
        None
    }
}

fn parse_time_at(v: &Vec<char>, off: usize) -> (r: Option<Time>)
    requires
        off + 8 <= v@.len(),
    ensures
        r == spec_parse_time(v@, off as int),
{
    let n = v.len();
    assert(off + 8 <= n);
    let d0 = v[off];
    let d1 = v[off + 1];
    let d3 = v[off + 3];
    let d4 = v[off + 4];
    let d6 = v[off + 6];
    let d7 = v[off + 7];
    if is_digit_c(d0) && is_digit_c(d1) && is_digit_c(d3) && is_digit_c(d4) && is_digit_c(d6)
        && is_digit_c(d7) {
        let hour = ((d0 as u32 - 48) * 10 + (d1 as u32 - 48)) as u8;
        let minute = ((d3 as u32 - 48) * 10 + (d4 as u32 - 48)) as u8;
        let second = ((d6 as u32 - 48) * 10 + (d7 as u32 - 48)) as u8;
        Some(Time { hour, minute, second })
    } else {
        None
    }
}

/// A `<nick> text` body starting at the `<` at index `i`.
pub open spec fn spec_msg_after(s: Seq<char>, i: int, t: Time) -> Option<LogLineV>
    recommends
        0 <= i < s.len(),
{
    let e = first_at_or_after(s, '>', i + 1);
    if e >= s.len() {
        None
    } else {
        let nick = s.subrange(i + 1, e);
        let text = if e + 1 < s.len() && s[e + 1] == ' ' {
            s.subrange(e + 2, s.len() as int)
        } else {
            s.subrange(e + 1, s.len() as int)
        };
        Some(LogLineV { time: t, kind: LineKindV::Message { nick, text } })
    }
}

/// A `nick text` action body starting at index `i` (after the `* `).
pub open spec fn spec_action_after(s: Seq<char>, i: int, t: Time) -> Option<LogLineV>
    recommends
        0 <= i <= s.len(),
{
    let sp = first_at_or_after(s, ' ', i);
    if sp >= s.len() {
        None
    } else {
        Some(
            LogLineV {
                time: t,
                kind: LineKindV::Action {
                    nick: s.subrange(i, sp),
                    text: s.subrange(sp + 1, s.len() as int),
                },
            },
        )
    }
}

/// A `nick (userhost) (reason)` body starting at `i`, for quits and parts.
pub open spec fn spec_quit_part(s: Seq<char>, i: int, t: Time, is_quit: bool) -> Option<LogLineV>
    recommends
        0 <= i <= s.len(),
{
    let paren = first_match(s, " ("@, i);
    let close = first_at_or_after(s, ')', i);
    if paren >= s.len() || close >= s.len() || close < paren + 2 {
        None
    } else {
        let nick = s.subrange(i, paren);
        let userhost = s.subrange(paren + 2, close);
        let reason = if starts_with_at(s, close + 1, " ("@) {
            if s.len() > close + 3 && s[s.len() - 1] == ')' {
                s.subrange(close + 3, s.len() - 1)
            } else {
                s.subrange(close + 3, s.len() as int)
            }
        } else {
            Seq::<char>::empty()
        };
        if is_quit {
            Some(LogLineV { time: t, kind: LineKindV::Quit { nick, userhost, reason } })
        } else {
            Some(LogLineV { time: t, kind: LineKindV::Part { nick, userhost, reason } })
        }
    }
}

/// A ZNC `***` event body starting at `i`.
pub open spec fn spec_znc_event(s: Seq<char>, i: int, t: Time) -> Option<LogLineV>
    recommends
        0 <= i <= s.len(),
{
    if starts_with_at(s, i, "Joins: "@) {
        let j = i + 7;
        let paren = first_match(s, " ("@, j);
        let close = first_at_or_after(s, ')', j);
        if paren >= s.len() || close >= s.len() || close < paren + 2 {
            None
        } else {
            Some(
                LogLineV {
                    time: t,
                    kind: LineKindV::Join {
                        nick: s.subrange(j, paren),
                        userhost: s.subrange(paren + 2, close),
                    },
                },
            )
        }
    } else if starts_with_at(s, i, "Quits: "@) {
        spec_quit_part(s, i + 7, t, true)
    } else if starts_with_at(s, i, "Parts: "@) {
        spec_quit_part(s, i + 7, t, false)
    } else {
        let p = first_match(s, " is now known as "@, i);
        if p >= s.len() {
            None
        } else {
            Some(
                LogLineV {
                    time: t,
                    kind: LineKindV::NickChange {
                        old_nick: s.subrange(i, p),
                        new_nick: s.subrange(p + 17, s.len() as int),
                    },
                },
            )
        }
    }
}

/// An ISO-8601 line: `YYYY-MM-DDTHH:MM:SSZ ` then a message or action.
pub open spec fn spec_parse_iso(s: Seq<char>) -> Option<LogLineV> {
    if s.len() < 21 {
        None
    } else {
        match spec_parse_time(s, 11) {
            None => None,
            Some(t) => {
                if 21 < s.len() && s[21] == '<' {
                    spec_msg_after(s, 21, t)
                } else if starts_with_at(s, 21, "* "@) {
                    spec_action_after(s, 23, t)
                } else {
                    None
                }
            },
        }
    }
}

/// A ZNC line: `[HH:MM:SS] ` then a message, `***` event, or action.
pub open spec fn spec_parse_znc(s: Seq<char>) -> Option<LogLineV> {
    if s.len() < 11 || s[0] != '[' {
        None
    } else {
        match spec_parse_time(s, 1) {
            None => None,
            Some(t) => {
                if 11 < s.len() && s[11] == '<' {
                    spec_msg_after(s, 11, t)
                } else if starts_with_at(s, 11, "*** "@) {
                    spec_znc_event(s, 15, t)
                } else if starts_with_at(s, 11, "* "@) {
                    spec_action_after(s, 13, t)
                } else {
                    None
                }
            },
        }
    }
}

pub open spec fn spec_parse_line(s: Seq<char>, format: LogFormat) -> Option<LogLineV> {
    match format {
        LogFormat::Iso8601 => spec_parse_iso(s),
        LogFormat::Znc => spec_parse_znc(s),
    }
}

fn msg_after(line: &str, v: &Vec<char>, i: usize, t: Time) -> (r: Option<LogLine>)
    requires
        v@ == line@,
        i < v@.len(),
    ensures
        opt_view(r) == spec_msg_after(v@, i as int, t),
{
    let n = v.len();
    let e = crate::text::find_char_from(v, '>', i + 1);
    proof {
        lemma_first_at_or_after(v@, '>', i + 1);
    }
    if e >= n {
        return None;
    }
    let nick = line.substring_char(i + 1, e).to_owned();
    let text = if e + 1 < n && v[e + 1] == ' ' {
        line.substring_char(e + 2, n).to_owned()
    } else {
        line.substring_char(e + 1, n).to_owned()
    };
    Some(LogLine { time: t, kind: LineKind::Message { nick, text } })
}

fn action_after(line: &str, v: &Vec<char>, i: usize, t: Time) -> (r: Option<LogLine>)
    requires
        v@ == line@,
        i <= v@.len(),
    ensures
        opt_view(r) == spec_action_after(v@, i as int, t),
{
    let n = v.len();
    let sp = crate::text::find_char_from(v, ' ', i);
    proof {
        lemma_first_at_or_after(v@, ' ', i as int);
    }
    if sp >= n {
        return None;
    }
    let nick = line.substring_char(i, sp).to_owned();
    let text = line.substring_char(sp + 1, n).to_owned();
    Some(LogLine { time: t, kind: LineKind::Action { nick, text } })
}

fn quit_or_part(line: &str, v: &Vec<char>, i: usize, t: Time, is_quit: bool) -> (r: Option<
    LogLine,
>)
    requires
        v@ == line@,
        i <= v@.len(),
    ensures
        opt_view(r) == spec_quit_part(v@, i as int, t, is_quit),
{
    let n = v.len();
    let paren = find_sub(v, " (", i);
    let close = crate::text::find_char_from(v, ')', i);
    proof {
        lemma_first_at_or_after(v@, ')', i as int);
    }
    if paren >= n || close >= n || close < paren || close - paren < 2 {
        return None;
    }
    let nick = line.substring_char(i, paren).to_owned();
    let userhost = line.substring_char(paren + 2, close).to_owned();
    let reason = if match_here(v, " (", close + 1) {
        proof {
            reveal_strlit(" (");
        }
        if n - close > 3 && v[n - 1] == ')' {
            line.substring_char(close + 3, n - 1).to_owned()
        } else {
            line.substring_char(close + 3, n).to_owned()
        }
    } else {
        String::new()
    };
    let kind = if is_quit {
        LineKind::Quit { nick, userhost, reason }
    } else {
        LineKind::Part { nick, userhost, reason }
    };
    Some(LogLine { time: t, kind })
}

fn znc_event(line: &str, v: &Vec<char>, i: usize, t: Time) -> (r: Option<LogLine>)
    requires
        v@ == line@,
        i <= v@.len(),
    ensures
        opt_view(r) == spec_znc_event(v@, i as int, t),
{
    let n = v.len();
    if match_here(v, "Joins: ", i) {
        proof {
            reveal_strlit("Joins: ");
        }
        let j = i + 7;
        let paren = find_sub(v, " (", j);
        let close = crate::text::find_char_from(v, ')', j);
        proof {
            lemma_first_at_or_after(v@, ')', j as int);
        }
        if paren >= n || close >= n || close < paren || close - paren < 2 {
            return None;
        }
        let nick = line.substring_char(j, paren).to_owned();
        let userhost = line.substring_char(paren + 2, close).to_owned();
        Some(LogLine { time: t, kind: LineKind::Join { nick, userhost } })
    } else if match_here(v, "Quits: ", i) {
        proof {
            reveal_strlit("Quits: ");
        }
        quit_or_part(line, v, i + 7, t, true)
    } else if match_here(v, "Parts: ", i) {
        proof {
            reveal_strlit("Parts: ");
        }
        quit_or_part(line, v, i + 7, t, false)
    } else {
        let p = find_sub(v, " is now known as ", i);
        if p >= n {
            return None;
        }
        proof {
            reveal_strlit(" is now known as ");
        }
        let old_nick = line.substring_char(i, p).to_owned();
        let new_nick = line.substring_char(p + 17, n).to_owned();
        Some(LogLine { time: t, kind: LineKind::NickChange { old_nick, new_nick } })
    }
}

fn parse_iso8601(line: &str, v: &Vec<char>) -> (r: Option<LogLine>)
    requires
        v@ == line@,
    ensures
        opt_view(r) == spec_parse_iso(v@),
{
    let n = v.len();
    if n < 21 {
        return None;
    }
    let t = match parse_time_at(v, 11) {
        Some(t) => t,
        None => {
            return None;
        },
    };
    if 21 < n && v[21] == '<' {
        msg_after(line, v, 21, t)
    } else if match_here(v, "* ", 21) {
        proof {
            reveal_strlit("* ");
        }
        action_after(line, v, 23, t)
    } else {
        None
    }
}

fn parse_znc(line: &str, v: &Vec<char>) -> (r: Option<LogLine>)
    requires
        v@ == line@,
    ensures
        opt_view(r) == spec_parse_znc(v@),
{
    let n = v.len();
    if n < 11 || v[0] != '[' {
        return None;
    }
    let t = match parse_time_at(v, 1) {
        Some(t) => t,
        None => {
            return None;
        },
    };
    if 11 < n && v[11] == '<' {
        msg_after(line, v, 11, t)
    } else if match_here(v, "*** ", 11) {
        proof {
            reveal_strlit("*** ");
        }
        znc_event(line, v, 15, t)
    } else if match_here(v, "* ", 11) {
        proof {
            reveal_strlit("* ");
        }
        action_after(line, v, 13, t)
    } else {
        None
    }
}

/// Parses a log line in the given format.  `None` for lines that do not
/// follow the format.
pub fn parse_line(line: &str, format: LogFormat) -> (r: Option<LogLine>)
    ensures
        opt_view(r) == spec_parse_line(line@, format),
{
    let v = str_chars(line);
    match format {
        LogFormat::Iso8601 => parse_iso8601(line, &v),
        LogFormat::Znc => parse_znc(line, &v),
    }
}

} // verus!
