//! The channel tree: discovered channels, their log directories and
//! dated files, lookup by path, and the snapshot of log contents that
//! the search tools read.

use vstd::prelude::*;
use vstd::string::StrSliceExecFns;
use vstd::string::StringExecFns;

use crate::parser::LogFormat;
use crate::text::contains_str;
use crate::text::insert_sorted_str;
use crate::text::lemma_lex_antisym;
use crate::text::lex_lt;
use crate::text::match_here;
use crate::text::split_parts;
use crate::text::split_str;
use crate::text::starts_with_at;
use crate::text::str_chars;
use crate::text::str_eq;
use crate::text::strings_sorted;
use crate::text::string_push;
use crate::web::today_date;
use crate::web::spec_epoch_date;

verus! {

/// One directory holding dated log files for a channel.
#[derive(Debug, Clone)]
pub struct ChannelDir {
    pub path: String,
    pub format: LogFormat,
    /// The file names present in the directory.
    pub files: Vec<String>,
}

#[derive(Debug, Clone)]
pub struct Channel {
    pub name: String,
    pub path_segments: Vec<String>,
    pub dirs: Vec<ChannelDir>,
}

/// A node of the channel tree; children are kept in insertion order.
#[derive(Debug)]
pub struct ChannelNode {
    pub channel: Option<Channel>,
    pub children: Vec<(String, ChannelNode)>,
}

impl Default for ChannelNode {
    fn default() -> (r: ChannelNode)
        ensures
            r.channel is None,
            r.children@.len() == 0,
    {
        ChannelNode { channel: None, children: Vec::new() }
    }
}

pub open spec fn seg_views(s: Seq<String>) -> Seq<Seq<char>> {
    s.map_values(|x: String| x@)
}

/// Index of the first child named `name`, or the child count.
pub open spec fn child_idx(children: Seq<(String, ChannelNode)>, name: Seq<char>, j: int) -> int
    recommends
        0 <= j <= children.len(),
    decreases children.len() - j when 0 <= j <= children.len()
{
    if j >= children.len() {
        children.len() as int
    } else if children[j].0@ == name {
        j
    } else {
        child_idx(children, name, j + 1)
    }
}

pub proof fn lemma_child_idx(children: Seq<(String, ChannelNode)>, name: Seq<char>, j: int)
    requires
        0 <= j <= children.len(),
    ensures
        j <= child_idx(children, name, j) <= children.len(),
        child_idx(children, name, j) < children.len() ==> children[child_idx(
            children,
            name,
            j,
        )].0@ == name,
    decreases children.len() - j,
{
    if j < children.len() && children[j].0@ != name {
        lemma_child_idx(children, name, j + 1);
    }
}

pub open spec fn find_child(node: ChannelNode, name: Seq<char>) -> Option<ChannelNode> {
    let k = child_idx(node.children@, name, 0);
    if k < node.children@.len() {
        Some(node.children@[k].1)
    } else {
        None
    }
}

fn get_child_from<'a>(children: &'a Vec<(String, ChannelNode)>, name: &str, j: usize) -> (r: Option<
    &'a ChannelNode,
>)
    requires
        j <= children@.len(),
    ensures
        ({
            let k = child_idx(children@, name@, j as int);
            match r {
                Some(c) => k < children@.len() && *c == children@[k].1,
                None => k == children@.len(),
            }
        }),
    decreases children@.len() - j,
{
    if j >= children.len() {
        None
    } else if str_eq(children[j].0.as_str(), name) {
        Some(&children[j].1)
    } else {
        get_child_from(children, name, j + 1)
    }
}

/// The node reached by following `segs[i..]` from `node`.
pub open spec fn spec_find_node(node: ChannelNode, segs: Seq<Seq<char>>, i: int) -> Option<
    ChannelNode,
>
    recommends
        0 <= i <= segs.len(),
    decreases segs.len() - i when 0 <= i <= segs.len()
{
    if i >= segs.len() {
        Some(node)
    } else {
        match find_child(node, segs[i]) {
            Some(c) => spec_find_node(c, segs, i + 1),
            None => None,
        }
    }
}

fn find_node<'a>(node: &'a ChannelNode, segs: &Vec<String>, i: usize) -> (r: Option<
    &'a ChannelNode,
>)
    requires
        i <= segs@.len(),
    ensures
        match r {
            Some(nd) => spec_find_node(*node, seg_views(segs@), i as int) == Some(*nd),
            None => spec_find_node(*node, seg_views(segs@), i as int) is None,
        },
    decreases segs@.len() - i,
{
    if i >= segs.len() {
        Some(node)
    } else {
        match get_child_from(&node.children, segs[i].as_str(), 0) {
            Some(c) => find_node(c, segs, i + 1),
            None => None,
        }
    }
}

/// Finds the channel at a path of segments, if that exact node holds one.
pub fn find_channel<'a>(node: &'a ChannelNode, segments: &Vec<String>) -> (r: Option<&'a Channel>)
    ensures
        ({
            let f = spec_find_node(*node, seg_views(segments@), 0);
            match r {
                Some(c) => f is Some && f.unwrap().channel == Some(*c),
                None => f is None || f.unwrap().channel is None,
            }
        }),
{
    match find_node(node, segments, 0) {
        Some(nd) => {
            match &nd.channel {
                Some(c) => Some(c),
                None => None,
            }
        },
        None => None,
    }
}

/// Resolves a `a/b/#chan` path to its channel.  Rejects paths that lead
/// nowhere, to a bare directory node, or to a channel whose name does
/// not begin with `#`.
pub fn validate_channel<'a>(channel_path: &str, channels: &'a ChannelNode) -> (r: Result<
    &'a Channel,
    String,
>)
    ensures
        ({
            let f = spec_find_node(*channels, split_parts(channel_path@, '/'), 0);
            match r {
                Ok(ch) => {
                    &&& f is Some
                    &&& f.unwrap().channel == Some(*ch)
                    &&& ch.name@.len() > 0
                    &&& ch.name@[0] == '#'
                },
                Err(e) => {
                    &&& (f is None ==> e@ == "unknown channel: "@ + channel_path@)
                    &&& (f is Some && f.unwrap().channel is None ==> e@ == "not a channel: "@
                        + channel_path@)
                    &&& (f is Some && f.unwrap().channel is Some ==> {
                        let c = f.unwrap().channel.unwrap();
                        &&& (c.name@.len() == 0 || c.name@[0] != '#')
                        &&& e@ == "channel not accessible: "@ + channel_path@
                    })
                },
            }
        }),
{
    let segments = split_str(channel_path, '/');
    proof {
        assert(seg_views(segments@) =~= split_parts(channel_path@, '/'));
    }
    match find_node(channels, &segments, 0) {
        Some(nd) => {
            match &nd.channel {
                Some(ch) => {
                    if ch.name.as_str().unicode_len() > 0 && ch.name.as_str().get_char(0) == '#' {
                        Ok(ch)
                    } else {
                        let mut e = String::from_str("channel not accessible: ");
                        e.append(channel_path);
                        Err(e)
                    }
                },
                None => {
                    let mut e = String::from_str("not a channel: ");
                    e.append(channel_path);
                    Err(e)
                },
            }
        },
        None => {
            let mut e = String::from_str("unknown channel: ");
            e.append(channel_path);
            Err(e)
        },
    }
}

/// The date a log file name carries: the stem of `NNNN-NN-NN.log` or
/// `NNNN-NN-NN.log.zst` when that stem has ten characters.
pub open spec fn date_of_file(s: Seq<char>) -> Option<Seq<char>> {
    if s.len() >= 4 && starts_with_at(s, s.len() - 4, ".log"@) {
        if s.len() - 4 == 10 {
            Some(s.take(10))
        } else {
            None
        }
    } else if s.len() >= 8 && starts_with_at(s, s.len() - 8, ".log.zst"@) {
        if s.len() - 8 == 10 {
            Some(s.take(10))
        } else {
            None
        }
    } else {
        None
    }
}

pub fn file_date(name: &str) -> (r: Option<String>)
    ensures
        match r {
            Some(d) => date_of_file(name@) == Some(d@),
            None => date_of_file(name@) is None,
        },
{
    let v = str_chars(name);
    let n = v.len();
    if n >= 4 && match_here(&v, ".log", n - 4) {
        if n - 4 == 10 {
            Some(name.substring_char(0, 10).to_owned())
        } else {
            None
        }
    } else if n >= 8 && match_here(&v, ".log.zst", n - 8) {
        if n - 8 == 10 {
            Some(name.substring_char(0, 10).to_owned())
        } else {
            None
        }
    } else {
        None
    }
}

/// The channel has a log file for date `d` in some directory.
pub open spec fn channel_has_date(ch: Channel, d: Seq<char>) -> bool {
    exists|i: int, j: int|
        0 <= i < ch.dirs@.len() && 0 <= j < ch.dirs@[i].files@.len() && date_of_file(
            #[trigger] ch.dirs@[i].files@[j]@,
        ) == Some(d)
}

/// `q` is the ascending list of the channel's distinct dates.
pub open spec fn sorted_dates_of(ch: Channel, q: Seq<Seq<char>>) -> bool {
    &&& (forall|i: int, j: int| 0 <= i < j < q.len() ==> lex_lt(#[trigger] q[i], #[trigger] q[j]))
    &&& (forall|d: Seq<char>| #[trigger] q.contains(d) <==> channel_has_date(ch, d))
}

/// The ascending list of the channel's dates (well defined: at most one
/// list satisfies `sorted_dates_of`).
pub open spec fn spec_channel_dates(ch: Channel) -> Seq<Seq<char>> {
    choose|q: Seq<Seq<char>>| sorted_dates_of(ch, q)
}

pub proof fn lemma_sorted_unique(a: Seq<Seq<char>>, b: Seq<Seq<char>>)
    requires
        forall|i: int, j: int| 0 <= i < j < a.len() ==> lex_lt(#[trigger] a[i], #[trigger] a[j]),
        forall|i: int, j: int| 0 <= i < j < b.len() ==> lex_lt(#[trigger] b[i], #[trigger] b[j]),
        forall|d: Seq<char>| #[trigger] a.contains(d) <==> b.contains(d),
    ensures
        a == b,
    decreases a.len(),
{
    if a.len() == 0 {
        if b.len() > 0 {
            assert(b.contains(b[0]));
            assert(a.contains(b[0]));
            let i = choose|i: int| 0 <= i < a.len() && a[i] == b[0];
            assert(false);
        }
        assert(a =~= b);
    } else {
        assert(a.contains(a[0]));
        assert(b.contains(a[0]));
        let k = choose|k: int| 0 <= k < b.len() && b[k] == a[0];
        assert(b.contains(b[0]));
        assert(a.contains(b[0]));
        let m = choose|m: int| 0 <= m < a.len() && a[m] == b[0];
        if k > 0 {
            assert(lex_lt(b[0], b[k]));
            if m > 0 {
                assert(lex_lt(a[0], a[m]));
                lemma_lex_antisym(a[0], b[0]);
            }
        }
        assert(a[0] == b[0]);
        let at = a.drop_first();
        let bt = b.drop_first();
        assert forall|d: Seq<char>| #[trigger] at.contains(d) <==> bt.contains(d) by {
            if at.contains(d) {
                let i = choose|i: int| 0 <= i < at.len() && at[i] == d;
                assert(a[i + 1] == d);
                assert(lex_lt(a[0], d));
                assert(a.contains(d));
                assert(b.contains(d));
                let j = choose|j: int| 0 <= j < b.len() && b[j] == d;
                if j == 0 {
                    lemma_lex_antisym(a[0], d);
                }
                assert(bt[j - 1] == d);
            }
            if bt.contains(d) {
                let i = choose|i: int| 0 <= i < bt.len() && bt[i] == d;
                assert(b[i + 1] == d);
                assert(lex_lt(b[0], d));
                assert(b.contains(d));
                assert(a.contains(d));
                let j = choose|j: int| 0 <= j < a.len() && a[j] == d;
                if j == 0 {
                    lemma_lex_antisym(b[0], d);
                }
                assert(at[j - 1] == d);
            }
        }
        assert forall|i: int, j: int| 0 <= i < j < at.len() implies lex_lt(
            #[trigger] at[i],
            #[trigger] at[j],
        ) by {
            assert(at[i] == a[i + 1] && at[j] == a[j + 1]);
        }
        assert forall|i: int, j: int| 0 <= i < j < bt.len() implies lex_lt(
            #[trigger] bt[i],
            #[trigger] bt[j],
        ) by {
            assert(bt[i] == b[i + 1] && bt[j] == b[j + 1]);
        }
        lemma_sorted_unique(at, bt);
        assert forall|i: int| 0 <= i < a.len() implies a[i] == b[i] by {
            if i > 0 {
                assert(at[i - 1] == a[i]);
                assert(bt[i - 1] == b[i]);
            }
        }
        assert(a =~= b);
    }
}

/// The distinct dates for which the channel has a log, ascending.
pub fn channel_dates(channel: &Channel) -> (r: Vec<String>)
    ensures
        seg_views(r@) == spec_channel_dates(*channel),
        sorted_dates_of(*channel, seg_views(r@)),
        strings_sorted(r@),
{
    let nd = channel.dirs.len();
    let mut out: Vec<String> = Vec::new();
    let mut di: usize = 0;
    while di < nd
        invariant
            di <= nd,
            nd == channel.dirs@.len(),
            strings_sorted(out@),
            forall|d: Seq<char>|
                contains_str(out@, d) <==> exists|i: int, j: int|
                    0 <= i < di && 0 <= j < channel.dirs@[i].files@.len() && date_of_file(
                        #[trigger] channel.dirs@[i].files@[j]@,
                    ) == Some(d),
        decreases nd - di,
    {
        let nf = channel.dirs[di].files.len();
        let mut fj: usize = 0;
        while fj < nf
            invariant
                di < nd,
                fj <= nf,
                nd == channel.dirs@.len(),
                nf == channel.dirs@[di as int].files@.len(),
                strings_sorted(out@),
                forall|d: Seq<char>|
                    contains_str(out@, d) <==> (exists|i: int, j: int|
                        0 <= i < di && 0 <= j < channel.dirs@[i].files@.len() && date_of_file(
                            #[trigger] channel.dirs@[i].files@[j]@,
                        ) == Some(d)) || (exists|j: int|
                        0 <= j < fj && date_of_file(
                            #[trigger] channel.dirs@[di as int].files@[j]@,
                        ) == Some(d)),
            decreases nf - fj,
        {
            match file_date(channel.dirs[di].files[fj].as_str()) {
                Some(d) => {
                    insert_sorted_str(&mut out, d);
                },
                None => {},
            }
            proof {
                let ghost dirs = channel.dirs@;
                assert forall|d: Seq<char>|
                    contains_str(out@, d) <==> (exists|i: int, j: int|
                        0 <= i < di && 0 <= j < dirs[i].files@.len() && date_of_file(
                            #[trigger] dirs[i].files@[j]@,
                        ) == Some(d)) || (exists|j: int|
                        0 <= j < fj + 1 && date_of_file(
                            #[trigger] dirs[di as int].files@[j]@,
                        ) == Some(d)) by {
                    if contains_str(out@, d) {
                    }
                    if exists|j: int|
                        0 <= j < fj + 1 && date_of_file(#[trigger] dirs[di as int].files@[j]@)
                            == Some(d) {
                        let j = choose|j: int|
                            0 <= j < fj + 1 && date_of_file(#[trigger] dirs[di as int].files@[j]@)
                                == Some(d);
                        if j < fj {
                        } else {
                            assert(date_of_file(dirs[di as int].files@[fj as int]@) == Some(d));
                        }
                    }
                }
            }
            fj += 1;
        }
        proof {
            let ghost dirs = channel.dirs@;
            assert forall|d: Seq<char>|
                contains_str(out@, d) <==> exists|i: int, j: int|
                    0 <= i < di + 1 && 0 <= j < dirs[i].files@.len() && date_of_file(
                        #[trigger] dirs[i].files@[j]@,
                    ) == Some(d) by {
                if exists|i: int, j: int|
                    0 <= i < di + 1 && 0 <= j < dirs[i].files@.len() && date_of_file(
                        #[trigger] dirs[i].files@[j]@,
                    ) == Some(d) {
                    let (i, j) = choose|i: int, j: int|
                        0 <= i < di + 1 && 0 <= j < dirs[i].files@.len() && date_of_file(
                            #[trigger] dirs[i].files@[j]@,
                        ) == Some(d);
                    if i < di {
                    }
                }
            }
        }
        di += 1;
    }
    proof {
        let rv = seg_views(out@);
        assert forall|d: Seq<char>| #[trigger] rv.contains(d) <==> channel_has_date(*channel, d) by {
            if rv.contains(d) {
                let k = choose|k: int| 0 <= k < rv.len() && rv[k] == d;
                assert(out@[k]@ == d);
                assert(contains_str(out@, d));
            }
            if contains_str(out@, d) {
                let k = choose|k: int| 0 <= k < out@.len() && out@[k]@ == d;
                assert(rv[k] == d);
            }
        }
        assert forall|i: int, j: int| 0 <= i < j < rv.len() implies lex_lt(
            #[trigger] rv[i],
            #[trigger] rv[j],
        ) by {
            assert(lex_lt(out@[i]@, out@[j]@));
        }
        assert(sorted_dates_of(*channel, rv));
        lemma_sorted_unique(rv, spec_channel_dates(*channel));
    }
    out
}

/// A snapshot of one log file's contents, keyed by its path.
pub struct LogFileData {
    pub path: String,
    pub lines: Vec<String>,
}

/// The log contents handed to the search tools: a read-only snapshot of
/// (path, lines) pairs.
pub struct LogStore {
    pub files: Vec<LogFileData>,
}

/// The lines stored for `path`: the first entry with that path.
pub open spec fn store_lookup(store: LogStore, path: Seq<char>, i: int) -> Option<Seq<String>>
    recommends
        0 <= i <= store.files@.len(),
    decreases store.files@.len() - i when 0 <= i <= store.files@.len()
{
    if i >= store.files@.len() {
        None
    } else if store.files@[i].path@ == path {
        Some(store.files@[i].lines@)
    } else {
        store_lookup(store, path, i + 1)
    }
}

impl LogStore {
    fn lookup_from<'a>(&'a self, path: &str, i: usize) -> (r: Option<&'a Vec<String>>)
        requires
            i <= self.files@.len(),
        ensures
            match r {
                Some(lines) => store_lookup(*self, path@, i as int) == Some(lines@),
                None => store_lookup(*self, path@, i as int) is None,
            },
        decreases self.files@.len() - i,
    {
        if i >= self.files.len() {
            None
        } else if str_eq(self.files[i].path.as_str(), path) {
            Some(&self.files[i].lines)
        } else {
            self.lookup_from(path, i + 1)
        }
    }

    /// The lines of the log file at `path`, if the snapshot holds it.
    pub fn lookup<'a>(&'a self, path: &str) -> (r: Option<&'a Vec<String>>)
        ensures
            match r {
                Some(lines) => store_lookup(*self, path@, 0) == Some(lines@),
                None => store_lookup(*self, path@, 0) is None,
            },
    {
        self.lookup_from(path, 0)
    }
}

/// `dir` holds a file of exactly this name.
pub open spec fn dir_has_file(dir: ChannelDir, name: Seq<char>) -> bool {
    exists|j: int| 0 <= j < dir.files@.len() && #[trigger] dir.files@[j]@ == name
}

pub fn dir_contains(dir: &ChannelDir, name: &String) -> (r: bool)
    ensures
        r == dir_has_file(*dir, name@),
{
    let n = dir.files.len();
    let mut j: usize = 0;
    while j < n
        invariant
            j <= n,
            n == dir.files@.len(),
            forall|k: int| 0 <= k < j ==> #[trigger] dir.files@[k]@ != name@,
        decreases n - j,
    {
        if str_eq(dir.files[j].as_str(), name.as_str()) {
            return true;
        }
        j += 1;
    }
    false
}

/// The path and format the search reads for a date: scanning the
/// channel's directories in order, the first holding `date.log`, then
/// the first holding `date.log.zst`.
pub open spec fn spec_resolve(dirs: Seq<ChannelDir>, date: Seq<char>, i: int) -> Option<
    (Seq<char>, LogFormat),
>
    recommends
        0 <= i <= dirs.len(),
    decreases dirs.len() - i when 0 <= i <= dirs.len()
{
    if i >= dirs.len() {
        None
    } else if dir_has_file(dirs[i], date + ".log"@) {
        Some((dirs[i].path@ + "/"@ + date + ".log"@, dirs[i].format))
    } else if dir_has_file(dirs[i], date + ".log.zst"@) {
        Some((dirs[i].path@ + "/"@ + date + ".log.zst"@, dirs[i].format))
    } else {
        spec_resolve(dirs, date, i + 1)
    }
}

fn resolve_from(channel: &Channel, date: &str, i: usize) -> (r: Option<(String, LogFormat)>)
    requires
        i <= channel.dirs@.len(),
    ensures
        match r {
            Some(p) => spec_resolve(channel.dirs@, date@, i as int) == Some((p.0@, p.1)),
            None => spec_resolve(channel.dirs@, date@, i as int) is None,
        },
    decreases channel.dirs@.len() - i,
{
    if i >= channel.dirs.len() {
        return None;
    }
    let dir = &channel.dirs[i];
    let mut plain = String::from_str(date);
    plain.append(".log");
    if dir_contains(dir, &plain) {
        let mut p = dir.path.clone();
        p.append("/");
        p.append(plain.as_str());
        return Some((p, dir.format));
    }
    let mut zst = String::from_str(date);
    zst.append(".log.zst");
    if dir_contains(dir, &zst) {
        let mut p = dir.path.clone();
        p.append("/");
        p.append(zst.as_str());
        return Some((p, dir.format));
    }
    resolve_from(channel, date, i + 1)
}

/// Resolves the log file the channel has for a date, if any.
pub fn resolve_log_path(channel: &Channel, date: &str) -> (r: Option<(String, LogFormat)>)
    ensures
        match r {
            Some(p) => spec_resolve(channel.dirs@, date@, 0) == Some((p.0@, p.1)),
            None => spec_resolve(channel.dirs@, date@, 0) is None,
        },
{
    resolve_from(channel, date, 0)
}

/// The latest date the channel has a log for, or today's date if it has
/// none.
pub fn latest_date(channel: &Channel) -> (r: String)
    ensures
        ({
            let q = spec_channel_dates(*channel);
            if q.len() > 0 {
                r@ == q.last() && channel_has_date(*channel, r@)
            } else {
                exists|d: int| 0 <= d && r@ == spec_epoch_date(d)
            }
        }),
{
    let dates = channel_dates(channel);
    let n = dates.len();
    if n > 0 {
        let r = dates[n - 1].clone();
        proof {
            let q = spec_channel_dates(*channel);
            assert(q[n - 1] == dates@[n - 1]@);
            assert(q.contains(q[n - 1]));
        }
        r
    } else {
        today_date()
    }
}

/// `parts` joined with `/` between them.
pub open spec fn join_slash(parts: Seq<Seq<char>>) -> Seq<char>
    decreases parts.len(),
{
    if parts.len() == 0 {
        Seq::<char>::empty()
    } else if parts.len() == 1 {
        parts[0]
    } else {
        parts[0] + seq!['/'] + join_slash(parts.drop_first())
    }
}

fn join_path_from(parts: &Vec<String>, i: usize, out: &mut String)
    requires
        i < parts@.len(),
    ensures
        final(out)@ == old(out)@ + join_slash(seg_views(parts@).skip(i as int)),
    decreases parts@.len() - i,
{
    let n = parts.len();
    out.append(parts[i].as_str());
    let ghost sv = seg_views(parts@);
    if n - i > 1 {
        string_push(out, '/');
        join_path_from(parts, i + 1, out);
        proof {
            assert(sv.skip(i as int).drop_first() =~= sv.skip(i + 1));
            assert(sv.skip(i as int)[0] == parts@[i as int]@);
        }
    } else {
        proof {
            assert(sv.skip(i as int).len() == 1);
            assert(sv.skip(i as int)[0] == parts@[i as int]@);
        }
    }
}

/// Joins path segments with `/`.
pub fn join_path(parts: &Vec<String>) -> (r: String)
    ensures
        r@ == join_slash(seg_views(parts@)),
{
    let mut out = String::new();
    if parts.len() > 0 {
        join_path_from(parts, 0, &mut out);
        proof {
            assert(seg_views(parts@).skip(0) =~= seg_views(parts@));
        }
    }
    out
}

/// Walks `segments[depth..]` down the tree; at the end yields the
/// channel's `/`-joined key and the format of its first directory.
pub fn find_channel_in_tree(node: &ChannelNode, segments: &Vec<String>, depth: usize) -> (r: Option<
    (String, LogFormat),
>)
    requires
        depth <= segments@.len(),
    ensures
        ({
            let f = spec_find_node(*node, seg_views(segments@), depth as int);
            match r {
                Some(p) => f is Some && f.unwrap().channel is Some && {
                    let c = f.unwrap().channel.unwrap();
                    &&& c.dirs@.len() > 0
                    &&& p.0@ == join_slash(seg_views(c.path_segments@))
                    &&& p.1 == c.dirs@[0].format
                },
                None => f is None || f.unwrap().channel is None || f.unwrap().channel.unwrap().dirs@.len() == 0,
            }
        }),
    decreases segments@.len() - depth,
{
    if depth >= segments.len() {
        match &node.channel {
            Some(ch) => {
                if ch.dirs.len() > 0 {
                    let key = join_path(&ch.path_segments);
                    Some((key, ch.dirs[0].format))
                } else {
                    None
                }
            },
            None => None,
        }
    } else {
        match get_child_from(&node.children, segments[depth].as_str(), 0) {
            Some(c) => find_channel_in_tree(c, segments, depth + 1),
            None => None,
        }
    }
}


/// The child a name selects from a child list.
pub open spec fn child_lookup(children: Seq<(String, ChannelNode)>, n: Seq<char>) -> Option<
    ChannelNode,
> {
    let k = child_idx(children, n, 0);
    if k < children.len() {
        Some(children[k].1)
    } else {
        None
    }
}

/// The channel at the end of a path of child names, if that node holds
/// one.
pub open spec fn node_channel_at(node: ChannelNode, p: Seq<Seq<char>>) -> Option<Channel>
    decreases p.len(),
{
    if p.len() == 0 {
        node.channel
    } else {
        match find_child(node, p[0]) {
            Some(c) => node_channel_at(c, p.drop_first()),
            None => None,
        }
    }
}

/// `node_channel_at` along a suffix agrees with `spec_find_node`.
pub proof fn lemma_channel_at_find(node: ChannelNode, segs: Seq<Seq<char>>, i: int)
    requires
        0 <= i <= segs.len(),
    ensures
        node_channel_at(node, segs.skip(i)) == (match spec_find_node(node, segs, i) {
            Some(nd) => nd.channel,
            None => None,
        }),
    decreases segs.len() - i,
{
    if i >= segs.len() {
        assert(segs.skip(i) =~= Seq::<Seq<char>>::empty());
    } else {
        assert(segs.skip(i)[0] == segs[i]);
        assert(segs.skip(i).drop_first() =~= segs.skip(i + 1));
        match find_child(node, segs[i]) {
            Some(c) => {
                lemma_channel_at_find(c, segs, i + 1);
            },
            None => {},
        }
    }
}

proof fn lemma_child_idx_shift(
    pre: Seq<(String, ChannelNode)>,
    item: (String, ChannelNode),
    pos: int,
    n: Seq<char>,
    j: int,
)
    requires
        0 <= pos < j <= pre.len() + 1,
    ensures
        child_idx(pre.insert(pos, item), n, j) == child_idx(pre, n, j - 1) + 1,
    decreases pre.len() + 1 - j,
{
    let b = pre.insert(pos, item);
    if j < b.len() {
        assert(b[j] == pre[j - 1]);
        if b[j].0@ != n {
            lemma_child_idx_shift(pre, item, pos, n, j + 1);
        }
    }
}

proof fn lemma_child_idx_insert_ne(
    pre: Seq<(String, ChannelNode)>,
    item: (String, ChannelNode),
    pos: int,
    n: Seq<char>,
    j: int,
)
    requires
        0 <= j <= pos <= pre.len(),
        item.0@ != n,
    ensures
        ({
            let b = pre.insert(pos, item);
            let k = child_idx(pre, n, j);
            &&& (k < pos ==> child_idx(b, n, j) == k)
            &&& (k >= pos ==> child_idx(b, n, j) == k + 1)
        }),
    decreases pos - j,
{
    let b = pre.insert(pos, item);
    lemma_child_idx(pre, n, j);
    if j < pos {
        assert(b[j] == pre[j]);
        if pre[j].0@ != n {
            lemma_child_idx_insert_ne(pre, item, pos, n, j + 1);
        }
    } else {
        assert(b[pos] == item);
        lemma_child_idx_shift(pre, item, pos, n, pos + 1);
    }
}

/// Inserting a child under another name moves no lookup: every other
/// name still selects the same child.
proof fn lemma_child_lookup_insert(
    pre: Seq<(String, ChannelNode)>,
    item: (String, ChannelNode),
    pos: int,
    n: Seq<char>,
)
    requires
        0 <= pos <= pre.len(),
        item.0@ != n,
    ensures
        child_lookup(pre.insert(pos, item), n) == child_lookup(pre, n),
{
    let b = pre.insert(pos, item);
    lemma_child_idx_insert_ne(pre, item, pos, n, 0);
    lemma_child_idx(pre, n, 0);
    let k = child_idx(pre, n, 0);
    if k < pre.len() {
        if k < pos {
            assert(b[k] == pre[k]);
        } else {
            assert(b[k + 1] == pre[k]);
        }
    }
}

/// Replacing the child at one index under the same name leaves every
/// other name's lookup unchanged.
proof fn lemma_child_lookup_replace(
    a: Seq<(String, ChannelNode)>,
    b: Seq<(String, ChannelNode)>,
    idx: int,
    n: Seq<char>,
)
    requires
        a.len() == b.len(),
        0 <= idx < a.len(),
        forall|k: int| 0 <= k < a.len() && k != idx ==> a[k] == b[k],
        a[idx].0@ == b[idx].0@,
        a[idx].0@ != n,
    ensures
        child_lookup(a, n) == child_lookup(b, n),
{
    assert forall|k: int| 0 <= k < a.len() implies (#[trigger] a[k].0)@ == b[k].0@ by {
        if k != idx {
            assert(a[k] == b[k]);
        }
    }
    lemma_child_idx_names(a, b, n, 0);
    lemma_child_idx(a, n, 0);
    let k = child_idx(a, n, 0);
    if k < a.len() {
        assert(k != idx);
        assert(a[k] == b[k]);
    }
}

proof fn lemma_child_idx_names(
    a: Seq<(String, ChannelNode)>,
    b: Seq<(String, ChannelNode)>,
    name: Seq<char>,
    j: int,
)
    requires
        a.len() == b.len(),
        forall|k: int| 0 <= k < a.len() ==> (#[trigger] a[k].0)@ == b[k].0@,
        0 <= j <= a.len(),
    ensures
        child_idx(a, name, j) == child_idx(b, name, j),
    decreases a.len() - j,
{
    if j < a.len() && a[j].0@ != name {
        lemma_child_idx_names(a, b, name, j + 1);
    }
}

proof fn lemma_child_idx_insert(
    children: Seq<(String, ChannelNode)>,
    item: (String, ChannelNode),
    pos: int,
    name: Seq<char>,
    j: int,
)
    requires
        0 <= j <= pos <= children.len(),
        forall|k: int| 0 <= k < children.len() ==> (#[trigger] children[k].0)@ != name,
        item.0@ == name,
    ensures
        child_idx(children.insert(pos, item), name, j) == pos,
    decreases pos - j,
{
    let b = children.insert(pos, item);
    assert(b[pos] == item);
    if j < pos {
        assert(b[j] == children[j]);
        lemma_child_idx_insert(children, item, pos, name, j + 1);
    }
}

/// Where a new child named `name` goes to keep the children in name
/// order: before the first child whose name is greater.
fn sorted_position(children: &Vec<(String, ChannelNode)>, name: &str) -> (r: usize)
    ensures
        r <= children@.len(),
        forall|k: int| 0 <= k < r ==> !lex_lt(name@, (#[trigger] children@[k].0)@),
        r < children@.len() ==> lex_lt(name@, children@[r as int].0@),
{
    let n = children.len();
    let mut j: usize = 0;
    while j < n
        invariant
            j <= n,
            n == children@.len(),
            forall|k: int| 0 <= k < j ==> !lex_lt(name@, (#[trigger] children@[k].0)@),
        decreases n - j,
    {
        if crate::text::str_lt(name, children[j].0.as_str()) {
            return j;
        }
        j += 1;
    }
    j
}

fn child_position(children: &Vec<(String, ChannelNode)>, name: &str) -> (r: usize)
    ensures
        r == child_idx(children@, name@, 0),
        r <= children@.len(),
        r < children@.len() ==> children@[r as int].0@ == name@,
        r == children@.len() ==> forall|k: int|
            0 <= k < children@.len() ==> (#[trigger] children@[k].0)@ != name@,
{
    let n = children.len();
    let mut j: usize = 0;
    while j < n
        invariant
            j <= n,
            n == children@.len(),
            child_idx(children@, name@, 0) == child_idx(children@, name@, j as int),
            forall|k: int| 0 <= k < j ==> (#[trigger] children@[k].0)@ != name@,
        decreases n - j,
    {
        if str_eq(children[j].0.as_str(), name) {
            return j;
        }
        j += 1;
    }
    j
}

fn clone_strings(v: &Vec<String>) -> (r: Vec<String>)
    ensures
        r@.len() == v@.len(),
        forall|k: int| 0 <= k < v@.len() ==> (#[trigger] r@[k])@ == v@[k]@,
{
    let n = v.len();
    let mut out: Vec<String> = Vec::new();
    let mut i: usize = 0;
    while i < n
        invariant
            i <= n,
            n == v@.len(),
            out@.len() == i,
            forall|k: int| 0 <= k < i ==> (#[trigger] out@[k])@ == v@[k]@,
        decreases n - i,
    {
        out.push(v[i].clone());
        i += 1;
    }
    out
}

fn insert_at(node: &mut ChannelNode, segments: &Vec<String>, i: usize, dir: ChannelDir)
    requires
        i <= segments@.len(),
        segments@.len() > 0,
    ensures
        ({
            let f_new = spec_find_node(*final(node), seg_views(segments@), i as int);
            let f_old = spec_find_node(*old(node), seg_views(segments@), i as int);
            let old_dirs = match f_old {
                Some(nd) => match nd.channel {
                    Some(c) => c.dirs@,
                    None => Seq::<ChannelDir>::empty(),
                },
                None => Seq::<ChannelDir>::empty(),
            };
            &&& f_new is Some
            &&& f_new.unwrap().channel is Some
            &&& f_new.unwrap().channel.unwrap().dirs@ == old_dirs.push(dir)
            &&& (match f_old {
                Some(nd) => nd.channel is Some ==> f_new.unwrap().channel.unwrap().name@
                    == nd.channel.unwrap().name@,
                None => true,
            })
            &&& ((f_old is None || f_old.unwrap().channel is None)
                ==> f_new.unwrap().channel.unwrap().name@ == segments@.last()@)
        }),
        forall|p: Seq<Seq<char>>|
            p != seg_views(segments@).skip(i as int) ==> #[trigger] node_channel_at(
                *final(node),
                p,
            ) == node_channel_at(*old(node), p),
    decreases segments@.len() - i,
{
    if i == segments.len() {
        let cur = self_channel_take(node);
        match cur {
            Some(mut ch) => {
                ch.dirs.push(dir);
                node.channel = Some(ch);
            },
            None => {
                let mut dirs: Vec<ChannelDir> = Vec::new();
                dirs.push(dir);
                node.channel = Some(
                    Channel {
                        name: segments[segments.len() - 1].clone(),
                        path_segments: clone_strings(segments),
                        dirs,
                    },
                );
            },
        }
        proof {
            assert(seg_views(segments@).skip(i as int) =~= Seq::<Seq<char>>::empty());
            assert forall|p: Seq<Seq<char>>|
                p != seg_views(segments@).skip(i as int) implies #[trigger] node_channel_at(
                *node,
                p,
            ) == node_channel_at(*old(node), p) by {
                if p.len() == 0 {
                    assert(p =~= Seq::<Seq<char>>::empty());
                } else {
                    assert(node.children@ == old(node).children@);
                    assert(find_child(*node, p[0]) == find_child(*old(node), p[0]));
                }
            }
        }
    } else {
        let ghost pre_children = node.children@;
        let mut idx = child_position(&node.children, segments[i].as_str());
        let created = idx == node.children.len();
        if created {
            let pos = sorted_position(&node.children, segments[i].as_str());
            let item = (segments[i].clone(), ChannelNode::default());
            let ghost itemv = item;
            node.children.insert(pos, item);
            proof {
                assert(node.children@ =~= pre_children.insert(pos as int, itemv));
                lemma_child_idx_insert(
                    pre_children,
                    itemv,
                    pos as int,
                    segments@[i as int]@,
                    0,
                );
                assert forall|n: Seq<char>| n != segments@[i as int]@ implies child_lookup(
                    node.children@,
                    n,
                ) == child_lookup(pre_children, n) by {
                    lemma_child_lookup_insert(pre_children, itemv, pos as int, n);
                }
            }
            idx = pos;
        }
        let ghost grown = node.children@;
        let (name_s, mut child) = node.children.remove(idx);
        let ghost old_child = child;
        insert_at(&mut child, segments, i + 1, dir);
        node.children.insert(idx, (name_s, child));
        proof {
            let segv = seg_views(segments@);
            assert(node.children@.len() == grown.len());
            assert forall|k: int|
                0 <= k < grown.len() implies (#[trigger] node.children@[k].0)@ == grown[k].0@ by {
                if k < idx {
                    assert(node.children@[k] == grown[k]);
                } else if k == idx {
                } else {
                    assert(node.children@[k] == grown[k]);
                }
            }
            lemma_child_idx_names(grown, node.children@, segv[i as int], 0);
            lemma_child_idx(grown, segv[i as int], 0);
            assert(child_idx(node.children@, segv[i as int], 0) == idx);
            assert(node.children@[idx as int].1 == child);
            assert(find_child(*node, segv[i as int]) == Some(child));
            assert(grown[idx as int].1 == old_child);
            if !created {
                assert(find_child(*old(node), segv[i as int]) == Some(old_child));
            } else {
                assert(spec_find_node(*old(node), segv, i as int) is None);
                assert(old_child.children@.len() == 0 && old_child.channel is None);
                assert(spec_find_node(old_child, segv, i + 1) is None || (i + 1 == segv.len()
                    && spec_find_node(old_child, segv, i + 1) == Some(old_child)));
            }
            assert forall|k: int|
                0 <= k < grown.len() && k != idx implies node.children@[k] == grown[k] by {
                if k < idx {
                } else {
                }
            }
            lemma_child_idx(grown, segv[i as int], 0);
            assert(grown[idx as int].0@ == segv[i as int]);
            assert(node.children@[idx as int].0@ == grown[idx as int].0@);
            assert forall|n: Seq<char>| n != segv[i as int] implies child_lookup(
                node.children@,
                n,
            ) == child_lookup(pre_children, n) by {
                lemma_child_lookup_replace(grown, node.children@, idx as int, n);
            }
            assert(segv.skip(i as int)[0] == segv[i as int]);
            assert(segv.skip(i as int).drop_first() =~= segv.skip(i + 1));
            assert forall|p: Seq<Seq<char>>|
                p != segv.skip(i as int) implies #[trigger] node_channel_at(*node, p)
                == node_channel_at(*old(node), p) by {
                if p.len() == 0 {
                    assert(node.channel == old(node).channel);
                } else if p[0] != segv[i as int] {
                    assert(child_lookup(node.children@, p[0]) == child_lookup(
                        pre_children,
                        p[0],
                    ));
                    assert(find_child(*node, p[0]) == child_lookup(node.children@, p[0]));
                    assert(find_child(*old(node), p[0]) == child_lookup(pre_children, p[0]));
                } else {
                    assert(p.drop_first() != segv.skip(i + 1)) by {
                        if p.drop_first() == segv.skip(i + 1) {
                            let sk = segv.skip(i as int);
                            assert(sk.drop_first() =~= segv.skip(i + 1));
                            assert(p.len() == sk.len());
                            assert forall|k: int| 0 <= k < p.len() implies p[k] == sk[k] by {
                                if k > 0 {
                                    assert(p.drop_first()[k - 1] == p[k]);
                                    assert(sk.drop_first()[k - 1] == sk[k]);
                                }
                            }
                            assert(p =~= sk);
                        }
                    }
                    assert(find_child(*node, p[0]) == Some(child));
                    assert(node_channel_at(*node, p) == node_channel_at(child, p.drop_first()));
                    assert(node_channel_at(child, p.drop_first()) == node_channel_at(
                        old_child,
                        p.drop_first(),
                    ));
                    if !created {
                        assert(node_channel_at(*old(node), p) == node_channel_at(
                            old_child,
                            p.drop_first(),
                        ));
                    } else {
                        assert(child_idx(pre_children, segv[i as int], 0)
                            == pre_children.len());
                        assert(find_child(*old(node), p[0]) is None);
                        assert(node_channel_at(*old(node), p) is None);
                        if p.drop_first().len() == 0 {
                            assert(node_channel_at(old_child, p.drop_first()) is None);
                        } else {
                            assert(child_idx(old_child.children@, p.drop_first()[0], 0) == 0);
                            assert(find_child(old_child, p.drop_first()[0]) is None);
                            assert(node_channel_at(old_child, p.drop_first()) is None);
                        }
                    }
                }
            }
        }
    }
}

fn self_channel_take(node: &mut ChannelNode) -> (r: Option<Channel>)
    ensures
        r == old(node).channel,
        final(node).channel is None,
        final(node).children == old(node).children,
{
    node.channel.take()
}

/// Registers a discovered log directory for the channel at the path,
/// creating tree nodes on the way; an already known channel gains one
/// more directory.
pub fn insert_channel(root: &mut ChannelNode, segments: &Vec<String>, dir: ChannelDir)
    requires
        segments@.len() > 0,
    ensures
        ({
            let f_new = spec_find_node(*final(root), seg_views(segments@), 0);
            let f_old = spec_find_node(*old(root), seg_views(segments@), 0);
            let old_dirs = match f_old {
                Some(nd) => match nd.channel {
                    Some(c) => c.dirs@,
                    None => Seq::<ChannelDir>::empty(),
                },
                None => Seq::<ChannelDir>::empty(),
            };
            &&& f_new is Some
            &&& f_new.unwrap().channel is Some
            &&& f_new.unwrap().channel.unwrap().dirs@ == old_dirs.push(dir)
        }),
        forall|p: Seq<Seq<char>>|
            p != seg_views(segments@) ==> #[trigger] node_channel_at(*final(root), p)
                == node_channel_at(*old(root), p),
{
    insert_at(root, segments, 0, dir);
    proof {
        assert(seg_views(segments@).skip(0) =~= seg_views(segments@));
    }
}

/// The channel-listing line one node contributes to the system prompt.
pub open spec fn spec_node_line(node: ChannelNode) -> Seq<char> {
    match node.channel {
        Some(c) => {
            let q = spec_channel_dates(c);
            if c.name@.len() > 0 && c.name@[0] == '#' && q.len() > 0 {
                "- "@ + join_slash(seg_views(c.path_segments@)) + " ("@ + q.first() + " to "@
                    + q.last() + ", "@ + crate::text::spec_digits(q.len() as nat) + " files)\n"@
            } else {
                Seq::<char>::empty()
            }
        },
        None => Seq::<char>::empty(),
    }
}

/// The channel listing of a subtree: the node's own line, then its
/// children in stored order.
pub open spec fn spec_listing(node: ChannelNode) -> Seq<char>
    decreases node,
{
    spec_node_line(node) + spec_listing_children(node.children@, 0)
}

pub open spec fn spec_listing_children(children: Seq<(String, ChannelNode)>, i: int) -> Seq<char>
    recommends
        0 <= i <= children.len(),
    decreases children, children.len() - i when 0 <= i <= children.len()
{
    if i >= children.len() {
        Seq::<char>::empty()
    } else {
        spec_listing(children[i].1) + spec_listing_children(children, i + 1)
    }
}

/// Appends the `#`-channel listing of the tree: one line per channel
/// that has dated logs, with its date range and file count.
pub fn collect_channels(node: &ChannelNode, out: &mut String)
    ensures
        final(out)@ == old(out)@ + spec_listing(*node),
    decreases *node,
{
    match &node.channel {
        Some(c) => {
            let is_hash = c.name.as_str().unicode_len() > 0 && c.name.as_str().get_char(0) == '#';
            if is_hash {
                let dates = channel_dates(c);
                let nd = dates.len();
                if nd > 0 {
                    out.append("- ");
                    let key = join_path(&c.path_segments);
                    out.append(key.as_str());
                    out.append(" (");
                    out.append(dates[0].as_str());
                    out.append(" to ");
                    out.append(dates[nd - 1].as_str());
                    out.append(", ");
                    crate::text::push_u64(out, nd as u64);
                    out.append(" files)\n");
                    proof {
                        let q = spec_channel_dates(*c);
                        assert(q.first() == dates@[0]@);
                        assert(q.last() == dates@[nd - 1]@);
                    }
                }
            }
        },
        None => {},
    }
    collect_children(&node.children, 0, out);
}

fn collect_children(children: &Vec<(String, ChannelNode)>, i: usize, out: &mut String)
    requires
        i <= children@.len(),
    ensures
        final(out)@ == old(out)@ + spec_listing_children(children@, i as int),
    decreases *children, children@.len() - i,
{
    if i >= children.len() {
        return ;
    }
    collect_channels(&children[i].1, out);
    collect_children(children, i + 1, out);
}

} // verus!
