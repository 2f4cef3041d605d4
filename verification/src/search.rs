//! Case-insensitive substring search over a channel directory's dated
//! logs, newest first, returning parsed lines.

use vstd::prelude::*;
use vstd::string::StrSliceExecFns;
use vstd::string::StringExecFns;

use crate::channels::ChannelDir;
use crate::channels::LogStore;
use crate::channels::date_of_file;
use crate::channels::store_lookup;
use crate::parser::LogFormat;
use crate::parser::LogLine;
use crate::parser::LogLineV;
use crate::parser::parse_line;
use crate::parser::spec_parse_line;
use crate::text::contains_str;
use crate::text::insert_sorted_str;
use crate::text::lex_lt;
use crate::text::match_here;
use crate::text::starts_with_at;
use crate::text::str_chars;
use crate::text::strings_sorted;

verus! {

/// `needle` occurs somewhere in `hay`.
pub open spec fn spec_contains_sub(hay: Seq<char>, needle: Seq<char>) -> bool {
    exists|i: int| 0 <= i && starts_with_at(hay, i, needle)
}

/// Substring test over character vectors.
pub fn contains_sub(v: &Vec<char>, needle: &str) -> (r: bool)
    ensures
        r == spec_contains_sub(v@, needle@),
{
    let n = v.len();
    let mut i: usize = 0;
    loop
        invariant
            i <= n,
            n == v@.len(),
            forall|k: int| 0 <= k < i ==> !starts_with_at(v@, k, needle@),
        decreases n - i,
    {
        if match_here(v, needle, i) {
            return true;
        }
        if i == n {
            proof {
                assert forall|k: int| 0 <= k implies !starts_with_at(v@, k, needle@) by {
                    if k > n {
                        assert(k + needle@.len() > v@.len());
                    }
                }
            }
            return false;
        }
        i += 1;
    }
}

/// What `str::to_lowercase` yields: a function of the characters alone.
pub uninterp spec fn lower_of(s: Seq<char>) -> Seq<char>;

/// Relies on `str::to_lowercase`: the result depends on the characters
/// alone, and an empty string stays empty.
#[verifier::external_body]
fn lowercase(s: &str) -> (r: String)
    ensures
        r@ == lower_of(s@),
        s@.len() == 0 ==> r@.len() == 0,
{
    s.to_lowercase()
}

/// A line matches when the lowered query occurs in the lowered line.
pub open spec fn search_hit(query_lower: Seq<char>, line: Seq<char>) -> bool {
    spec_contains_sub(lower_of(line), query_lower)
}

/// `q` is the ascending list of the directory's distinct dates.
pub open spec fn sorted_dir_dates_of(dir: ChannelDir, q: Seq<Seq<char>>) -> bool {
    &&& (forall|i: int, j: int| 0 <= i < j < q.len() ==> lex_lt(#[trigger] q[i], #[trigger] q[j]))
    &&& (forall|d: Seq<char>| #[trigger] q.contains(d) <==> exists|j: int|
        0 <= j < dir.files@.len() && date_of_file(#[trigger] dir.files@[j]@) == Some(d))
}

/// The ascending list of the directory's dates (at most one list
/// satisfies `sorted_dir_dates_of`).
pub open spec fn spec_dir_dates(dir: ChannelDir) -> Seq<Seq<char>> {
    choose|q: Seq<Seq<char>>| sorted_dir_dates_of(dir, q)
}

fn dir_dates(dir: &ChannelDir) -> (r: Vec<String>)
    ensures
        crate::channels::seg_views(r@) == spec_dir_dates(*dir),
        sorted_dir_dates_of(*dir, crate::channels::seg_views(r@)),
        strings_sorted(r@),
{
    let nf = dir.files.len();
    let mut out: Vec<String> = Vec::new();
    let mut fj: usize = 0;
    while fj < nf
        invariant
            fj <= nf,
            nf == dir.files@.len(),
            strings_sorted(out@),
            forall|d: Seq<char>|
                contains_str(out@, d) <==> exists|j: int|
                    0 <= j < fj && date_of_file(#[trigger] dir.files@[j]@) == Some(d),
        decreases nf - fj,
    {
        match crate::channels::file_date(dir.files[fj].as_str()) {
            Some(d) => {
                insert_sorted_str(&mut out, d);
            },
            None => {},
        }
        proof {
            assert forall|d: Seq<char>|
                contains_str(out@, d) <==> exists|j: int|
                    0 <= j < fj + 1 && date_of_file(#[trigger] dir.files@[j]@) == Some(d) by {
                if exists|j: int|
                    0 <= j < fj + 1 && date_of_file(#[trigger] dir.files@[j]@) == Some(d) {
                    let j = choose|j: int|
                        0 <= j < fj + 1 && date_of_file(#[trigger] dir.files@[j]@) == Some(d);
                    if j < fj {
                    } else {
                        assert(date_of_file(dir.files@[fj as int]@) == Some(d));
                    }
                }
            }
        }
        fj += 1;
    }
    proof {
        let rv = crate::channels::seg_views(out@);
        assert forall|d: Seq<char>| #[trigger] rv.contains(d) <==> contains_str(out@, d) by {
            if rv.contains(d) {
                let k = choose|k: int| 0 <= k < rv.len() && rv[k] == d;
                assert(out@[k]@ == d);
            }
            if contains_str(out@, d) {
                let k = choose|k: int| 0 <= k < out@.len() && out@[k]@ == d;
                assert(rv[k] == d);
            }
        }
        assert forall|i: int, j: int| 0 <= i < j < rv.len() implies lex_lt(
            #[trigger] rv[i],
            #[trigger] rv[j],
        ) by {
            assert(lex_lt(out@[i]@, out@[j]@));
        }
        assert(sorted_dir_dates_of(*dir, rv));
        crate::channels::lemma_sorted_unique(rv, spec_dir_dates(*dir));
    }
    out
}

/// The view of a search result list.
pub open spec fn hits_view(r: Seq<(String, LogLine)>) -> Seq<(Seq<char>, LogLineV)> {
    r.map_values(|p: (String, LogLine)| (p.0@, p.1@))
}

/// The hits one date's lines contribute, scanning from line `j` with
/// `len0` results already collected: every line whose lowered text
/// contains the lowered query and which parses in the channel's format,
/// until the running total reaches `limit`.
pub open spec fn spec_scan_lines(
    date: Seq<char>,
    lines: Seq<String>,
    j: int,
    ql: Seq<char>,
    fmt: LogFormat,
    limit: int,
    len0: int,
) -> Seq<(Seq<char>, LogLineV)>
    recommends
        0 <= j <= lines.len(),
    decreases lines.len() - j when 0 <= j <= lines.len()
{
    if j >= lines.len() {
        Seq::<(Seq<char>, LogLineV)>::empty()
    } else if search_hit(ql, lines[j]@) && spec_parse_line(lines[j]@, fmt) is Some {
        let one = (date, spec_parse_line(lines[j]@, fmt).unwrap());
        if len0 + 1 >= limit {
            seq![one]
        } else {
            seq![one] + spec_scan_lines(date, lines, j + 1, ql, fmt, limit, len0 + 1)
        }
    } else {
        spec_scan_lines(date, lines, j + 1, ql, fmt, limit, len0)
    }
}

/// The file name the search reads for a date: the plain log if the
/// directory lists it, else the compressed one.
pub open spec fn search_path(dir: ChannelDir, date: Seq<char>) -> Seq<char> {
    if crate::channels::dir_has_file(dir, date + ".log"@) {
        dir.path@ + "/"@ + date + ".log"@
    } else {
        dir.path@ + "/"@ + date + ".log.zst"@
    }
}

/// The hits of the dates `desc[k..]`, newest first; a date whose file
/// the snapshot lacks contributes nothing.
pub open spec fn spec_scan_dates(
    dir: ChannelDir,
    desc: Seq<Seq<char>>,
    k: int,
    store: LogStore,
    ql: Seq<char>,
    fmt: LogFormat,
    limit: int,
    len0: int,
) -> Seq<(Seq<char>, LogLineV)>
    recommends
        0 <= k <= desc.len(),
    decreases desc.len() - k when 0 <= k <= desc.len()
{
    if k >= desc.len() {
        Seq::<(Seq<char>, LogLineV)>::empty()
    } else {
        match store_lookup(store, search_path(dir, desc[k]), 0) {
            None => spec_scan_dates(dir, desc, k + 1, store, ql, fmt, limit, len0),
            Some(lines) => {
                let got = spec_scan_lines(desc[k], lines, 0, ql, fmt, limit, len0);
                if got.len() > 0 && len0 + got.len() >= limit {
                    got
                } else {
                    got + spec_scan_dates(
                        dir,
                        desc,
                        k + 1,
                        store,
                        ql,
                        fmt,
                        limit,
                        len0 + got.len(),
                    )
                }
            },
        }
    }
}

fn scan_lines_exec(
    date: &String,
    lines: &Vec<String>,
    j: usize,
    qlow: &String,
    fmt: LogFormat,
    limit: usize,
    out: &mut Vec<(String, LogLine)>,
) -> (stop: bool)
    requires
        j <= lines@.len(),
    ensures
        hits_view(final(out)@) == hits_view(old(out)@) + spec_scan_lines(
            date@,
            lines@,
            j as int,
            qlow@,
            fmt,
            limit as int,
            old(out)@.len() as int,
        ),
        final(out)@.len() >= old(out)@.len(),
        stop == (final(out)@.len() > old(out)@.len() && final(out)@.len() >= limit),
    decreases lines@.len() - j,
{
    if j >= lines.len() {
        proof {
            assert(hits_view(out@) =~= hits_view(out@) + spec_scan_lines(
                date@,
                lines@,
                j as int,
                qlow@,
                fmt,
                limit as int,
                out@.len() as int,
            ));
        }
        return false;
    }
    let line = &lines[j];
    let lowered = lowercase(line.as_str());
    let lv = str_chars(lowered.as_str());
    let hit = contains_sub(&lv, qlow.as_str());
    if hit {
        match parse_line(line.as_str(), fmt) {
            Some(parsed) => {
                out.push((date.clone(), parsed));
                proof {
                    assert(hits_view(out@) =~= hits_view(old(out)@) + seq![
                        (date@, spec_parse_line(lines@[j as int]@, fmt).unwrap()),
                    ]);
                }
                if out.len() >= limit {
                    return true;
                }
                let r = scan_lines_exec(date, lines, j + 1, qlow, fmt, limit, out);
                proof {
                    assert(hits_view(final(out)@) =~= hits_view(old(out)@) + spec_scan_lines(
                        date@,
                        lines@,
                        j as int,
                        qlow@,
                        fmt,
                        limit as int,
                        old(out)@.len() as int,
                    ));
                }
                return r;
            },
            None => {},
        }
    }
    let r = scan_lines_exec(date, lines, j + 1, qlow, fmt, limit, out);
    r
}

fn scan_dates_exec(
    dir: &ChannelDir,
    desc: &Vec<String>,
    k: usize,
    store: &LogStore,
    qlow: &String,
    fmt: LogFormat,
    limit: usize,
    out: &mut Vec<(String, LogLine)>,
)
    requires
        k <= desc@.len(),
    ensures
        hits_view(final(out)@) == hits_view(old(out)@) + spec_scan_dates(
            *dir,
            crate::channels::seg_views(desc@),
            k as int,
            *store,
            qlow@,
            fmt,
            limit as int,
            old(out)@.len() as int,
        ),
    decreases desc@.len() - k,
{
    let ghost dv = crate::channels::seg_views(desc@);
    if k >= desc.len() {
        proof {
            assert(hits_view(out@) =~= hits_view(out@) + spec_scan_dates(
                *dir,
                dv,
                k as int,
                *store,
                qlow@,
                fmt,
                limit as int,
                out@.len() as int,
            ));
        }
        return ;
    }
    let date = &desc[k];
    let mut plain = String::from_str(date.as_str());
    plain.append(".log");
    let path = if crate::channels::dir_contains(dir, &plain) {
        let mut p = dir.path.clone();
        p.append("/");
        p.append(plain.as_str());
        p
    } else {
        let mut p = dir.path.clone();
        p.append("/");
        p.append(date.as_str());
        p.append(".log.zst");
        p
    };
    assert(path@ =~= search_path(*dir, dv[k as int]));
    match store.lookup(path.as_str()) {
        None => {
            scan_dates_exec(dir, desc, k + 1, store, qlow, fmt, limit, out);
        },
        Some(lines) => {
            let stop = scan_lines_exec(date, lines, 0, qlow, fmt, limit, out);
            if stop {
                return ;
            }
            scan_dates_exec(dir, desc, k + 1, store, qlow, fmt, limit, out);
            proof {
                assert(hits_view(final(out)@) =~= hits_view(old(out)@) + spec_scan_dates(
                    *dir,
                    dv,
                    k as int,
                    *store,
                    qlow@,
                    fmt,
                    limit as int,
                    old(out)@.len() as int,
                ));
            }
        },
    }
}

/// Searches a channel directory's logs, newest date first, for lines
/// whose text contains the query case-insensitively and which parse in
/// the directory's format; stops once `limit` results are collected.
pub fn search_channel(
    dir: &ChannelDir,
    format: LogFormat,
    query: &str,
    limit: usize,
    store: &LogStore,
) -> (r: Vec<(String, LogLine)>)
    ensures
        ({
            let asc = spec_dir_dates(*dir);
            let desc = Seq::new(asc.len(), |k: int| asc[asc.len() - 1 - k]);
            hits_view(r@) == spec_scan_dates(
                *dir,
                desc,
                0,
                *store,
                lower_of(query@),
                format,
                limit as int,
                0,
            )
        }),
{
    let qlow = lowercase(query);
    let asc = dir_dates(dir);
    let n = asc.len();
    let mut desc: Vec<String> = Vec::new();
    let mut i: usize = n;
    while i > 0
        invariant
            i <= n,
            n == asc@.len(),
            desc@.len() == n - i,
            forall|k: int| 0 <= k < desc@.len() ==> #[trigger] desc@[k] == asc@[n - 1 - k],
        decreases i,
    {
        desc.push(asc[i - 1].clone());
        i -= 1;
    }
    proof {
        let ascv = crate::channels::seg_views(asc@);
        let dv = crate::channels::seg_views(desc@);
        assert(dv =~= Seq::new(ascv.len(), |k: int| ascv[ascv.len() - 1 - k]));
    }
    let mut out: Vec<(String, LogLine)> = Vec::new();
    scan_dates_exec(dir, &desc, 0, store, &qlow, format, limit, &mut out);
    proof {
        assert(hits_view(Seq::<(String, LogLine)>::empty()) =~= Seq::<(Seq<char>, LogLineV)>::empty());
    }
    out
}

} // verus!
