//! The tool dispatch engine: typed tool inputs, their validation, and
//! the search, copy, output and done actions they drive.

use vstd::prelude::*;
use vstd::string::StrSliceExecFns;
use vstd::string::StringExecFns;
use vstd::string::StringSliceAdditionalSpecFns;
use vstd::utf8::encode_utf8;

use crate::buffer::OutputBuffer;
use crate::buffer::spec_append;
use crate::channels::Channel;
use crate::channels::ChannelDir;
use crate::channels::ChannelNode;
use crate::channels::LogStore;
use crate::channels::spec_channel_dates;
use crate::channels::channel_dates;
use crate::channels::spec_find_node;
use crate::channels::spec_resolve;
use crate::channels::store_lookup;
use crate::channels::resolve_log_path;
use crate::channels::validate_channel;
use crate::linespec::lemma_sorted_nums_unique;
use crate::linespec::line_set;
use crate::linespec::line_spec_error;
use crate::linespec::line_spec_ok;
use crate::linespec::parse_line_spec;
use crate::linespec::sorted_line_nums;
use crate::linespec::strictly_sorted;
use crate::pattern::CompiledPattern;
use crate::pattern::regex_match;
use crate::slug::spec_slugify;
use crate::slug::slugify;
use crate::text::lex_le;
use crate::text::lossy_utf8;
use crate::text::pad_left;
use crate::text::push_padded_u64;
use crate::text::push_u128;
use crate::text::push_u64;
use crate::text::push_quoted;
use crate::text::quoted;
use crate::text::spec_digits;
use crate::text::str_chars;
use crate::text::str_eq;
use crate::text::str_le;
use crate::text::take_bytes;

verus! {

/// The input of one `search` call, as loosely as the wire carries it.
pub struct SearchInput {
    pub pattern: Option<String>,
    pub channel: Option<String>,
    pub date: Option<String>,
    pub from_date: Option<String>,
    pub to_date: Option<String>,
    pub order: Option<String>,
    pub after: Option<u64>,
    pub before: Option<u64>,
    pub around: Option<u64>,
    pub count_only: Option<bool>,
    pub max_results: Option<u64>,
}

pub struct CopyInput {
    pub channel: Option<String>,
    pub date: Option<String>,
    pub lines: Option<String>,
}

pub struct OutputInput {
    pub text: Option<String>,
    pub clear: Option<bool>,
}

pub struct DoneInput {
    pub title: Option<String>,
}

pub struct DisplayInput {
    pub text: Option<String>,
}

/// A tool invocation, one closed variant per tool.
pub enum ToolInput {
    Search(SearchInput),
    Copy(CopyInput),
    Output(OutputInput),
    Done(DoneInput),
    Display(DisplayInput),
    Abort,
    Unknown { name: String, raw: String },
}

/// Silent tools take effect but are not echoed to the audit stream.
pub open spec fn is_silent(t: ToolInput) -> bool {
    t is Display || t is Abort
}

/// Tools after which the session stops, whatever their outcome.
pub open spec fn stops_session(t: ToolInput) -> bool {
    t is Done || t is Abort
}

/// The byte length of a text, as `str::len` reports it.
pub open spec fn utf8_len(s: Seq<char>) -> usize {
    encode_utf8(s).len() as usize
}

pub open spec fn opt_view(o: Option<String>) -> Option<Seq<char>> {
    match o {
        Some(s) => Some(s@),
        None => None,
    }
}

/// The view of an optional text, `""` when absent.
pub open spec fn text_or_empty(o: Option<String>) -> Seq<char> {
    match o {
        Some(s) => s@,
        None => Seq::<char>::empty(),
    }
}

/// The output tool's effect: the buffer left behind (cleared first when
/// asked, then the text and a newline appended under the cap) and the
/// exact result text.
pub open spec fn spec_output_outcome(input: OutputInput, buf: Seq<u8>) -> (Seq<u8>, Seq<char>) {
    let text = text_or_empty(input.text);
    let base = if input.clear == Some(true) {
        Seq::<u8>::empty()
    } else {
        buf
    };
    let payload = encode_utf8(text) + seq![10u8];
    let res = if (base + payload).len() > 100000 {
        "appended (output buffer truncated to 100KB)"@
    } else {
        "ok"@
    };
    (spec_append(base, payload), res)
}

/// Appends text and a newline to the buffer, clearing it first when
/// asked; reports the truncation in the result.
pub fn execute_output(input: &OutputInput, buf: &mut OutputBuffer) -> (r: String)
    ensures
        final(buf).wf(),
        final(buf)@ == spec_output_outcome(*input, old(buf)@).0,
        r@ == spec_output_outcome(*input, old(buf)@).1,
{
    let clear = match input.clear {
        Some(c) => c,
        None => false,
    };
    if clear {
        buf.clear();
    }
    let text: &str = match &input.text {
        Some(t) => t.as_str(),
        None => "",
    };
    proof {
        reveal_strlit("");
        assert(""@ =~= Seq::<char>::empty());
        assert(vstd::utf8::encode_utf8(Seq::<char>::empty()) =~= Seq::<u8>::empty());
    }
    let tr = buf.append_line(text);
    if tr {
        String::from_str("appended (output buffer truncated to 100KB)")
    } else {
        String::from_str("ok")
    }
}

/// What a successful `done` will persist and announce.
pub struct DoneRequest {
    pub slug: String,
    pub filename: String,
    pub url: String,
    pub content: Vec<u8>,
    pub output_text: String,
}

/// Derives the artifact's slug, file name, browsable URL, and content
/// from a validated title and the session's buffer.
pub fn prepare_done(title: &str, buf: &OutputBuffer, base_path: &str) -> (r: DoneRequest)
    ensures
        r.slug@ == spec_slugify(title@),
        r.filename@ == spec_slugify(title@) + ".md"@,
        r.url@ == base_path@ + "/ask/output/"@ + spec_slugify(title@) + ".html"@,
        r.content@ == buf@,
        r.output_text@ == lossy_utf8(buf@),
{
    let slug = slugify(title);
    let mut filename = slug.clone();
    filename.append(".md");
    let mut url = String::from_str(base_path);
    url.append("/ask/output/");
    url.append(slug.as_str());
    url.append(".html");
    let content = buf.contents();
    let output_text = buf.as_string();
    DoneRequest { slug, filename, url, content, output_text }
}

/// The number of copied line entries among `nums[k..]`.
pub open spec fn copy_count(lines: Seq<String>, nums: Seq<usize>, k: int) -> int
    recommends
        0 <= k <= nums.len(),
    decreases nums.len() - k when 0 <= k <= nums.len()
{
    if k >= nums.len() {
        0
    } else {
        (if 1 <= nums[k] && nums[k] <= lines.len() {
            1int
        } else {
            0int
        }) + copy_count(lines, nums, k + 1)
    }
}

/// The bytes `copy` appends for the requested lines `nums[k..]`:
/// each in-range 1-based line and a newline, out-of-range numbers
/// silently skipped.
pub open spec fn copy_payload(lines: Seq<String>, nums: Seq<usize>, k: int) -> Seq<u8>
    recommends
        0 <= k <= nums.len(),
    decreases nums.len() - k when 0 <= k <= nums.len()
{
    if k >= nums.len() {
        Seq::<u8>::empty()
    } else {
        (if 1 <= nums[k] && nums[k] <= lines.len() {
            encode_utf8(lines[nums[k] - 1]@) + seq![10u8]
        } else {
            Seq::<u8>::empty()
        }) + copy_payload(lines, nums, k + 1)
    }
}

/// The header `copy` writes before the copied lines.
pub open spec fn copy_header(ch: Seq<char>, date: Seq<char>) -> Seq<u8> {
    encode_utf8("--- "@ + ch + " "@ + date + " ---\n"@)
}

/// The copy's effect for any input: the buffer left behind and the
/// exact result text.  Validation runs in order — the channel and date
/// fields, the channel lookup, the line specification, the resolved
/// log file, the snapshot — and each failure leaves the buffer alone.
pub open spec fn spec_copy_outcome(
    input: CopyInput,
    tree: ChannelNode,
    store: LogStore,
    buf: Seq<u8>,
) -> (Seq<u8>, Seq<char>) {
    let datev = opt_view(input.date);
    if input.channel is None {
        (buf, "error: channel is required"@)
    } else if datev is None || utf8_len(datev.unwrap()) != 10 {
        (buf, "error: date (YYYY-MM-DD) is required"@)
    } else if input.lines is None {
        (buf, "error: lines spec is required"@)
    } else {
        let chp = input.channel.unwrap()@;
        let date = datev.unwrap();
        let f = spec_find_node(tree, crate::text::split_parts(chp, '/'), 0);
        if f is None {
            (buf, "unknown channel: "@ + chp)
        } else if f.unwrap().channel is None {
            (buf, "not a channel: "@ + chp)
        } else if !({
            let c = f.unwrap().channel.unwrap();
            c.name@.len() > 0 && c.name@[0] == '#'
        }) {
            (buf, "channel not accessible: "@ + chp)
        } else if !line_spec_ok(input.lines.unwrap()@) {
            (buf, line_spec_error(input.lines.unwrap()@))
        } else {
            let c = f.unwrap().channel.unwrap();
            match spec_resolve(c.dirs@, date, 0) {
                None => (buf, "no log for "@ + date + " in "@ + chp),
                Some(pf) => match store_lookup(store, pf.0, 0) {
                    None => (buf, "error reading log for "@ + date),
                    Some(lines) => {
                        let nums = sorted_line_nums(input.lines.unwrap()@);
                        let payload = copy_header(chp, date) + copy_payload(lines, nums, 0);
                        let copied = copy_count(lines, nums, 0);
                        let res = if (buf + payload).len() > 100000 {
                            "copied "@ + spec_digits(copied as nat)
                                + " lines (output buffer truncated to 100KB)"@
                        } else {
                            "copied "@ + spec_digits(copied as nat) + " lines"@
                        };
                        (spec_append(buf, payload), res)
                    },
                },
            }
        }
    }
}

/// Copies requested lines of a dated log into the output buffer.
pub fn execute_copy(
    input: &CopyInput,
    tree: &ChannelNode,
    store: &LogStore,
    buf: &mut OutputBuffer,
) -> (r: String)
    requires
        old(buf).wf(),
    ensures
        final(buf).wf(),
        final(buf)@ == spec_copy_outcome(*input, *tree, *store, old(buf)@).0,
        r@ == spec_copy_outcome(*input, *tree, *store, old(buf)@).1,
{
    let channel_path: &String = match &input.channel {
        Some(c) => c,
        None => {
            return String::from_str("error: channel is required");
        },
    };
    let date: &String = match &input.date {
        Some(d) => {
            if d.as_str().len() == 10 {
                d
            } else {
                return String::from_str("error: date (YYYY-MM-DD) is required");
            }
        },
        None => {
            return String::from_str("error: date (YYYY-MM-DD) is required");
        },
    };
    let lines_spec: &String = match &input.lines {
        Some(l) => l,
        None => {
            return String::from_str("error: lines spec is required");
        },
    };
    let channel = match validate_channel(channel_path.as_str(), tree) {
        Ok(c) => c,
        Err(e) => {
            return e;
        },
    };
    let line_nums = match parse_line_spec(lines_spec.as_str()) {
        Ok(nums) => nums,
        Err(e) => {
            return e;
        },
    };
    let path = match resolve_log_path(channel, date.as_str()) {
        Some(p) => p.0,
        None => {
            let mut e = String::from_str("no log for ");
            e.append(date.as_str());
            e.append(" in ");
            e.append(channel_path.as_str());
            return e;
        },
    };
    let lines = match store.lookup(path.as_str()) {
        Some(l) => l,
        None => {
            let mut e = String::from_str("error reading log for ");
            e.append(date.as_str());
            return e;
        },
    };
    let mut header = String::from_str("--- ");
    header.append(channel_path.as_str());
    header.append(" ");
    header.append(date.as_str());
    header.append(" ---\n");
    let ghost base = old(buf)@;
    let ghost hdr = copy_header(channel_path@, date@);
    let ghost nums = line_nums@;
    let ghost lv = lines@;
    let mut truncated = buf.append_str(header.as_str());
    proof {
        assert(encode_utf8(header@) =~= hdr);
    }
    let nn = line_nums.len();
    let mut copied: u64 = 0;
    let mut k: usize = 0;
    let ghost mut done = Seq::<u8>::empty();
    proof {
        assert(hdr + done =~= hdr);
    }
    while k < nn
        invariant
            k <= nn,
            nn == nums.len(),
            nums == line_nums@,
            lv == lines@,
            copied <= k,
            copied + copy_count(lv, nums, k as int) == copy_count(lv, nums, 0),
            done + copy_payload(lv, nums, k as int) == copy_payload(lv, nums, 0),
            buf@ == spec_append(base, hdr + done),
            buf.wf(),
            truncated == ((base + (hdr + done)).len() > 100000),
        decreases nn - k,
    {
        let n = line_nums[k];
        if n == 0 || n > lines.len() {
            proof {
                assert(copy_payload(lv, nums, k as int) == copy_payload(lv, nums, k + 1));
                assert(copy_count(lv, nums, k as int) == copy_count(lv, nums, k + 1));
            }
        } else {
            let ghost piece = encode_utf8(lv[n - 1]@) + seq![10u8];
            let tr = buf.append_line(lines[n - 1].as_str());
            proof {
                crate::buffer::lemma_append_assoc(base, hdr + done, piece);
                assert((hdr + done) + piece =~= hdr + (done + piece));
                assert(copy_payload(lv, nums, k as int) == piece + copy_payload(lv, nums, k + 1));
                assert((done + piece) + copy_payload(lv, nums, k + 1) =~= done + copy_payload(
                    lv,
                    nums,
                    k as int,
                ));
                if truncated {
                    assert((base + (hdr + (done + piece))).len() > 100000);
                } else {
                    assert(buf@ == spec_append(base, hdr + (done + piece)));
                }
            }
            truncated = truncated || tr;
            copied = copied + 1;
            proof {
                done = done + piece;
            }
        }
        k += 1;
    }
    proof {
        assert(copy_payload(lv, nums, nn as int) =~= Seq::<u8>::empty());
        assert(done + copy_payload(lv, nums, nn as int) =~= done);
        assert(done == copy_payload(lv, nums, 0));
        assert(base + (hdr + done) =~= base + hdr + copy_payload(lv, nums, 0));
    }
    let mut msg = String::from_str("copied ");
    push_u64(&mut msg, copied);
    if truncated {
        msg.append(" lines (output buffer truncated to 100KB)");
    } else {
        msg.append(" lines");
    }
    proof {
        let s = lines_spec@;
        let mapped = line_nums@.map_values(|t: usize| t as int);
        assert forall|x: usize| #[trigger] nums.contains(x) <==> line_set(s).contains(
            x as int,
        ) by {
            if nums.contains(x) {
                let i = choose|i: int| 0 <= i < nums.len() && nums[i] == x;
                assert(mapped[i] == x as int);
                assert(mapped.to_set().contains(x as int));
            }
            if line_set(s).contains(x as int) {
                assert(mapped.to_set().contains(x as int));
                let i = choose|i: int| 0 <= i < mapped.len() && mapped[i] == x as int;
                assert(nums[i] == x);
            }
        }
        let sn = sorted_line_nums(s);
        assert(exists|q: Seq<usize>|
            strictly_sorted(q) && (forall|x: usize| #[trigger] q.contains(x) <==> line_set(
                s,
            ).contains(x as int))) by {
            assert(strictly_sorted(nums) && (forall|x: usize| #[trigger] nums.contains(x)
                <==> line_set(s).contains(x as int)));
        }
        assert(strictly_sorted(sn) && (forall|x: usize| #[trigger] sn.contains(x) <==> line_set(
            s,
        ).contains(x as int)));
        assert forall|x: usize| #[trigger] nums.contains(x) <==> sn.contains(x) by {}
        lemma_sorted_nums_unique(nums, sn);
        assert(nums == sn);
    }
    msg
}


/// The number of regex matches among `lines[i..]`.
pub open spec fn count_matches(lines: Seq<String>, pat: Seq<char>, i: int) -> int
    recommends
        0 <= i <= lines.len(),
    decreases lines.len() - i when 0 <= i <= lines.len()
{
    if i >= lines.len() {
        0
    } else {
        (if regex_match(pat, lines[i]@) {
            1int
        } else {
            0int
        }) + count_matches(lines, pat, i + 1)
    }
}

/// Line `j` is shown: some matching line's context window covers it.
/// The emitted set is the union of the windows `[i - before, i + after]`
/// over the matching lines `i`, so overlapping windows never repeat a
/// line.
pub open spec fn line_emitted(
    lines: Seq<String>,
    pat: Seq<char>,
    bef: int,
    aft: int,
    j: int,
) -> bool {
    exists|i: int|
        0 <= i < lines.len() && #[trigger] regex_match(pat, lines[i]@) && i - bef <= j <= i + aft
}

/// One shown line: its 1-based number right-justified to five columns,
/// a separator, and the text.
pub open spec fn line_entry(lines: Seq<String>, j: int) -> Seq<char> {
    pad_left(spec_digits((j + 1) as nat), 5, ' ') + ": "@ + lines[j]@ + "\n"@
}

/// The shown lines from `j` on, `prev` being the last shown index
/// (or -1): a `--` separator precedes every non-contiguous run.
pub open spec fn excerpt_body(
    lines: Seq<String>,
    pat: Seq<char>,
    bef: int,
    aft: int,
    j: int,
    prev: int,
) -> Seq<char>
    recommends
        0 <= j <= lines.len(),
    decreases lines.len() - j when 0 <= j <= lines.len()
{
    if j >= lines.len() {
        Seq::<char>::empty()
    } else if line_emitted(lines, pat, bef, aft, j) {
        (if prev >= 0 && j > prev + 1 {
            "--\n"@
        } else {
            Seq::<char>::empty()
        }) + line_entry(lines, j) + excerpt_body(lines, pat, bef, aft, j + 1, j)
    } else {
        excerpt_body(lines, pat, bef, aft, j + 1, prev)
    }
}

/// One scanned date's contribution and the scan state after it: mirrors
/// the date loop of the search, newest first, with its three stopping
/// rules (365 dates scanned, the match limit, the 8000-byte output cap).
pub open spec fn scan_result(
    dirs: Seq<ChannelDir>,
    chpath: Seq<char>,
    dates: Seq<Seq<char>>,
    k: int,
    store: LogStore,
    pat: Seq<char>,
    bef: int,
    aft: int,
    count_only: bool,
    maxr: int,
    out: Seq<char>,
    total: int,
    scanned: int,
) -> (Seq<char>, int, int)
    recommends
        0 <= k <= dates.len(),
    decreases dates.len() - k when 0 <= k <= dates.len()
{
    if k >= dates.len() {
        (out, total, scanned)
    } else if scanned >= 365 {
        (out + "\n[stopped: 365 dates scanned]\n"@, total, scanned)
    } else {
        let scanned2 = scanned + 1;
        match spec_resolve(dirs, dates[k], 0) {
            None => scan_result(
                dirs,
                chpath,
                dates,
                k + 1,
                store,
                pat,
                bef,
                aft,
                count_only,
                maxr,
                out,
                total,
                scanned2,
            ),
            Some(pf) => match store_lookup(store, pf.0, 0) {
                None => scan_result(
                    dirs,
                    chpath,
                    dates,
                    k + 1,
                    store,
                    pat,
                    bef,
                    aft,
                    count_only,
                    maxr,
                    out,
                    total,
                    scanned2,
                ),
                Some(lines) => {
                    let n = count_matches(lines, pat, 0);
                    if n == 0 {
                        scan_result(
                            dirs,
                            chpath,
                            dates,
                            k + 1,
                            store,
                            pat,
                            bef,
                            aft,
                            count_only,
                            maxr,
                            out,
                            total,
                            scanned2,
                        )
                    } else if count_only {
                        let out2 = out + dates[k] + ": "@ + spec_digits(n as nat) + " matches\n"@;
                        let total2 = total + n;
                        if total2 >= maxr {
                            (out2, total2, scanned2)
                        } else {
                            scan_result(
                                dirs,
                                chpath,
                                dates,
                                k + 1,
                                store,
                                pat,
                                bef,
                                aft,
                                count_only,
                                maxr,
                                out2,
                                total2,
                                scanned2,
                            )
                        }
                    } else {
                        let out2 = out + "--- "@ + chpath + " "@ + dates[k] + " ("@ + spec_digits(
                            n as nat,
                        ) + " matches) ---\n"@ + excerpt_body(lines, pat, bef, aft, 0, -1);
                        let total2 = total + n;
                        if total2 >= maxr {
                            (
                                out2 + "\n[stopped: "@ + spec_digits(maxr as nat)
                                    + " match limit reached]\n"@,
                                total2,
                                scanned2,
                            )
                        } else if utf8_len(out2) > 8000 {
                            (out2 + "\n[stopped: output size limit]\n"@, total2, scanned2)
                        } else {
                            scan_result(
                                dirs,
                                chpath,
                                dates,
                                k + 1,
                                store,
                                pat,
                                bef,
                                aft,
                                count_only,
                                maxr,
                                out2,
                                total2,
                                scanned2,
                            )
                        }
                    }
                },
            },
        }
    }
}

pub open spec fn date_in_range(d: Seq<char>, from: Option<Seq<char>>, to: Option<Seq<char>>) -> bool {
    &&& (from is None || lex_le(from.unwrap(), d))
    &&& (to is None || lex_le(d, to.unwrap()))
}

pub open spec fn filter_dates(
    q: Seq<Seq<char>>,
    from: Option<Seq<char>>,
    to: Option<Seq<char>>,
) -> Seq<Seq<char>>
    decreases q.len(),
{
    if q.len() == 0 {
        Seq::<Seq<char>>::empty()
    } else {
        filter_dates(q.drop_last(), from, to) + (if date_in_range(q.last(), from, to) {
            seq![q.last()]
        } else {
            Seq::<Seq<char>>::empty()
        })
    }
}

/// A ten-byte date option, as the search accepts it.
pub open spec fn date_opt(o: Option<String>) -> Option<Seq<char>> {
    if o is Some && utf8_len(o.unwrap()@) == 10 {
        Some(o.unwrap()@)
    } else {
        None
    }
}

/// The dates a search visits, in order: the one requested date, or the
/// channel's dates within the range, newest first unless oldest-first
/// was asked for.
pub open spec fn spec_search_dates(input: SearchInput, ch: Channel) -> Seq<Seq<char>> {
    match date_opt(input.date) {
        Some(d) => seq![d],
        None => {
            let q = filter_dates(
                spec_channel_dates(ch),
                date_opt(input.from_date),
                date_opt(input.to_date),
            );
            if input.order is Some && input.order.unwrap()@ == "oldest"@ {
                q
            } else {
                Seq::new(q.len(), |k: int| q[q.len() - 1 - k])
            }
        },
    }
}

pub open spec fn spec_ctx_after(input: SearchInput) -> int {
    let c = if input.around is Some { input.around.unwrap() as int } else { 0 };
    let a = if input.after is Some { input.after.unwrap() as int } else { 0 };
    if c >= a { c } else { a }
}

pub open spec fn spec_ctx_before(input: SearchInput) -> int {
    let c = if input.around is Some { input.around.unwrap() as int } else { 0 };
    let b = if input.before is Some { input.before.unwrap() as int } else { 0 };
    if c >= b { c } else { b }
}

pub open spec fn spec_max_results(input: SearchInput) -> int {
    if input.max_results is Some { input.max_results.unwrap() as int } else { 50 }
}

/// The search's full text output for a validated channel and compiled
/// pattern.
pub open spec fn spec_search_result(input: SearchInput, ch: Channel, store: LogStore) -> Seq<char> {
    let pat = input.pattern.unwrap()@;
    let chpath = input.channel.unwrap()@;
    let co = input.count_only == Some(true);
    let res = scan_result(
        ch.dirs@,
        chpath,
        spec_search_dates(input, ch),
        0,
        store,
        pat,
        spec_ctx_before(input),
        spec_ctx_after(input),
        co,
        spec_max_results(input),
        Seq::<char>::empty(),
        0,
        0,
    );
    if res.1 == 0 {
        "no matches for \""@ + pat + "\" in "@ + chpath
    } else if co {
        res.0 + "total: "@ + spec_digits(res.1 as nat) + " matches across "@ + spec_digits(
            res.2 as nat,
        ) + " dates scanned"@
    } else {
        res.0
    }
}

/// The search's result text for any input: each validation failure with
/// its exact message, in the order the checks run, else the scan output.
pub open spec fn spec_search_outcome(
    input: SearchInput,
    tree: ChannelNode,
    store: LogStore,
) -> Seq<char> {
    if input.pattern is None || input.pattern.unwrap()@.len() == 0 {
        "error: pattern is required"@
    } else if input.channel is None {
        "error: channel is required"@
    } else {
        let chp = input.channel.unwrap()@;
        let f = spec_find_node(tree, crate::text::split_parts(chp, '/'), 0);
        if f is None {
            "unknown channel: "@ + chp
        } else if f.unwrap().channel is None {
            "not a channel: "@ + chp
        } else if !({
            let c = f.unwrap().channel.unwrap();
            c.name@.len() > 0 && c.name@[0] == '#'
        }) {
            "channel not accessible: "@ + chp
        } else if !crate::pattern::regex_compiles(input.pattern.unwrap()@) {
            "invalid regex: "@ + crate::pattern::regex_error_text(input.pattern.unwrap()@)
        } else {
            spec_search_result(input, f.unwrap().channel.unwrap(), store)
        }
    }
}

fn find_matches(cp: &CompiledPattern, lines: &Vec<String>) -> (ms: Vec<usize>)
    ensures
        strictly_sorted(ms@),
        forall|k: int|
            0 <= k < ms@.len() ==> (#[trigger] ms@[k]) < lines@.len() && regex_match(
                cp.src(),
                lines@[ms@[k] as int]@,
            ),
        forall|i: int|
            0 <= i < lines@.len() && #[trigger] regex_match(cp.src(), lines@[i]@) ==> exists|k: int|
                0 <= k < ms@.len() && ms@[k] == i,
        ms@.len() == count_matches(lines@, cp.src(), 0),
{
    let n = lines.len();
    let mut ms: Vec<usize> = Vec::new();
    let mut i: usize = 0;
    while i < n
        invariant
            i <= n,
            n == lines@.len(),
            forall|k: int|
                0 <= k < ms@.len() ==> (#[trigger] ms@[k]) < i && regex_match(
                    cp.src(),
                    lines@[ms@[k] as int]@,
                ),
            forall|k1: int, k2: int| 0 <= k1 < k2 < ms@.len() ==> ms@[k1] < ms@[k2],
            forall|q: int|
                0 <= q < i && #[trigger] regex_match(cp.src(), lines@[q]@) ==> exists|k: int|
                    0 <= k < ms@.len() && ms@[k] == q,
            count_matches(lines@, cp.src(), 0) == ms@.len() + count_matches(
                lines@,
                cp.src(),
                i as int,
            ),
        decreases n - i,
    {
        let ghost pre = ms@;
        if cp.is_match(lines[i].as_str()) {
            ms.push(i);
        }
        proof {
            assert forall|q: int|
                0 <= q < i + 1 && #[trigger] regex_match(cp.src(), lines@[q]@) implies exists|k: int|
                0 <= k < ms@.len() && ms@[k] == q by {
                if q < i {
                    let w = choose|w: int| 0 <= w < pre.len() && pre[w] == q;
                    assert(ms@[w] == q);
                } else {
                    assert(ms@[ms@.len() - 1] == q);
                }
            }
        }
        i += 1;
    }
    ms
}

fn emitted_at(
    lines: &Vec<String>,
    ms: &Vec<usize>,
    Ghost(pat): Ghost<Seq<char>>,
    j: usize,
    bef: u64,
    aft: u64,
) -> (r: bool)
    requires
        forall|k: int|
            0 <= k < ms@.len() ==> (#[trigger] ms@[k]) < lines@.len() && regex_match(
                pat,
                lines@[ms@[k] as int]@,
            ),
        forall|i: int|
            0 <= i < lines@.len() && #[trigger] regex_match(pat, lines@[i]@) ==> exists|k: int|
                0 <= k < ms@.len() && ms@[k] == i,
    ensures
        r == line_emitted(lines@, pat, bef as int, aft as int, j as int),
{
    let n = ms.len();
    let mut k: usize = 0;
    while k < n
        invariant
            k <= n,
            n == ms@.len(),
            forall|q: int|
                0 <= q < ms@.len() ==> (#[trigger] ms@[q]) < lines@.len() && regex_match(
                    pat,
                    lines@[ms@[q] as int]@,
                ),
            forall|q: int|
                0 <= q < k ==> !((#[trigger] ms@[q]) - bef <= j as int <= ms@[q] + aft),
        decreases n - k,
    {
        let m = ms[k];
        proof {
            assert(m == ms@[k as int]);
            assert(regex_match(pat, lines@[m as int]@));
        }
        if (j as u128) + (bef as u128) >= (m as u128) && (j as u128) <= (m as u128) + (aft
            as u128) {
            proof {
                assert((m as int) - (bef as int) <= j as int <= (m as int) + (aft as int));
            }
            return true;
        }
        k += 1;
    }
    proof {
        if line_emitted(lines@, pat, bef as int, aft as int, j as int) {
            let i = choose|i: int|
                0 <= i < lines@.len() && #[trigger] regex_match(pat, lines@[i]@) && i - bef <= j
                    as int <= i + aft;
            let w = choose|w: int| 0 <= w < ms@.len() && ms@[w] == i;
            assert(!(ms@[w] - bef <= j as int <= ms@[w] + aft));
        }
    }
    false
}

fn render_body(
    lines: &Vec<String>,
    ms: &Vec<usize>,
    Ghost(pat): Ghost<Seq<char>>,
    bef: u64,
    aft: u64,
    j: usize,
    prev1: usize,
    out: &mut String,
)
    requires
        j <= lines@.len(),
        prev1 <= j,
        forall|k: int|
            0 <= k < ms@.len() ==> (#[trigger] ms@[k]) < lines@.len() && regex_match(
                pat,
                lines@[ms@[k] as int]@,
            ),
        forall|i: int|
            0 <= i < lines@.len() && #[trigger] regex_match(pat, lines@[i]@) ==> exists|k: int|
                0 <= k < ms@.len() && ms@[k] == i,
    ensures
        final(out)@ == old(out)@ + excerpt_body(
            lines@,
            pat,
            bef as int,
            aft as int,
            j as int,
            prev1 - 1,
        ),
    decreases lines@.len() - j,
{
    let n = lines.len();
    if j >= n {
        assert(out@ =~= old(out)@ + excerpt_body(
            lines@,
            pat,
            bef as int,
            aft as int,
            j as int,
            prev1 - 1,
        ));
        return ;
    }
    if emitted_at(lines, ms, Ghost(pat), j, bef, aft) {
        if prev1 > 0 && j > prev1 {
            out.append("--\n");
        }
        push_padded_u64(out, (j + 1) as u64, 5, ' ');
        out.append(": ");
        out.append(lines[j].as_str());
        out.append("\n");
        render_body(lines, ms, Ghost(pat), bef, aft, j + 1, j + 1, out);
        proof {
            assert(out@ =~= old(out)@ + excerpt_body(
                lines@,
                pat,
                bef as int,
                aft as int,
                j as int,
                prev1 - 1,
            ));
        }
    } else {
        render_body(lines, ms, Ghost(pat), bef, aft, j + 1, prev1, out);
    }
}

fn scan_dates_rec(
    channel: &Channel,
    chpath: &String,
    dates: &Vec<String>,
    k: usize,
    store: &LogStore,
    cp: &CompiledPattern,
    bef: u64,
    aft: u64,
    count_only: bool,
    maxr: u64,
    out: &mut String,
    total: &mut u128,
    scanned: &mut u64,
)
    requires
        k <= dates@.len(),
        *old(scanned) <= 365,
        *old(total) <= (*old(scanned) as int) * 0xFFFFFFFFFFFFFFFF,
    ensures
        ({
            let res = scan_result(
                channel.dirs@,
                chpath@,
                crate::channels::seg_views(dates@),
                k as int,
                *store,
                cp.src(),
                bef as int,
                aft as int,
                count_only,
                maxr as int,
                old(out)@,
                *old(total) as int,
                *old(scanned) as int,
            );
            &&& final(out)@ == res.0
            &&& *final(total) as int == res.1
            &&& *final(scanned) as int == res.2
        }),
        *final(scanned) <= 365,
        *final(total) <= (*final(scanned) as int) * 0xFFFFFFFFFFFFFFFF,
    decreases dates@.len() - k,
{
    let ghost dv = crate::channels::seg_views(dates@);
    if k >= dates.len() {
        return ;
    }
    if *scanned >= 365 {
        out.append("\n[stopped: 365 dates scanned]\n");
        return ;
    }
    *scanned = *scanned + 1;
    let date = &dates[k];
    let path = match resolve_log_path(channel, date.as_str()) {
        Some(p) => p.0,
        None => {
            scan_dates_rec(
                channel,
                chpath,
                dates,
                k + 1,
                store,
                cp,
                bef,
                aft,
                count_only,
                maxr,
                out,
                total,
                scanned,
            );
            return ;
        },
    };
    let lines = match store.lookup(path.as_str()) {
        Some(l) => l,
        None => {
            scan_dates_rec(
                channel,
                chpath,
                dates,
                k + 1,
                store,
                cp,
                bef,
                aft,
                count_only,
                maxr,
                out,
                total,
                scanned,
            );
            return ;
        },
    };
    let ms = find_matches(cp, lines);
    let n = ms.len();
    if n == 0 {
        scan_dates_rec(
            channel,
            chpath,
            dates,
            k + 1,
            store,
            cp,
            bef,
            aft,
            count_only,
            maxr,
            out,
            total,
            scanned,
        );
        return ;
    }
    proof {
        assert((n as u128) <= 0xFFFFFFFFFFFFFFFFu128);
    }
    if count_only {
        out.append(date.as_str());
        out.append(": ");
        push_u64(out, n as u64);
        out.append(" matches\n");
        *total = *total + (n as u128);
        if *total >= (maxr as u128) {
            return ;
        }
        scan_dates_rec(
            channel,
            chpath,
            dates,
            k + 1,
            store,
            cp,
            bef,
            aft,
            count_only,
            maxr,
            out,
            total,
            scanned,
        );
    } else {
        out.append("--- ");
        out.append(chpath.as_str());
        out.append(" ");
        out.append(date.as_str());
        out.append(" (");
        push_u64(out, n as u64);
        out.append(" matches) ---\n");
        render_body(lines, &ms, Ghost(cp.src()), bef, aft, 0, 0, out);
        *total = *total + (n as u128);
        if *total >= (maxr as u128) {
            out.append("\n[stopped: ");
            push_u64(out, maxr);
            out.append(" match limit reached]\n");
            return ;
        }
        if out.as_str().len() > 8000 {
            out.append("\n[stopped: output size limit]\n");
            return ;
        }
        scan_dates_rec(
            channel,
            chpath,
            dates,
            k + 1,
            store,
            cp,
            bef,
            aft,
            count_only,
            maxr,
            out,
            total,
            scanned,
        );
    }
}

/// Runs a `search` tool call: validates the input, compiles the
/// case-insensitive pattern, and scans the channel's dated logs.
///
/// Validation is reported in order: a missing or empty pattern, a
/// missing channel, a channel that does not resolve, and a pattern the
/// regex engine rejects (`invalid regex: ...`).  On a valid call the
/// result is exactly the formatted scan output.
pub fn execute_search(input: &SearchInput, tree: &ChannelNode, store: &LogStore) -> (r: String)
    ensures
        r@ == spec_search_outcome(*input, *tree, *store),
{
    let pattern: &String = match &input.pattern {
        Some(p) => {
            if p.as_str().unicode_len() == 0 {
                return String::from_str("error: pattern is required");
            }
            p
        },
        None => {
            return String::from_str("error: pattern is required");
        },
    };
    let channel_path: &String = match &input.channel {
        Some(c) => c,
        None => {
            return String::from_str("error: channel is required");
        },
    };
    let channel = match validate_channel(channel_path.as_str(), tree) {
        Ok(c) => c,
        Err(e) => {
            return e;
        },
    };
    let cp = match CompiledPattern::compile(pattern.as_str()) {
        Ok(c) => c,
        Err(e) => {
            let mut msg = String::from_str("invalid regex: ");
            msg.append(e.as_str());
            return msg;
        },
    };
    let count_only = match input.count_only {
        Some(b) => b,
        None => false,
    };
    let maxr: u64 = match input.max_results {
        Some(c) => c,
        None => 50,
    };
    let around: u64 = match input.around {
        Some(c) => c,
        None => 0,
    };
    let after: u64 = match input.after {
        Some(a) => a,
        None => 0,
    };
    let before: u64 = match input.before {
        Some(b) => b,
        None => 0,
    };
    let aft = if around >= after {
        around
    } else {
        after
    };
    let bef = if around >= before {
        around
    } else {
        before
    };
    let mut dates: Vec<String> = Vec::new();
    let mut specific = false;
    match &input.date {
        Some(d) => {
            if d.as_str().len() == 10 {
                dates.push(d.clone());
                specific = true;
            }
        },
        None => {},
    }
    if !specific {
        let all = channel_dates(channel);
        let from_ok: Option<&String> = match &input.from_date {
            Some(fd) => {
                if fd.as_str().len() == 10 {
                    Some(fd)
                } else {
                    None
                }
            },
            None => None,
        };
        let to_ok: Option<&String> = match &input.to_date {
            Some(td) => {
                if td.as_str().len() == 10 {
                    Some(td)
                } else {
                    None
                }
            },
            None => None,
        };
        let ghost fromv = date_opt(input.from_date);
        let ghost tov = date_opt(input.to_date);
        let na = all.len();
        let mut fd: Vec<String> = Vec::new();
        let mut i: usize = 0;
        while i < na
            invariant
                i <= na,
                na == all@.len(),
                fromv == date_opt(input.from_date),
                tov == date_opt(input.to_date),
                (match from_ok {
                    Some(s) => fromv == Some(s@),
                    None => fromv is None,
                }),
                (match to_ok {
                    Some(s) => tov == Some(s@),
                    None => tov is None,
                }),
                crate::channels::seg_views(fd@) == filter_dates(
                    crate::channels::seg_views(all@).take(i as int),
                    fromv,
                    tov,
                ),
            decreases na - i,
        {
            let d = &all[i];
            let pass_from = match from_ok {
                Some(f) => crate::text::str_le(f.as_str(), d.as_str()),
                None => true,
            };
            let pass_to = match to_ok {
                Some(tt) => crate::text::str_le(d.as_str(), tt.as_str()),
                None => true,
            };
            if pass_from && pass_to {
                fd.push(d.clone());
            }
            proof {
                let av = crate::channels::seg_views(all@);
                assert(av.take(i + 1).drop_last() =~= av.take(i as int));
                assert(av.take(i + 1).last() == av[i as int]);
                assert(crate::channels::seg_views(fd@) =~= filter_dates(
                    av.take(i + 1),
                    fromv,
                    tov,
                ));
            }
            i += 1;
        }
        proof {
            assert(crate::channels::seg_views(all@).take(na as int) =~= crate::channels::seg_views(
                all@,
            ));
        }
        let oldest = match &input.order {
            Some(o) => str_eq(o.as_str(), "oldest"),
            None => false,
        };
        if oldest {
            dates = fd;
        } else {
            let nf = fd.len();
            let mut i2: usize = nf;
            while i2 > 0
                invariant
                    i2 <= nf,
                    nf == fd@.len(),
                    dates@.len() == nf - i2,
                    forall|q: int|
                        0 <= q < dates@.len() ==> #[trigger] dates@[q] == fd@[nf - 1 - q],
                decreases i2,
            {
                dates.push(fd[i2 - 1].clone());
                i2 -= 1;
            }
        }
    }
    proof {
        assert(crate::channels::seg_views(dates@) =~= spec_search_dates(*input, *channel));
    }
    let mut out = String::new();
    let mut total: u128 = 0;
    let mut scanned: u64 = 0;
    scan_dates_rec(
        channel,
        channel_path,
        &dates,
        0,
        store,
        &cp,
        bef,
        aft,
        count_only,
        maxr,
        &mut out,
        &mut total,
        &mut scanned,
    );
    if total == 0 {
        let mut msg = String::from_str("no matches for \"");
        msg.append(pattern.as_str());
        msg.append("\" in ");
        msg.append(channel_path.as_str());
        return msg;
    }
    if count_only {
        out.append("total: ");
        push_u128(&mut out, total);
        out.append(" matches across ");
        push_u64(&mut out, scanned);
        out.append(" dates scanned");
        return out;
    }
    out
}


/// The preview of a text: the whole text, or its longest prefix within
/// `cap` UTF-8 bytes.
pub open spec fn preview(s: Seq<char>, cap: int) -> Seq<char> {
    if utf8_len(s) > cap {
        take_bytes(s, cap)
    } else {
        s
    }
}

pub open spec fn opt_or(o: Option<String>, d: Seq<char>) -> Seq<char> {
    match o {
        Some(s) => s@,
        None => d,
    }
}

/// The audit summary of a search invocation.
pub open spec fn spec_search_summary(si: SearchInput) -> Seq<char> {
    let s0 = "pattern="@ + quoted(opt_or(si.pattern, "?"@)) + ", channel="@ + opt_or(
        si.channel,
        "?"@,
    );
    let s1 = s0 + (if si.date is Some {
        ", date="@ + si.date.unwrap()@
    } else {
        Seq::<char>::empty()
    });
    let s2 = s1 + (if si.from_date is Some {
        ", from="@ + si.from_date.unwrap()@
    } else {
        Seq::<char>::empty()
    });
    let s3 = s2 + (if si.to_date is Some {
        ", to="@ + si.to_date.unwrap()@
    } else {
        Seq::<char>::empty()
    });
    let s4 = s3 + (if si.order is Some {
        ", order="@ + si.order.unwrap()@
    } else {
        Seq::<char>::empty()
    });
    let s5 = s4 + (if si.count_only == Some(true) {
        ", count-only"@
    } else {
        Seq::<char>::empty()
    });
    s5 + (if si.around is Some {
        ", C="@ + spec_digits(si.around.unwrap() as nat)
    } else {
        Seq::<char>::empty()
    })
}

/// The one-line audit summary of a tool invocation.
pub open spec fn spec_summary(t: ToolInput) -> Seq<char> {
    match t {
        ToolInput::Search(si) => spec_search_summary(si),
        ToolInput::Copy(ci) => opt_or(ci.channel, "?"@) + " "@ + opt_or(ci.date, "?"@) + " lines="@
            + opt_or(ci.lines, "?"@),
        ToolInput::Output(oi) => quoted(preview(text_or_empty(oi.text), 60)),
        ToolInput::Done(di) => "title="@ + quoted(opt_or(di.title, "?"@)),
        ToolInput::Display(di) => preview(text_or_empty(di.text), 80),
        ToolInput::Abort => Seq::<char>::empty(),
        ToolInput::Unknown { raw, .. } => raw@,
    }
}

#[verifier::rlimit(60)]
fn summarize_search(si: &SearchInput) -> (r: String)
    ensures
        r@ == spec_search_summary(*si),
{
    let mut out = String::new();
    out.append("pattern=");
    let pv = str_chars(opt_or_q(&si.pattern));
    push_quoted(&mut out, &pv);
    out.append(", channel=");
    out.append(opt_or_q(&si.channel));
    match &si.date {
        Some(d) => {
            out.append(", date=");
            out.append(d.as_str());
        },
        None => {},
    }
    match &si.from_date {
        Some(d) => {
            out.append(", from=");
            out.append(d.as_str());
        },
        None => {},
    }
    match &si.to_date {
        Some(d) => {
            out.append(", to=");
            out.append(d.as_str());
        },
        None => {},
    }
    match &si.order {
        Some(d) => {
            out.append(", order=");
            out.append(d.as_str());
        },
        None => {},
    }
    let co = match si.count_only {
        Some(b) => b,
        None => false,
    };
    if co {
        out.append(", count-only");
    }
    match si.around {
        Some(c) => {
            out.append(", C=");
            push_u64(&mut out, c);
        },
        None => {},
    }
    out
}

fn opt_or_q(o: &Option<String>) -> (r: &str)
    ensures
        r@ == opt_or(*o, "?"@),
{
    match o {
        Some(s) => s.as_str(),
        None => "?",
    }
}

fn push_preview(out: &mut String, s: &str, cap: usize)
    ensures
        final(out)@ == old(out)@ + preview(s@, cap as int),
{
    if s.len() > cap {
        let v = str_chars(s);
        proof {
            assert(v@.skip(0) =~= v@);
        }
        crate::text::push_prefix_bytes(out, &v, 0, cap);
    } else {
        out.append(s);
    }
}

fn push_quoted_preview(out: &mut String, s: &str, cap: usize)
    ensures
        final(out)@ == old(out)@ + quoted(preview(s@, cap as int)),
{
    let mut p = String::new();
    push_preview(&mut p, s, cap);
    let pv = str_chars(p.as_str());
    push_quoted(out, &pv);
}

/// Summarizes a tool invocation for the audit stream, previewing and
/// quoting free text.
#[verifier::rlimit(60)]
pub fn summarize_input(t: &ToolInput) -> (r: String)
    ensures
        r@ == spec_summary(*t),
{
    let mut out = String::new();
    match t {
        ToolInput::Search(si) => {
            let s = summarize_search(si);
            out.append(s.as_str());
        },
        ToolInput::Copy(ci) => {
            out.append(opt_or_q(&ci.channel));
            out.append(" ");
            out.append(opt_or_q(&ci.date));
            out.append(" lines=");
            out.append(opt_or_q(&ci.lines));
        },
        ToolInput::Output(oi) => {
            let text: &str = match &oi.text {
                Some(s) => s.as_str(),
                None => "",
            };
            proof {
                reveal_strlit("");
            }
            push_quoted_preview(&mut out, text, 60);
        },
        ToolInput::Done(di) => {
            out.append("title=");
            let tv = str_chars(opt_or_q(&di.title));
            push_quoted(&mut out, &tv);
        },
        ToolInput::Display(di) => {
            let text: &str = match &di.text {
                Some(s) => s.as_str(),
                None => "",
            };
            proof {
                reveal_strlit("");
            }
            push_preview(&mut out, text, 80);
        },
        ToolInput::Abort => {},
        ToolInput::Unknown { raw, .. } => {
            out.append(raw.as_str());
        },
    }
    out
}


/// One parameter of a tool's input schema.
pub struct ToolParam {
    pub name: String,
    pub kind: String,
    pub description: String,
    pub allowed: Vec<String>,
}

/// One tool's wire definition: name, description, typed parameters and
/// the required ones.
pub struct ToolDef {
    pub name: String,
    pub description: String,
    pub params: Vec<ToolParam>,
    pub required: Vec<String>,
}

fn param(name: &str, kind: &str, description: &str) -> (r: ToolParam)
    ensures
        r.name@ == name@,
        r.kind@ == kind@,
        r.description@ == description@,
        r.allowed@.len() == 0,
{
    ToolParam {
        name: String::from_str(name),
        kind: String::from_str(kind),
        description: String::from_str(description),
        allowed: Vec::new(),
    }
}

/// The six tool definitions, in dispatch order; the schema the model is
/// offered is built from these.
pub fn build_tool_definitions() -> (r: Vec<ToolDef>)
    ensures
        r@.len() == 6,
        r@[0].name@ == "search"@,
        r@[1].name@ == "copy"@,
        r@[2].name@ == "output"@,
        r@[3].name@ == "done"@,
        r@[4].name@ == "display"@,
        r@[5].name@ == "abort"@,
        r@[0].required@.len() == 2 && r@[0].required@[0]@ == "pattern"@ && r@[0].required@[1]@
            == "channel"@,
        r@[1].required@.len() == 3 && r@[1].required@[0]@ == "channel"@ && r@[1].required@[1]@
            == "date"@ && r@[1].required@[2]@ == "lines"@,
        r@[2].required@.len() == 1 && r@[2].required@[0]@ == "text"@,
        r@[3].required@.len() == 1 && r@[3].required@[0]@ == "title"@,
        r@[4].required@.len() == 1 && r@[4].required@[0]@ == "text"@,
        r@[5].required@.len() == 0,
        r@[0].params@.len() == 11,
        r@[0].params@[0].name@ == "pattern"@ && r@[0].params@[0].kind@ == "string"@,
        r@[0].params@[1].name@ == "channel"@ && r@[0].params@[1].kind@ == "string"@,
        r@[0].params@[2].name@ == "date"@ && r@[0].params@[2].kind@ == "string"@,
        r@[0].params@[3].name@ == "from_date"@ && r@[0].params@[3].kind@ == "string"@,
        r@[0].params@[4].name@ == "to_date"@ && r@[0].params@[4].kind@ == "string"@,
        r@[0].params@[5].name@ == "order"@ && r@[0].params@[5].kind@ == "string"@
            && r@[0].params@[5].allowed@.len() == 2 && r@[0].params@[5].allowed@[0]@ == "newest"@
            && r@[0].params@[5].allowed@[1]@ == "oldest"@,
        r@[0].params@[6].name@ == "A"@ && r@[0].params@[6].kind@ == "integer"@,
        r@[0].params@[7].name@ == "B"@ && r@[0].params@[7].kind@ == "integer"@,
        r@[0].params@[8].name@ == "C"@ && r@[0].params@[8].kind@ == "integer"@,
        r@[0].params@[9].name@ == "n"@ && r@[0].params@[9].kind@ == "boolean"@,
        r@[0].params@[10].name@ == "c"@ && r@[0].params@[10].kind@ == "integer"@,
        r@[1].params@.len() == 3 && r@[1].params@[0].name@ == "channel"@ && r@[1].params@[1].name@
            == "date"@ && r@[1].params@[2].name@ == "lines"@,
        r@[2].params@.len() == 2 && r@[2].params@[0].name@ == "text"@ && r@[2].params@[1].name@
            == "clear"@ && r@[2].params@[1].kind@ == "boolean"@,
        r@[3].params@.len() == 1 && r@[3].params@[0].name@ == "title"@,
        r@[4].params@.len() == 1 && r@[4].params@[0].name@ == "text"@,
        r@[5].params@.len() == 0,
        r@[0].description@
            == "Grep-like search through IRC logs. Returns matching lines with line numbers."@,
        r@[1].description@ == "Copy specific line ranges from a log file into the output buffer."@,
        r@[2].description@ == "Append text to the output buffer (titles, separators, summaries)."@,
        r@[3].description@ == "Save the output buffer to a file and finish the session."@,
        r@[4].description@ == "Show a progress message to the user in real-time."@,
        r@[5].description@
            == "Cancel the session (use when the query is unrelated to IRC log search)."@,
{
    let mut defs: Vec<ToolDef> = Vec::new();

    let mut sp: Vec<ToolParam> = Vec::new();
    sp.push(param("pattern", "string", "Case-insensitive regex pattern to search for"));
    sp.push(param("channel", "string", "Channel path (e.g. \"OFTC/#bcachefs-dev\")"));
    sp.push(param("date", "string", "Specific date YYYY-MM-DD to search"));
    sp.push(param("from_date", "string", "Start of date range YYYY-MM-DD (inclusive)"));
    sp.push(param("to_date", "string", "End of date range YYYY-MM-DD (inclusive)"));
    let mut order = param("order", "string", "Search order: newest-first (default) or oldest-first");
    order.allowed.push(String::from_str("newest"));
    order.allowed.push(String::from_str("oldest"));
    sp.push(order);
    sp.push(param("A", "integer", "Lines of context after each match"));
    sp.push(param("B", "integer", "Lines of context before each match"));
    sp.push(param("C", "integer", "Lines of context before and after each match"));
    sp.push(param("n", "boolean", "Count-only mode: return match count per date instead of lines"));
    sp.push(param("c", "integer", "Max number of matching lines to return (default 50)"));
    let mut sreq: Vec<String> = Vec::new();
    sreq.push(String::from_str("pattern"));
    sreq.push(String::from_str("channel"));
    defs.push(
        ToolDef {
            name: String::from_str("search"),
            description: String::from_str(
                "Grep-like search through IRC logs. Returns matching lines with line numbers.",
            ),
            params: sp,
            required: sreq,
        },
    );

    let mut cp: Vec<ToolParam> = Vec::new();
    cp.push(param("channel", "string", "Channel path"));
    cp.push(param("date", "string", "Date YYYY-MM-DD"));
    cp.push(param("lines", "string", "Line spec: e.g. \"1,5,10,20-30,300-320\""));
    let mut creq: Vec<String> = Vec::new();
    creq.push(String::from_str("channel"));
    creq.push(String::from_str("date"));
    creq.push(String::from_str("lines"));
    defs.push(
        ToolDef {
            name: String::from_str("copy"),
            description: String::from_str(
                "Copy specific line ranges from a log file into the output buffer.",
            ),
            params: cp,
            required: creq,
        },
    );

    let mut op: Vec<ToolParam> = Vec::new();
    op.push(param("text", "string", "Text to append"));
    op.push(param("clear", "boolean", "Clear the buffer before appending"));
    let mut oreq: Vec<String> = Vec::new();
    oreq.push(String::from_str("text"));
    defs.push(
        ToolDef {
            name: String::from_str("output"),
            description: String::from_str(
                "Append text to the output buffer (titles, separators, summaries).",
            ),
            params: op,
            required: oreq,
        },
    );

    let mut dp: Vec<ToolParam> = Vec::new();
    dp.push(param("title", "string", "Title for the output file (used to generate filename slug)"));
    let mut dreq: Vec<String> = Vec::new();
    dreq.push(String::from_str("title"));
    defs.push(
        ToolDef {
            name: String::from_str("done"),
            description: String::from_str(
                "Save the output buffer to a file and finish the session.",
            ),
            params: dp,
            required: dreq,
        },
    );

    let mut ip: Vec<ToolParam> = Vec::new();
    ip.push(param("text", "string", "Message to display"));
    let mut ireq: Vec<String> = Vec::new();
    ireq.push(String::from_str("text"));
    defs.push(
        ToolDef {
            name: String::from_str("display"),
            description: String::from_str("Show a progress message to the user in real-time."),
            params: ip,
            required: ireq,
        },
    );

    defs.push(
        ToolDef {
            name: String::from_str("abort"),
            description: String::from_str(
                "Cancel the session (use when the query is unrelated to IRC log search).",
            ),
            params: Vec::new(),
            required: Vec::new(),
        },
    );

    defs
}

} // verus!
