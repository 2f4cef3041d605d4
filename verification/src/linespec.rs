//! The line-range parser: compact specifications such as `"1,5,10-20"`
//! name sets of 1-based line numbers.

use vstd::prelude::*;
use vstd::set_lib::set_int_range;
use vstd::string::StrSliceExecFns;
use vstd::string::StringExecFns;

use crate::text::all_digits;
use crate::text::digits_val;
use crate::text::find_char_from;
use crate::text::first_at_or_after;
use crate::text::is_digit;
use crate::text::lemma_split_first;
use crate::text::parse_usize;
use crate::text::split_ranges;
use crate::text::split_scan;
use crate::text::str_chars;
use crate::text::push_u64;

verus! {

/// The characters a line specification may contain.
pub open spec fn line_spec_char_ok(c: char) -> bool {
    is_digit(c) || c == ',' || c == '-'
}

/// Validity of one comma-separated part `s[a..b]`: empty, a line number
/// `>= 1`, or an ascending range at most 500 wide.
pub open spec fn part_ok(s: Seq<char>, a: int, b: int) -> bool {
    a == b || {
        let h = first_at_or_after(s, '-', a);
        if h < b {
            let sv = digits_val(s.subrange(a, h));
            let ev = digits_val(s.subrange(h + 1, b));
            &&& a < h
            &&& h + 1 < b
            &&& all_digits(s.subrange(a, h))
            &&& all_digits(s.subrange(h + 1, b))
            &&& sv <= usize::MAX
            &&& ev <= usize::MAX
            &&& sv >= 1
            &&& ev >= 1
            &&& sv <= ev
            &&& ev - sv <= 500
        } else {
            &&& a < b
            &&& all_digits(s.subrange(a, b))
            &&& digits_val(s.subrange(a, b)) <= usize::MAX
            &&& digits_val(s.subrange(a, b)) >= 1
        }
    }
}

/// The line numbers one part names.
pub open spec fn part_set(s: Seq<char>, a: int, b: int) -> Set<int> {
    if a == b {
        Set::empty()
    } else {
        let h = first_at_or_after(s, '-', a);
        if h < b {
            set_int_range(
                digits_val(s.subrange(a, h)) as int,
                (digits_val(s.subrange(h + 1, b)) + 1) as int,
            )
        } else {
            Set::empty().insert(digits_val(s.subrange(a, b)) as int)
        }
    }
}

pub open spec fn parts_ok(s: Seq<char>, ps: Seq<(int, int)>) -> bool
    decreases ps.len(),
{
    ps.len() == 0 || (part_ok(s, ps[0].0, ps[0].1) && parts_ok(s, ps.drop_first()))
}

pub open spec fn parts_set(s: Seq<char>, ps: Seq<(int, int)>) -> Set<int>
    decreases ps.len(),
{
    if ps.len() == 0 {
        Set::empty()
    } else {
        part_set(s, ps[0].0, ps[0].1).union(parts_set(s, ps.drop_first()))
    }
}

/// All line numbers a specification names.
pub open spec fn line_set(s: Seq<char>) -> Set<int> {
    parts_set(s, split_ranges(s, ','))
}

/// A specification that parses successfully: non-empty, drawn from the
/// right characters, every part valid, and at most 500 distinct numbers.
pub open spec fn line_spec_ok(s: Seq<char>) -> bool {
    &&& s.len() > 0
    &&& (forall|i: int| 0 <= i < s.len() ==> line_spec_char_ok(#[trigger] s[i]))
    &&& parts_ok(s, split_ranges(s, ','))
    &&& line_set(s).len() <= 500
}

pub open spec fn strictly_sorted(s: Seq<usize>) -> bool {
    forall|i: int, j: int| 0 <= i < j < s.len() ==> s[i] < s[j]
}

/// The ascending list of the distinct line numbers a specification
/// names (well defined: at most one strictly sorted list has a given
/// membership).
pub open spec fn sorted_line_nums(s: Seq<char>) -> Seq<usize> {
    choose|nums: Seq<usize>|
        strictly_sorted(nums) && (forall|x: usize| #[trigger] nums.contains(x) <==> line_set(
            s,
        ).contains(x as int))
}

/// Two strictly sorted lists with the same members are the same list.
pub proof fn lemma_sorted_nums_unique(a: Seq<usize>, b: Seq<usize>)
    requires
        strictly_sorted(a),
        strictly_sorted(b),
        forall|x: usize| #[trigger] a.contains(x) <==> b.contains(x),
    ensures
        a == b,
    decreases a.len(),
{
    if a.len() == 0 {
        if b.len() > 0 {
            assert(b.contains(b[0]));
            assert(a.contains(b[0]));
            let i = choose|i: int| 0 <= i < a.len() && a[i] == b[0];
            assert(false);
        }
        assert(a =~= b);
    } else {
        assert(a.contains(a[0]));
        assert(b.contains(a[0]));
        let k = choose|k: int| 0 <= k < b.len() && b[k] == a[0];
        assert(b.contains(b[0]));
        assert(a.contains(b[0]));
        let m = choose|m: int| 0 <= m < a.len() && a[m] == b[0];
        if k > 0 {
            assert(b[0] < b[k]);
            if m > 0 {
                assert(a[0] < a[m]);
            }
        }
        assert(a[0] == b[0]);
        let at = a.drop_first();
        let bt = b.drop_first();
        assert forall|x: usize| #[trigger] at.contains(x) <==> bt.contains(x) by {
            if at.contains(x) {
                let i = choose|i: int| 0 <= i < at.len() && at[i] == x;
                assert(a[i + 1] == x);
                assert(a[0] < x);
                assert(a.contains(x));
                assert(b.contains(x));
                let j = choose|j: int| 0 <= j < b.len() && b[j] == x;
                assert(j > 0);
                assert(bt[j - 1] == x);
            }
            if bt.contains(x) {
                let i = choose|i: int| 0 <= i < bt.len() && bt[i] == x;
                assert(b[i + 1] == x);
                assert(b[0] < x);
                assert(b.contains(x));
                assert(a.contains(x));
                let j = choose|j: int| 0 <= j < a.len() && a[j] == x;
                assert(j > 0);
                assert(at[j - 1] == x);
            }
        }
        assert forall|i: int, j: int| 0 <= i < j < at.len() implies at[i] < at[j] by {
            assert(at[i] == a[i + 1] && at[j] == a[j + 1]);
        }
        assert forall|i: int, j: int| 0 <= i < j < bt.len() implies bt[i] < bt[j] by {
            assert(bt[i] == b[i + 1] && bt[j] == b[j + 1]);
        }
        lemma_sorted_nums_unique(at, bt);
        assert forall|i: int| 0 <= i < a.len() implies a[i] == b[i] by {
            if i > 0 {
                assert(at[i - 1] == a[i]);
                assert(bt[i - 1] == b[i]);
            }
        }
        assert(a =~= b);
    }
}

/// The message the parser reports for an invalid part `s[a..b]`, in
/// the order its checks run; `None` when the part is valid.
pub open spec fn part_error(s: Seq<char>, a: int, b: int) -> Option<Seq<char>> {
    if a == b {
        None
    } else {
        let h = first_at_or_after(s, '-', a);
        if h < b {
            let sd = s.subrange(a, h);
            let ed = s.subrange(h + 1, b);
            if a == h || !all_digits(sd) || digits_val(sd) > usize::MAX {
                Some("invalid number: "@ + sd)
            } else if h + 1 == b || !all_digits(ed) || digits_val(ed) > usize::MAX {
                Some("invalid number: "@ + ed)
            } else if digits_val(sd) == 0 || digits_val(ed) == 0 {
                Some("line numbers must be >= 1"@)
            } else if digits_val(ed) < digits_val(sd) {
                Some(
                    "invalid range: "@ + crate::text::spec_digits(digits_val(sd)) + "-"@
                        + crate::text::spec_digits(digits_val(ed)),
                )
            } else if digits_val(ed) - digits_val(sd) > 500 {
                Some("range too large (max 500 lines)"@)
            } else {
                None
            }
        } else {
            let d = s.subrange(a, b);
            if !all_digits(d) || digits_val(d) > usize::MAX {
                Some("invalid number: "@ + d)
            } else if digits_val(d) == 0 {
                Some("line numbers must be >= 1"@)
            } else {
                None
            }
        }
    }
}

/// The first failing part's message.
pub open spec fn parts_error(s: Seq<char>, ps: Seq<(int, int)>) -> Option<Seq<char>>
    decreases ps.len(),
{
    if ps.len() == 0 {
        None
    } else if part_error(s, ps[0].0, ps[0].1) is Some {
        part_error(s, ps[0].0, ps[0].1)
    } else {
        parts_error(s, ps.drop_first())
    }
}

/// The exact message `parse_line_spec` reports for an invalid
/// specification, in the order its checks run.
pub open spec fn line_spec_error(s: Seq<char>) -> Seq<char> {
    if s.len() == 0 {
        "empty line spec"@
    } else if exists|i: int| 0 <= i < s.len() && !line_spec_char_ok(#[trigger] s[i]) {
        "invalid line spec: only digits, commas, and hyphens allowed"@
    } else if parts_error(s, split_ranges(s, ',')) is Some {
        parts_error(s, split_ranges(s, ',')).unwrap()
    } else {
        "too many lines (max 500)"@
    }
}

proof fn lemma_part_set_finite(s: Seq<char>, a: int, b: int)
    ensures
        part_set(s, a, b).finite(),
{
    if a != b {
        let h = first_at_or_after(s, '-', a);
        if h < b {
            let lo = digits_val(s.subrange(a, h)) as int;
            let hi = (digits_val(s.subrange(h + 1, b)) + 1) as int;
            if lo <= hi {
                vstd::set_lib::lemma_int_range(lo, hi);
            } else {
                assert(set_int_range(lo, hi) =~= Set::<int>::empty());
            }
        }
    }
}

proof fn lemma_parts_set_finite(s: Seq<char>, ps: Seq<(int, int)>)
    ensures
        parts_set(s, ps).finite(),
    decreases ps.len(),
{
    if ps.len() > 0 {
        lemma_part_set_finite(s, ps[0].0, ps[0].1);
        lemma_parts_set_finite(s, ps.drop_first());
    }
}

/// Inserts `x` into a strictly sorted vector, keeping it strictly sorted.
fn insert_sorted(v: &mut Vec<usize>, x: usize)
    requires
        strictly_sorted(old(v)@),
    ensures
        strictly_sorted(final(v)@),
        final(v)@.map_values(|t: usize| t as int).to_set() =~= old(v)@.map_values(
            |t: usize| t as int,
        ).to_set().insert(x as int),
{
    let n = v.len();
    let mut i: usize = 0;
    while i < n && *v.get(i).unwrap() < x
        invariant
            i <= n,
            n == v@.len(),
            forall|j: int| 0 <= j < i ==> v@[j] < x,
        decreases n - i,
    {
        i += 1;
    }
    if i < n && *v.get(i).unwrap() == x {
        proof {
            let m = v@.map_values(|t: usize| t as int);
            assert(m[i as int] == x as int);
            assert(m.to_set().contains(x as int));
            assert(m.to_set() =~= m.to_set().insert(x as int));
        }
        return ;
    }
    v.insert(i, x);
    proof {
        let old_m = old(v)@.map_values(|t: usize| t as int);
        let m = v@.map_values(|t: usize| t as int);
        assert forall|p: int, q: int| 0 <= p < q < v@.len() implies v@[p] < v@[q] by {
            if q < i {
            } else if p < i && q == i {
            } else if p == i {
                assert(v@[q] == old(v)@[q - 1]);
                if q - 1 > i {
                    assert(old(v)@[i as int] < old(v)@[q - 1]);
                }
            } else if p > i {
                assert(v@[p] == old(v)@[p - 1] && v@[q] == old(v)@[q - 1]);
            } else {
                assert(v@[p] == old(v)@[p] && v@[q] == old(v)@[q - 1]);
                if q - 1 > i {
                    assert(old(v)@[i as int] < old(v)@[q - 1]);
                } else {
                    assert(q - 1 == i);
                    assert(old(v)@[p] < x);
                }
            }
        }
        assert forall|y: int| m.to_set().contains(y) implies old_m.to_set().insert(
            x as int,
        ).contains(y) by {
            let k = choose|k: int| 0 <= k < m.len() && m[k] == y;
            if k < i {
                assert(old_m[k] == y);
            } else if k == i {
            } else {
                assert(old_m[k - 1] == y);
            }
        }
        assert forall|y: int| old_m.to_set().insert(x as int).contains(y) implies m.to_set().contains(
            y,
        ) by {
            if y == x as int {
                assert(m[i as int] == y);
            } else {
                let k = choose|k: int| 0 <= k < old_m.len() && old_m[k] == y;
                if k < i {
                    assert(m[k] == y);
                } else {
                    assert(m[k + 1] == y);
                }
            }
        }
    }
}

/// Processes the parts of `v` from position `pos` on, collecting the
/// line numbers they name into `out`.
fn process_parts(src: &str, v: &Vec<char>, pos: usize, out: &mut Vec<usize>) -> (r: Result<
    (),
    String,
>)
    requires
        v@ == src@,
        pos <= v@.len(),
        strictly_sorted(old(out)@),
    ensures
        match r {
            Ok(_) => {
                &&& parts_ok(v@, split_scan(v@, ',', pos as int, pos as int))
                &&& parts_error(v@, split_scan(v@, ',', pos as int, pos as int)) is None
                &&& strictly_sorted(final(out)@)
                &&& final(out)@.map_values(|t: usize| t as int).to_set() =~= old(out)@.map_values(
                    |t: usize| t as int,
                ).to_set().union(parts_set(v@, split_scan(v@, ',', pos as int, pos as int)))
            },
            Err(e) => {
                &&& !parts_ok(v@, split_scan(v@, ',', pos as int, pos as int))
                &&& parts_error(v@, split_scan(v@, ',', pos as int, pos as int)) == Some(e@)
            },
        },
    decreases v@.len() - pos,
{
    let n = v.len();
    let f = find_char_from(v, ',', pos);
    let ghost ps = split_scan(v@, ',', pos as int, pos as int);
    proof {
        lemma_split_first(v@, ',', pos as int);
        if f < n {
            assert(ps == seq![(pos as int, f as int)] + split_scan(
                v@,
                ',',
                f + 1 as int,
                f + 1 as int,
            ));
            assert(ps[0] == (pos as int, f as int));
            assert(ps.drop_first() =~= split_scan(v@, ',', f + 1 as int, f + 1 as int));
        } else {
            assert(ps =~= seq![(pos as int, v@.len() as int)]);
            assert(ps[0] == (pos as int, f as int));
            assert(ps.drop_first() =~= Seq::<(int, int)>::empty());
        }
    }
    let ghost base = old(out)@.map_values(|t: usize| t as int).to_set();
    if pos < f {
        // a non-empty part
        let h = find_char_from(v, '-', pos);
        proof {
            crate::text::lemma_first_at_or_after(v@, '-', pos as int);
        }
        if h < f {
            // a range part
            let sv = match parse_usize(v, pos, h) {
                Some(x) => x,
                None => {
                    let mut msg = String::from_str("invalid number: ");
                    msg.append(src.substring_char(pos, h));
                    return Err(msg);
                },
            };
            let ev = match parse_usize(v, h + 1, f) {
                Some(x) => x,
                None => {
                    let mut msg = String::from_str("invalid number: ");
                    msg.append(src.substring_char(h + 1, f));
                    return Err(msg);
                },
            };
            if sv == 0 || ev == 0 {
                return Err(String::from_str("line numbers must be >= 1"));
            }
            if ev < sv {
                let mut msg = String::from_str("invalid range: ");
                push_u64(&mut msg, sv as u64);
                msg.append("-");
                push_u64(&mut msg, ev as u64);
                return Err(msg);
            }
            if ev - sv > 500 {
                return Err(String::from_str("range too large (max 500 lines)"));
            }
            let w = ev - sv;
            let mut off: usize = 0;
            while off <= w
                invariant
                    w == ev - sv,
                    sv >= 1,
                    sv <= ev <= usize::MAX,
                    w <= 500,
                    off <= w + 1,
                    strictly_sorted(out@),
                    out@.map_values(|t: usize| t as int).to_set() =~= base.union(
                        set_int_range(sv as int, sv + off),
                    ),
                decreases w + 1 - off,
            {
                insert_sorted(out, sv + off);
                proof {
                    assert(set_int_range(sv as int, sv + off).insert(sv + off as int)
                        =~= set_int_range(sv as int, sv + off + 1));
                    assert(base.union(set_int_range(sv as int, sv + off)).insert(sv + off as int)
                        =~= base.union(set_int_range(sv as int, sv + off + 1)));
                }
                off += 1;
            }
            assert(part_set(v@, pos as int, f as int) =~= set_int_range(sv as int, sv + w + 1));
        } else {
            // a single line number
            let nv = match parse_usize(v, pos, f) {
                Some(x) => x,
                None => {
                    let mut msg = String::from_str("invalid number: ");
                    msg.append(src.substring_char(pos, f));
                    return Err(msg);
                },
            };
            if nv == 0 {
                return Err(String::from_str("line numbers must be >= 1"));
            }
            insert_sorted(out, nv);
            assert(part_set(v@, pos as int, f as int) =~= Set::empty().insert(nv as int));
        }
    }
    assert(part_ok(v@, pos as int, f as int));
    assert(part_error(v@, pos as int, f as int) is None);
    let ghost mid = out@.map_values(|t: usize| t as int).to_set();
    assert(mid =~= base.union(part_set(v@, pos as int, f as int)));
    if f < n {
        let res = process_parts(src, v, f + 1, out);
        match res {
            Ok(_) => {
                proof {
                    let rest = split_scan(v@, ',', f + 1 as int, f + 1 as int);
                    assert(parts_ok(v@, ps) == (part_ok(v@, ps[0].0, ps[0].1) && parts_ok(
                        v@,
                        ps.drop_first(),
                    )));
                    assert(parts_ok(v@, ps));
                    assert(parts_set(v@, ps) == part_set(v@, ps[0].0, ps[0].1).union(
                        parts_set(v@, ps.drop_first()),
                    ));
                    assert(parts_set(v@, ps) =~= part_set(v@, pos as int, f as int).union(
                        parts_set(v@, rest),
                    ));
                    assert(out@.map_values(|t: usize| t as int).to_set() =~= base.union(
                        parts_set(v@, ps),
                    ));
                    assert(parts_error(v@, ps) == parts_error(v@, ps.drop_first()));
                    assert(parts_error(v@, ps) is None);
                }
                Ok(())
            },
            Err(e) => {
                proof {
                    assert(parts_error(v@, ps) == parts_error(v@, ps.drop_first()));
                }
                Err(e)
            },
        }
    } else {
        proof {
            assert(ps.len() == 1);
            assert(ps[0].0 == pos as int && ps[0].1 == f as int);
            assert(parts_ok(v@, ps.drop_first()));
            assert(parts_ok(v@, ps) == (part_ok(v@, ps[0].0, ps[0].1) && parts_ok(
                v@,
                ps.drop_first(),
            )));
            assert(parts_ok(v@, ps));
            assert(parts_set(v@, ps.drop_first()) =~= Set::<int>::empty());
            assert(parts_set(v@, ps) == part_set(v@, ps[0].0, ps[0].1).union(
                parts_set(v@, ps.drop_first()),
            ));
            assert(parts_set(v@, ps) =~= part_set(v@, pos as int, f as int));
            assert(out@.map_values(|t: usize| t as int).to_set() =~= base.union(
                parts_set(v@, ps),
            ));
            assert(parts_error(v@, ps.drop_first()) is None);
            assert(parts_error(v@, ps) is None);
        }
        Ok(())
    }
}

/// Parses a line specification such as `"1,5,10-20"` into the ascending
/// list of distinct 1-based line numbers it names.  Rejects empty input,
/// stray characters, malformed or descending ranges, ranges wider than
/// 500, and specifications naming more than 500 distinct lines.
pub fn parse_line_spec(s: &str) -> (r: Result<Vec<usize>, String>)
    ensures
        match r {
            Ok(v) => {
                &&& line_spec_ok(s@)
                &&& strictly_sorted(v@)
                &&& v@.map_values(|t: usize| t as int).to_set() == line_set(s@)
                &&& v@.len() == line_set(s@).len()
                &&& v@.len() <= 500
            },
            Err(e) => {
                &&& !line_spec_ok(s@)
                &&& e@ == line_spec_error(s@)
            },
        },
{
    let v = str_chars(s);
    let n = v.len();
    if n == 0 {
        return Err(String::from_str("empty line spec"));
    }
    let mut i: usize = 0;
    while i < n
        invariant
            i <= n,
            n == v@.len(),
            v@ == s@,
            forall|j: int| 0 <= j < i ==> line_spec_char_ok(#[trigger] v@[j]),
        decreases n - i,
    {
        let c = v[i];
        if !(crate::text::is_digit_c(c) || c == ',' || c == '-') {
            proof {
                assert(!line_spec_char_ok(s@[i as int]));
            }
            return Err(
                String::from_str("invalid line spec: only digits, commas, and hyphens allowed"),
            );
        }
        i += 1;
    }
    let mut out: Vec<usize> = Vec::new();
    match process_parts(s, &v, 0, &mut out) {
        Ok(_) => {
            proof {
                let m = out@.map_values(|t: usize| t as int);
                assert(m.to_set() =~= line_set(s@));
                assert(m.no_duplicates()) by {
                    assert forall|p: int, q: int|
                        0 <= p < m.len() && 0 <= q < m.len() && p != q implies m[p] != m[q] by {
                        if p < q {
                            assert(out@[p] < out@[q]);
                        } else {
                            assert(out@[q] < out@[p]);
                        }
                    }
                }
                m.unique_seq_to_set();
            }
            if out.len() > 500 {
                proof {
                    assert(forall|i: int|
                        0 <= i < s@.len() ==> line_spec_char_ok(#[trigger] s@[i]));
                }
                return Err(String::from_str("too many lines (max 500)"));
            }
            Ok(out)
        },
        Err(e) => {
            proof {
                assert(forall|i: int| 0 <= i < s@.len() ==> line_spec_char_ok(#[trigger] s@[i]));
            }
            Err(e)
        },
    }
}

} // verus!
