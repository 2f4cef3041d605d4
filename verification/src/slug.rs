//! Artifact slug derivation: a title becomes a filesystem- and URL-safe
//! name.

use vstd::prelude::*;

use crate::text::lemma_ltrim_skip;
use crate::text::lemma_rtrim_take;
use crate::text::ltrim_c;
use crate::text::rtrim_c;
use crate::text::str_chars;

verus! {

/// ASCII lower-casing of one character.
pub open spec fn slug_lower(c: char) -> char {
    if 65 <= c as u32 && c as u32 <= 90 {
        ((c as u32 + 32) as u8) as char
    } else {
        c
    }
}

/// Characters that pass through unchanged: ASCII lower-case letters,
/// digits, and the hyphen.
pub open spec fn slug_keep(c: char) -> bool {
    let u = c as u32;
    (48 <= u && u <= 57) || (97 <= u && u <= 122) || u == 45
}

/// What one title character contributes to the slug.
pub open spec fn slug_char(c: char) -> char {
    if slug_keep(slug_lower(c)) {
        slug_lower(c)
    } else {
        '-'
    }
}

pub open spec fn slug_map(s: Seq<char>) -> Seq<char> {
    Seq::new(s.len(), |i: int| slug_char(s[i]))
}

/// The slug of a title: each character lower-cased, everything but
/// letters, digits and hyphens replaced by a hyphen, outer hyphen runs
/// trimmed, and the result capped at 120 characters with any trailing
/// hyphen exposed by the cap trimmed too.
pub open spec fn spec_slugify(s: Seq<char>) -> Seq<char> {
    let t = rtrim_c(ltrim_c(slug_map(s), '-'), '-');
    if t.len() > 120 {
        rtrim_c(t.take(120), '-')
    } else {
        t
    }
}

fn slug_char_c(c: char) -> (r: char)
    ensures
        r == slug_char(c),
{
    let u = c as u32;
    let l: char = if 65 <= u && u <= 90 {
        ((u + 32) as u8) as char
    } else {
        c
    };
    let lu = l as u32;
    if (48 <= lu && lu <= 57) || (97 <= lu && lu <= 122) || lu == 45 {
        l
    } else {
        '-'
    }
}

/// Derives the slug of a title.  The result never exceeds 120
/// characters, holds only lower-case ASCII letters, digits and hyphens,
/// and neither starts nor ends with a hyphen.
pub fn slugify(title: &str) -> (r: String)
    ensures
        r@ == spec_slugify(title@),
        r@.len() <= 120,
        r@.len() > 0 ==> r@[0] != '-' && r@.last() != '-',
{
    let v = str_chars(title);
    let n = v.len();
    let mut m: Vec<char> = Vec::new();
    let mut i: usize = 0;
    while i < n
        invariant
            i <= n,
            n == v@.len(),
            v@ == title@,
            m@ =~= slug_map(title@).take(i as int),
        decreases n - i,
    {
        m.push(slug_char_c(v[i]));
        assert(m@ =~= slug_map(title@).take(i + 1));
        i += 1;
    }
    assert(m@ =~= slug_map(title@));
    let mn = m.len();
    let mut lo: usize = 0;
    while lo < mn && m[lo] == '-'
        invariant
            lo <= mn,
            mn == m@.len(),
            forall|j: int| 0 <= j < lo ==> m@[j] == '-',
        decreases mn - lo,
    {
        lo += 1;
    }
    let mut hi: usize = mn;
    while hi > lo && m[hi - 1] == '-'
        invariant
            lo <= hi <= mn,
            mn == m@.len(),
            forall|j: int| hi <= j < mn ==> m@[j] == '-',
        decreases hi,
    {
        hi -= 1;
    }
    proof {
        lemma_ltrim_skip(m@, '-', lo as int);
        let s2 = m@.skip(lo as int);
        assert forall|j: int| (hi - lo) <= j < s2.len() implies s2[j] == '-' by {
            assert(s2[j] == m@[j + lo]);
        }
        if hi > lo {
            assert(s2[hi - lo - 1] == m@[hi - 1]);
        }
        lemma_rtrim_take(s2, '-', hi - lo);
        assert(s2.take(hi - lo) =~= m@.subrange(lo as int, hi as int));
    }
    let ghost t = rtrim_c(ltrim_c(slug_map(title@), '-'), '-');
    assert(t == m@.subrange(lo as int, hi as int));
    let end: usize = if hi - lo > 120 {
        let cap = lo + 120;
        let mut hi2: usize = cap;
        while hi2 > lo && m[hi2 - 1] == '-'
            invariant
                lo <= hi2 <= cap,
                cap == lo + 120,
                cap <= hi <= mn,
                mn == m@.len(),
                forall|j: int| hi2 <= j < cap ==> m@[j] == '-',
            decreases hi2,
        {
            hi2 -= 1;
        }
        proof {
            let tt = t.take(120);
            assert(tt =~= m@.subrange(lo as int, cap as int));
            assert forall|j: int| (hi2 - lo) <= j < tt.len() implies tt[j] == '-' by {
                assert(tt[j] == m@[j + lo]);
            }
            if hi2 > lo {
                assert(tt[hi2 - lo - 1] == m@[hi2 - 1]);
            }
            lemma_rtrim_take(tt, '-', hi2 - lo);
            assert(tt.take(hi2 - lo) =~= m@.subrange(lo as int, hi2 as int));
            assert(spec_slugify(title@) == m@.subrange(lo as int, hi2 as int));
        }
        hi2
    } else {
        proof {
            assert(spec_slugify(title@) == m@.subrange(lo as int, hi as int));
        }
        hi
    };
    let mut out = String::new();
    let mut k: usize = lo;
    while k < end
        invariant
            lo <= k <= end <= mn,
            mn == m@.len(),
            out@ =~= m@.subrange(lo as int, k as int),
        decreases end - k,
    {
        crate::text::string_push(&mut out, m[k]);
        assert(out@ =~= m@.subrange(lo as int, k + 1));
        k += 1;
    }
    proof {
        assert(out@ =~= m@.subrange(lo as int, end as int));
        if out@.len() > 0 {
            assert(out@[0] == m@[lo as int]);
            assert(out@.last() == m@[end - 1]);
        }
    }
    out
}

} // verus!
