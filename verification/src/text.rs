//! Small verified text utilities shared by the rest of the crate:
//! character classification, decimal formatting and parsing, and
//! helpers over `&str` / `String` / `Vec<char>`.

use vstd::prelude::*;

verus! {

/// The character for a single decimal digit value.
pub open spec fn digit_char(d: int) -> char {
    ((48 + d) as u8) as char
}

pub open spec fn is_digit(c: char) -> bool {
    48 <= c as u32 && c as u32 <= 57
}

pub open spec fn digit_val(c: char) -> int {
    c as u32 - 48
}

pub fn is_digit_c(c: char) -> (r: bool)
    ensures
        r == is_digit(c),
{
    let u = c as u32;
    48 <= u && u <= 57
}

/// Decimal representation of a natural number, most significant digit first.
pub open spec fn spec_digits(n: nat) -> Seq<char>
    decreases n,
{
    if n < 10 {
        seq![digit_char(n as int)]
    } else {
        spec_digits(n / 10).push(digit_char((n % 10) as int))
    }
}

fn digit_of(n: u64) -> (c: char)
    requires
        n < 10,
    ensures
        c == digit_char(n as int),
{
    (48 + n as u8) as char
}

/// What `String::from_utf8_lossy` yields on the given bytes.
pub uninterp spec fn lossy_utf8(bytes: Seq<u8>) -> Seq<char>;

/// Relies on `String::from_utf8_lossy`: the result is a function of the
/// bytes alone, and bytes that are valid UTF-8 decode to exactly the
/// string encoded by those bytes.
#[verifier::external_body]
pub(crate) fn bytes_to_string(v: &Vec<u8>) -> (r: String)
    ensures
        r@ == lossy_utf8(v@),
        vstd::utf8::valid_utf8(v@) ==> vstd::utf8::encode_utf8(r@) == v@,
{
    String::from_utf8_lossy(v.as_slice()).into_owned()
}

/// Relies on `String::push`: appends exactly the given character.
#[verifier::external_body]
pub(crate) fn string_push(s: &mut String, c: char)
    ensures
        final(s)@ == old(s)@ + seq![c],
{
    s.push(c);
}

/// Appends the decimal digits of `n` to `s`.
pub fn push_u64(s: &mut String, n: u64)
    ensures
        final(s)@ == old(s)@ + spec_digits(n as nat),
    decreases n,
{
    if n < 10 {
        string_push(s, digit_of(n));
    } else {
        push_u64(s, n / 10);
        string_push(s, digit_of(n % 10));
    }
}

pub fn u64_to_string(n: u64) -> (r: String)
    ensures
        r@ == spec_digits(n as nat),
{
    let mut s = String::new();
    push_u64(&mut s, n);
    assert(s@ =~= spec_digits(n as nat));
    s
}

/// The characters of `s`, as a vector.
pub fn str_chars(s: &str) -> (r: Vec<char>)
    ensures
        r@ == s@,
{
    let n = s.unicode_len();
    let mut v: Vec<char> = Vec::new();
    let mut i: usize = 0;
    while i < n
        invariant
            i <= n,
            n == s@.len(),
            v@ == s@.subrange(0, i as int),
        decreases n - i,
    {
        v.push(s.get_char(i));
        assert(v@ =~= s@.subrange(0, i + 1 as int));
        i += 1;
    }
    assert(v@ =~= s@);
    v
}

/// Appends all characters of `v` to `s`.
pub fn push_chars(s: &mut String, v: &Vec<char>)
    ensures
        final(s)@ == old(s)@ + v@,
{
    let n = v.len();
    let mut i: usize = 0;
    while i < n
        invariant
            i <= n,
            n == v@.len(),
            s@ == old(s)@ + v@.subrange(0, i as int),
        decreases n - i,
    {
        string_push(s, v[i]);
        assert(s@ =~= old(s)@ + v@.subrange(0, i + 1 as int));
        i += 1;
    }
    assert(old(s)@ + v@.subrange(0, n as int) =~= old(s)@ + v@);
}

/// Equality of two string slices, by characters.
pub fn str_eq(a: &str, b: &str) -> (r: bool)
    ensures
        r == (a@ == b@),
{
    let na = a.unicode_len();
    let nb = b.unicode_len();
    if na != nb {
        assert(a@ != b@);
        return false;
    }
    let mut i: usize = 0;
    while i < na
        invariant
            i <= na,
            na == a@.len(),
            na == b@.len(),
            forall|j: int| 0 <= j < i ==> a@[j] == b@[j],
        decreases na - i,
    {
        if a.get_char(i) != b.get_char(i) {
            return false;
        }
        i += 1;
    }
    assert(a@ =~= b@);
    true
}

/// Lexicographic order on character sequences (by code point, which for
/// UTF-8 encoded text agrees with byte order).
pub open spec fn lex_le(a: Seq<char>, b: Seq<char>) -> bool
    decreases a.len(),
{
    if a.len() == 0 {
        true
    } else if b.len() == 0 {
        false
    } else if (a[0] as u32) < (b[0] as u32) {
        true
    } else if (a[0] as u32) > (b[0] as u32) {
        false
    } else {
        lex_le(a.drop_first(), b.drop_first())
    }
}

/// `a <= b` in lexicographic order.
pub fn str_le(a: &str, b: &str) -> (r: bool)
    ensures
        r == lex_le(a@, b@),
{
    let na = a.unicode_len();
    let nb = b.unicode_len();
    let mut i: usize = 0;
    proof {
        assert(a@.skip(0) =~= a@);
        assert(b@.skip(0) =~= b@);
    }
    loop
        invariant
            i <= na,
            i <= nb,
            na == a@.len(),
            nb == b@.len(),
            lex_le(a@, b@) == lex_le(a@.skip(i as int), b@.skip(i as int)),
        decreases na - i,
    {
        if i >= na {
            assert(a@.skip(i as int).len() == 0);
            return true;
        }
        if i >= nb {
            assert(b@.skip(i as int).len() == 0 && a@.skip(i as int).len() > 0);
            return false;
        }
        let ca = a.get_char(i);
        let cb = b.get_char(i);
        assert(a@.skip(i as int)[0] == ca && b@.skip(i as int)[0] == cb);
        if (ca as u32) < (cb as u32) {
            return true;
        }
        if (ca as u32) > (cb as u32) {
            return false;
        }
        proof {
            assert(a@.skip(i as int).drop_first() =~= a@.skip(i + 1));
            assert(b@.skip(i as int).drop_first() =~= b@.skip(i + 1));
        }
        i += 1;
    }
}

/// Every character in `s` is a decimal digit.
pub open spec fn all_digits(s: Seq<char>) -> bool {
    forall|i: int| 0 <= i < s.len() ==> is_digit(#[trigger] s[i])
}

/// The value of a digit string, most significant digit first.
pub open spec fn digits_val(s: Seq<char>) -> nat
    decreases s.len(),
{
    if s.len() == 0 {
        0
    } else {
        (digits_val(s.drop_last()) * 10 + (if is_digit(s.last()) {
            digit_val(s.last())
        } else {
            0
        })) as nat
    }
}

proof fn lemma_digits_val_prefix_le(s: Seq<char>, i: int)
    requires
        0 <= i <= s.len(),
    ensures
        digits_val(s.subrange(0, i)) <= digits_val(s),
    decreases s.len() - i,
{
    if i < s.len() {
        lemma_digits_val_prefix_le(s, i + 1);
        let t = s.subrange(0, i + 1);
        assert(t.drop_last() =~= s.subrange(0, i));
        assert(digits_val(s.subrange(0, i)) <= digits_val(t));
    } else {
        assert(s.subrange(0, i) =~= s);
    }
}

/// Parses the digit run `v[from..to]` as a `usize`.  Fails on an empty
/// range, a non-digit, or overflow.
pub fn parse_usize(v: &Vec<char>, from: usize, to: usize) -> (r: Option<usize>)
    requires
        from <= to <= v@.len(),
    ensures
        ({
            let s = v@.subrange(from as int, to as int);
            match r {
                Some(n) => from < to && all_digits(s) && n == digits_val(s),
                None => from == to || !all_digits(s) || digits_val(s) > usize::MAX,
            }
        }),
{
    let ghost s = v@.subrange(from as int, to as int);
    if from == to {
        return None;
    }
    let mut acc: usize = 0;
    let mut i: usize = from;
    while i < to
        invariant
            from <= i <= to <= v@.len(),
            s == v@.subrange(from as int, to as int),
            all_digits(v@.subrange(from as int, i as int)),
            acc == digits_val(v@.subrange(from as int, i as int)),
        decreases to - i,
    {
        let c = v[i];
        if !is_digit_c(c) {
            assert(s[i - from] == c && !is_digit(s[i - from]));
            return None;
        }
        let d = (c as u32 - 48) as usize;
        let ghost pre = v@.subrange(from as int, i as int);
        let ghost cur = v@.subrange(from as int, i + 1);
        assert(cur.drop_last() =~= pre);
        assert(cur.last() == c);
        if acc > (usize::MAX - d) / 10 {
            proof {
                assert(digits_val(cur) == acc * 10 + d);
                assert(digits_val(cur) > usize::MAX) by (nonlinear_arith)
                    requires
                        acc > (usize::MAX - d) / 10,
                        d < 10,
                        digits_val(cur) == acc * 10 + d,
                ;
                lemma_digits_val_prefix_le(s, i + 1 - from);
                assert(s.subrange(0, i + 1 - from) =~= cur);
            }
            return None;
        }
        proof {
            assert(acc * 10 + d <= usize::MAX) by (nonlinear_arith)
                requires
                    acc <= (usize::MAX - d) / 10,
                    d < 10,
            ;
        }
        acc = acc * 10 + d;
        i += 1;
    }
    assert(v@.subrange(from as int, to as int) =~= s);
    Some(acc)
}

/// Unicode whitespace, as listed for `char::is_whitespace`.
pub open spec fn is_ws(c: char) -> bool {
    let u = c as u32;
    (9 <= u && u <= 13) || u == 32 || u == 0x85 || u == 0xA0 || u == 0x1680 || (0x2000 <= u
        && u <= 0x200A) || u == 0x2028 || u == 0x2029 || u == 0x202F || u == 0x205F || u == 0x3000
}

pub fn is_ws_c(c: char) -> (r: bool)
    ensures
        r == is_ws(c),
{
    let u = c as u32;
    (9 <= u && u <= 13) || u == 32 || u == 0x85 || u == 0xA0 || u == 0x1680 || (0x2000 <= u
        && u <= 0x200A) || u == 0x2028 || u == 0x2029 || u == 0x202F || u == 0x205F || u == 0x3000
}

/// A sequence consisting only of whitespace.
pub open spec fn all_ws(s: Seq<char>) -> bool {
    forall|i: int| 0 <= i < s.len() ==> is_ws(#[trigger] s[i])
}

/// Whether `s` contains a non-whitespace character (what a trimmed
/// emptiness test checks).
pub fn has_non_ws(v: &Vec<char>) -> (r: bool)
    ensures
        r == !all_ws(v@),
{
    let n = v.len();
    let mut i: usize = 0;
    while i < n
        invariant
            i <= n,
            n == v@.len(),
            forall|j: int| 0 <= j < i ==> is_ws(#[trigger] v@[j]),
        decreases n - i,
    {
        if !is_ws_c(v[i]) {
            return true;
        }
        i += 1;
    }
    false
}

/// The (start, end) half-open index ranges of the parts of `s` split at
/// every occurrence of `sep`; the separators themselves belong to no part.
pub open spec fn split_ranges(s: Seq<char>, sep: char) -> Seq<(int, int)> {
    split_scan(s, sep, 0, 0)
}

/// Ranges of the remaining parts, scanning from `i` while the current
/// part began at `start`.
pub open spec fn split_scan(s: Seq<char>, sep: char, start: int, i: int) -> Seq<(int, int)>
    recommends
        0 <= start <= i <= s.len(),
    decreases s.len() - i when 0 <= start <= i <= s.len()
{
    if i >= s.len() {
        seq![(start, s.len() as int)]
    } else if s[i] == sep {
        seq![(start, i)] + split_scan(s, sep, i + 1, i + 1)
    } else {
        split_scan(s, sep, start, i + 1)
    }
}

/// Index of the first occurrence of `c` in `s` at or after `from`
/// (or `s.len()` if none).
pub open spec fn first_at_or_after(s: Seq<char>, c: char, from: int) -> int
    recommends
        0 <= from <= s.len(),
    decreases s.len() - from when 0 <= from <= s.len()
{
    if from >= s.len() {
        s.len() as int
    } else if s[from] == c {
        from
    } else {
        first_at_or_after(s, c, from + 1)
    }
}

pub proof fn lemma_first_at_or_after(s: Seq<char>, c: char, from: int)
    requires
        0 <= from <= s.len(),
    ensures
        from <= first_at_or_after(s, c, from) <= s.len(),
        forall|j: int| from <= j < first_at_or_after(s, c, from) ==> s[j] != c,
        first_at_or_after(s, c, from) < s.len() ==> s[first_at_or_after(s, c, from)] == c,
    decreases s.len() - from,
{
    if from < s.len() && s[from] != c {
        lemma_first_at_or_after(s, c, from + 1);
    }
}

proof fn lemma_split_scan_advance(s: Seq<char>, sep: char, start: int, k: int, i: int)
    requires
        0 <= start <= k <= i <= s.len(),
        forall|j: int| k <= j < i ==> s[j] != sep,
    ensures
        split_scan(s, sep, start, k) == split_scan(s, sep, start, i),
    decreases i - k,
{
    if k < i {
        lemma_split_scan_advance(s, sep, start, k + 1, i);
    }
}

/// How one part relates `split_scan` to the first separator: the scan
/// yields the part up to the first separator, then the split of the rest.
pub proof fn lemma_split_first(s: Seq<char>, sep: char, start: int)
    requires
        0 <= start <= s.len(),
    ensures
        ({
            let f = first_at_or_after(s, sep, start);
            &&& start <= f <= s.len()
            &&& (f == s.len() ==> split_scan(s, sep, start, start) =~= seq![
                (start, s.len() as int),
            ])
            &&& (f < s.len() ==> split_scan(s, sep, start, start) =~= seq![(start, f)]
                + split_scan(s, sep, f + 1, f + 1))
        }),
{
    let f = first_at_or_after(s, sep, start);
    lemma_first_at_or_after(s, sep, start);
    lemma_split_scan_advance(s, sep, start, start, f);
}

/// `pat` occurs in `s` starting at `i`.
pub open spec fn starts_with_at(s: Seq<char>, i: int, pat: Seq<char>) -> bool {
    0 <= i && i + pat.len() <= s.len() && s.subrange(i, i + pat.len()) == pat
}

/// The first index at or after `from` where `pat` occurs (or `s.len()`).
pub open spec fn first_match(s: Seq<char>, pat: Seq<char>, from: int) -> int
    recommends
        0 <= from <= s.len(),
    decreases s.len() - from when 0 <= from <= s.len()
{
    if starts_with_at(s, from, pat) {
        from
    } else if from >= s.len() {
        s.len() as int
    } else {
        first_match(s, pat, from + 1)
    }
}

pub fn match_here(v: &Vec<char>, pat: &str, from: usize) -> (r: bool)
    requires
        from <= v@.len(),
    ensures
        r == starts_with_at(v@, from as int, pat@),
{
    let m = pat.unicode_len();
    let n = v.len();
    if n - from < m {
        return false;
    }
    let mut j: usize = 0;
    while j < m
        invariant
            j <= m,
            m == pat@.len(),
            n == v@.len(),
            from + m <= n,
            forall|k: int| 0 <= k < j ==> v@[from + k] == pat@[k],
        decreases m - j,
    {
        if v[from + j] != pat.get_char(j) {
            assert(v@.subrange(from as int, from + m) != pat@) by {
                assert(v@.subrange(from as int, from + m)[j as int] == v@[from + j]);
            }
            return false;
        }
        j += 1;
    }
    assert(v@.subrange(from as int, from + m) =~= pat@);
    true
}

pub proof fn lemma_first_match(s: Seq<char>, pat: Seq<char>, from: int)
    requires
        0 <= from <= s.len(),
    ensures
        from <= first_match(s, pat, from) <= s.len(),
        first_match(s, pat, from) < s.len() ==> starts_with_at(s, first_match(s, pat, from), pat),
        forall|j: int|
            from <= j < first_match(s, pat, from) ==> !starts_with_at(s, j, pat),
    decreases s.len() - from,
{
    if !starts_with_at(s, from, pat) && from < s.len() {
        lemma_first_match(s, pat, from + 1);
    }
}

pub fn find_sub(v: &Vec<char>, pat: &str, from: usize) -> (r: usize)
    requires
        from <= v@.len(),
    ensures
        r == first_match(v@, pat@, from as int),
        from <= r <= v@.len(),
        r < v@.len() ==> starts_with_at(v@, r as int, pat@),
    decreases v@.len() - from,
{
    proof {
        lemma_first_match(v@, pat@, from as int);
    }
    if match_here(v, pat, from) {
        from
    } else if from >= v.len() {
        v.len()
    } else {
        find_sub(v, pat, from + 1)
    }
}

/// Finds the first occurrence of `c` in `v` at or after `from`.
pub fn find_char_from(v: &Vec<char>, c: char, from: usize) -> (r: usize)
    requires
        from <= v@.len(),
    ensures
        r == first_at_or_after(v@, c, from as int),
    decreases v@.len() - from,
{
    if from >= v.len() {
        from
    } else if v[from] == c {
        from
    } else {
        find_char_from(v, c, from + 1)
    }
}


pub proof fn lemma_lex_total(a: Seq<char>, b: Seq<char>)
    ensures
        lex_le(a, b) || lex_le(b, a),
    decreases a.len(),
{
    if a.len() > 0 && b.len() > 0 && (a[0] as u32) == (b[0] as u32) {
        lemma_lex_total(a.drop_first(), b.drop_first());
    }
}

pub proof fn lemma_lex_antisym(a: Seq<char>, b: Seq<char>)
    requires
        lex_le(a, b),
        lex_le(b, a),
    ensures
        a == b,
    decreases a.len(),
{
    if a.len() == 0 {
        assert(b.len() == 0);
        assert(a =~= b);
    } else {
        assert(b.len() > 0);
        assert((a[0] as u32) == (b[0] as u32));
        lemma_char_eq(a[0], b[0]);
        lemma_lex_antisym(a.drop_first(), b.drop_first());
        assert(a =~= seq![a[0]] + a.drop_first());
        assert(b =~= seq![b[0]] + b.drop_first());
    }
}

pub proof fn lemma_lex_trans(a: Seq<char>, b: Seq<char>, c: Seq<char>)
    requires
        lex_le(a, b),
        lex_le(b, c),
    ensures
        lex_le(a, c),
    decreases a.len(),
{
    if a.len() > 0 && b.len() > 0 && c.len() > 0 && (a[0] as u32) == (b[0] as u32) && (b[0] as u32)
        == (c[0] as u32) {
        lemma_lex_trans(a.drop_first(), b.drop_first(), c.drop_first());
    }
}

/// Strict lexicographic order.
pub open spec fn lex_lt(a: Seq<char>, b: Seq<char>) -> bool {
    lex_le(a, b) && a != b
}

/// `a < b` in lexicographic order.
pub fn str_lt(a: &str, b: &str) -> (r: bool)
    ensures
        r == lex_lt(a@, b@),
{
    if str_le(a, b) {
        !str_eq(a, b)
    } else {
        false
    }
}

/// A vector of strings in strictly ascending lexicographic order.
pub open spec fn strings_sorted(s: Seq<String>) -> bool {
    forall|i: int, j: int| 0 <= i < j < s.len() ==> lex_lt(#[trigger] s[i]@, #[trigger] s[j]@)
}

/// Whether some element of `s` views to `d`.
pub open spec fn contains_str(s: Seq<String>, d: Seq<char>) -> bool {
    exists|i: int| 0 <= i < s.len() && #[trigger] s[i]@ == d
}

/// Inserts `x` into a lexicographically sorted vector of distinct
/// strings, keeping it sorted and distinct.
pub fn insert_sorted_str(v: &mut Vec<String>, x: String)
    requires
        strings_sorted(old(v)@),
    ensures
        strings_sorted(final(v)@),
        forall|d: Seq<char>| contains_str(final(v)@, d) <==> (contains_str(old(v)@, d) || d == x@),
{
    let n = v.len();
    let mut i: usize = 0;
    while i < n && str_lt(v.get(i).unwrap().as_str(), x.as_str())
        invariant
            i <= n,
            n == v@.len(),
            forall|j: int| 0 <= j < i ==> lex_lt(#[trigger] v@[j]@, x@),
        decreases n - i,
    {
        i += 1;
    }
    if i < n && str_eq(v.get(i).unwrap().as_str(), x.as_str()) {
        proof {
            assert(contains_str(v@, x@));
            assert(forall|d: Seq<char>|
                contains_str(v@, d) <==> (contains_str(old(v)@, d) || d == x@));
        }
        return ;
    }
    proof {
        if i < n {
            lemma_lex_total(v@[i as int]@, x@);
            assert(lex_lt(x@, v@[i as int]@));
        }
    }
    v.insert(i, x);
    proof {
        let ghost xs = x@;
        assert forall|p: int, q: int| 0 <= p < q < v@.len() implies lex_lt(v@[p]@, v@[q]@) by {
            if q < i {
            } else if p < i && q == i {
            } else if p == i {
                assert(v@[q]@ == old(v)@[q - 1]@);
                if q - 1 > i {
                    assert(lex_lt(old(v)@[i as int]@, old(v)@[q - 1]@));
                    lemma_lex_trans(xs, old(v)@[i as int]@, old(v)@[q - 1]@);
                    assert(lex_le(xs, old(v)@[q - 1]@));
                    if xs == old(v)@[q - 1]@ {
                        lemma_lex_antisym(xs, old(v)@[i as int]@);
                    }
                } else {
                    assert(q - 1 == i);
                }
            } else if p > i {
                assert(v@[p]@ == old(v)@[p - 1]@ && v@[q]@ == old(v)@[q - 1]@);
            } else {
                assert(v@[p]@ == old(v)@[p]@ && v@[q]@ == old(v)@[q - 1]@);
                if q - 1 > i {
                    assert(lex_lt(old(v)@[i as int]@, old(v)@[q - 1]@));
                } else {
                    assert(q - 1 == i);
                    assert(lex_lt(old(v)@[p]@, xs));
                }
            }
        }
        assert forall|d: Seq<char>|
            contains_str(v@, d) <==> (contains_str(old(v)@, d) || d == xs) by {
            if contains_str(v@, d) {
                let k = choose|k: int| 0 <= k < v@.len() && v@[k]@ == d;
                if k < i {
                    assert(old(v)@[k]@ == d);
                } else if k > i {
                    assert(old(v)@[k - 1]@ == d);
                }
            }
            if contains_str(old(v)@, d) {
                let k = choose|k: int| 0 <= k < old(v)@.len() && old(v)@[k]@ == d;
                if k < i {
                    assert(v@[k]@ == d);
                } else {
                    assert(v@[k + 1]@ == d);
                }
            }
            if d == xs {
                assert(v@[i as int]@ == d);
            }
        }
    }
}

/// Drops the leading run of `c`.
pub open spec fn ltrim_c(s: Seq<char>, c: char) -> Seq<char>
    decreases s.len(),
{
    if s.len() > 0 && s[0] == c {
        ltrim_c(s.drop_first(), c)
    } else {
        s
    }
}

/// Drops the trailing run of `c`.
pub open spec fn rtrim_c(s: Seq<char>, c: char) -> Seq<char>
    decreases s.len(),
{
    if s.len() > 0 && s.last() == c {
        rtrim_c(s.drop_last(), c)
    } else {
        s
    }
}

pub proof fn lemma_ltrim_skip(s: Seq<char>, c: char, k: int)
    requires
        0 <= k <= s.len(),
        forall|j: int| 0 <= j < k ==> s[j] == c,
        k == s.len() || s[k] != c,
    ensures
        ltrim_c(s, c) == s.skip(k),
    decreases k,
{
    if k == 0 {
        assert(s.skip(0) =~= s);
    } else {
        assert(s[0] == c);
        lemma_ltrim_skip(s.drop_first(), c, k - 1);
        assert(s.drop_first().skip(k - 1) =~= s.skip(k));
    }
}

pub proof fn lemma_rtrim_take(s: Seq<char>, c: char, k: int)
    requires
        0 <= k <= s.len(),
        forall|j: int| k <= j < s.len() ==> s[j] == c,
        k == 0 || s[k - 1] != c,
    ensures
        rtrim_c(s, c) == s.take(k),
    decreases s.len(),
{
    if k == s.len() {
        if s.len() > 0 {
            assert(s.last() != c);
        }
        assert(s.take(k) =~= s);
    } else {
        assert(s.last() == c);
        lemma_rtrim_take(s.drop_last(), c, k);
        assert(s.drop_last().take(k) =~= s.take(k));
    }
}

/// The parts of `s` split at `sep`, as character sequences.
pub open spec fn split_parts(s: Seq<char>, sep: char) -> Seq<Seq<char>> {
    split_ranges(s, sep).map_values(|r: (int, int)| s.subrange(r.0, r.1))
}

fn split_str_from(src: &str, v: &Vec<char>, sep: char, pos: usize, out: &mut Vec<String>)
    requires
        v@ == src@,
        pos <= v@.len(),
    ensures
        final(out)@.map_values(|p: String| p@) == old(out)@.map_values(|p: String| p@)
            + split_scan(v@, sep, pos as int, pos as int).map_values(
            |r: (int, int)| v@.subrange(r.0, r.1),
        ),
    decreases v@.len() - pos,
{
    let n = v.len();
    let f = find_char_from(v, sep, pos);
    let ghost ps = split_scan(v@, sep, pos as int, pos as int);
    proof {
        lemma_split_first(v@, sep, pos as int);
    }
    out.push(src.substring_char(pos, f).to_owned());
    if f < n {
        split_str_from(src, v, sep, f + 1, out);
        proof {
            let m = |p: String| p@;
            let g = |r: (int, int)| v@.subrange(r.0, r.1);
            let rest = split_scan(v@, sep, f + 1 as int, f + 1 as int);
            assert(ps.map_values(g) =~= seq![(pos as int, f as int)].map_values(g)
                + rest.map_values(g));
            assert(final(out)@.map_values(m) =~= old(out)@.map_values(m) + ps.map_values(g));
        }
    } else {
        proof {
            let m = |p: String| p@;
            let g = |r: (int, int)| v@.subrange(r.0, r.1);
            assert(ps.map_values(g) =~= seq![v@.subrange(pos as int, v@.len() as int)]);
            assert(final(out)@.map_values(m) =~= old(out)@.map_values(m) + ps.map_values(g));
        }
    }
}

/// Splits `s` at every occurrence of `sep`.
pub fn split_str(s: &str, sep: char) -> (r: Vec<String>)
    ensures
        r@.map_values(|p: String| p@) == split_parts(s@, sep),
{
    let v = str_chars(s);
    let mut out: Vec<String> = Vec::new();
    split_str_from(s, &v, sep, 0, &mut out);
    proof {
        assert(out@.map_values(|p: String| p@) =~= split_parts(s@, sep));
    }
    out
}

proof fn lemma_char_eq(x: char, y: char)
    requires
        x as u32 == y as u32,
    ensures
        x == y,
{
}


/// `s` padded on the left with `c` to at least `w` characters.
pub open spec fn pad_left(s: Seq<char>, w: int, c: char) -> Seq<char>
    decreases w - s.len(),
{
    if s.len() >= w || w <= 0 {
        s
    } else {
        pad_left(seq![c] + s, w, c)
    }
}

pub proof fn lemma_pad_left(s: Seq<char>, w: int, c: char)
    ensures
        pad_left(s, w, c) == if s.len() >= w || w <= 0 {
            s
        } else {
            Seq::new((w - s.len()) as nat, |i: int| c) + s
        },
    decreases w - s.len(),
{
    if !(s.len() >= w || w <= 0) {
        lemma_pad_left(seq![c] + s, w, c);
        if (seq![c] + s).len() >= w {
            assert(Seq::new((w - s.len()) as nat, |i: int| c) + s =~= seq![c] + s);
        } else {
            assert(Seq::new((w - s.len() - 1) as nat, |i: int| c) + (seq![c] + s) =~= Seq::new(
                (w - s.len()) as nat,
                |i: int| c,
            ) + s);
        }
    }
}

/// Appends the digits of `n`, left-padded with `c` to width `w`.
pub fn push_padded_u64(s: &mut String, n: u64, w: usize, c: char)
    ensures
        final(s)@ == old(s)@ + pad_left(spec_digits(n as nat), w as int, c),
{
    let ds = u64_to_string(n);
    let dv = str_chars(ds.as_str());
    let len = dv.len();
    let ghost digits = spec_digits(n as nat);
    proof {
        lemma_pad_left(digits, w as int, c);
    }
    let mut k: usize = len;
    while k < w
        invariant
            len == digits.len(),
            dv@ == digits,
            len <= k,
            k <= w || k == len,
            s@ =~= old(s)@ + Seq::new((k - len) as nat, |i: int| c),
        decreases w - k,
    {
        string_push(s, c);
        assert(s@ =~= old(s)@ + Seq::new((k + 1 - len) as nat, |i: int| c));
        k += 1;
    }
    push_chars(s, &dv);
    proof {
        if len >= w {
            assert(Seq::new(0nat, |i: int| c) =~= Seq::<char>::empty());
            assert(s@ =~= old(s)@ + pad_left(digits, w as int, c));
        } else {
            assert(s@ =~= old(s)@ + (Seq::new((w - len) as nat, |i: int| c) + digits));
            assert(s@ =~= old(s)@ + pad_left(digits, w as int, c));
        }
    }
}

/// Appends the decimal digits of a `u128`.
pub fn push_u128(s: &mut String, n: u128)
    ensures
        final(s)@ == old(s)@ + spec_digits(n as nat),
    decreases n,
{
    if n < 10 {
        string_push(s, digit_of((n as u64)));
    } else {
        push_u128(s, n / 10);
        string_push(s, digit_of((n % 10) as u64));
    }
}

/// The UTF-8 length of one character.
pub open spec fn char_utf8_len(c: char) -> int {
    let u = c as u32;
    if u < 0x80 {
        1
    } else if u < 0x800 {
        2
    } else if u < 0x10000 {
        3
    } else {
        4
    }
}

fn char_len_c(c: char) -> (r: usize)
    ensures
        r == char_utf8_len(c),
{
    let u = c as u32;
    if u < 0x80 {
        1
    } else if u < 0x800 {
        2
    } else if u < 0x10000 {
        3
    } else {
        4
    }
}

/// The longest prefix of `s` whose UTF-8 encoding fits in `cap` bytes.
pub open spec fn take_bytes(s: Seq<char>, cap: int) -> Seq<char>
    decreases s.len(),
{
    if s.len() == 0 {
        s
    } else if char_utf8_len(s[0]) <= cap {
        seq![s[0]] + take_bytes(s.drop_first(), cap - char_utf8_len(s[0]))
    } else {
        Seq::<char>::empty()
    }
}

/// Appends the longest prefix of `v` that fits in `cap` UTF-8 bytes.
pub fn push_prefix_bytes(s: &mut String, v: &Vec<char>, from: usize, cap: usize)
    requires
        from <= v@.len(),
    ensures
        final(s)@ == old(s)@ + take_bytes(v@.skip(from as int), cap as int),
    decreases v@.len() - from,
{
    if from >= v.len() {
        assert(v@.skip(from as int).len() == 0);
        return ;
    }
    let c = v[from];
    assert(v@.skip(from as int)[0] == c);
    let cl = char_len_c(c);
    if cl <= cap {
        string_push(s, c);
        push_prefix_bytes(s, v, from + 1, cap - cl);
        proof {
            assert(v@.skip(from as int).drop_first() =~= v@.skip(from + 1));
            assert(s@ =~= old(s)@ + take_bytes(v@.skip(from as int), cap as int));
        }
    } else {
        assert(s@ =~= old(s)@ + take_bytes(v@.skip(from as int), cap as int));
    }
}

/// How one character prints inside a debug-quoted string.
pub open spec fn esc_char(c: char) -> Seq<char> {
    if c == '\\' {
        seq!['\\', '\\']
    } else if c == '"' {
        seq!['\\', '"']
    } else if c == '\n' {
        seq!['\\', 'n']
    } else if c == '\r' {
        seq!['\\', 'r']
    } else if c == '\t' {
        seq!['\\', 't']
    } else {
        seq![c]
    }
}

/// A string as a debug-quoted literal: surrounding quotes with
/// backslash escapes.
pub open spec fn quoted(s: Seq<char>) -> Seq<char> {
    seq!['"'] + esc_all(s) + seq!['"']
}

pub open spec fn esc_all(s: Seq<char>) -> Seq<char>
    decreases s.len(),
{
    if s.len() == 0 {
        s
    } else {
        esc_all(s.drop_last()) + esc_char(s.last())
    }
}

/// Appends `v`'s text as a debug-quoted literal.
pub fn push_quoted(s: &mut String, v: &Vec<char>)
    ensures
        final(s)@ == old(s)@ + quoted(v@),
{
    string_push(s, '"');
    let n = v.len();
    let mut i: usize = 0;
    while i < n
        invariant
            i <= n,
            n == v@.len(),
            s@ =~= old(s)@ + seq!['"'] + esc_all(v@.take(i as int)),
        decreases n - i,
    {
        let c = v[i];
        if c == '\\' {
            string_push(s, '\\');
            string_push(s, '\\');
        } else if c == '"' {
            string_push(s, '\\');
            string_push(s, '"');
        } else if c == '\n' {
            string_push(s, '\\');
            string_push(s, 'n');
        } else if c == '\r' {
            string_push(s, '\\');
            string_push(s, 'r');
        } else if c == '\t' {
            string_push(s, '\\');
            string_push(s, 't');
        } else {
            string_push(s, c);
        }
        proof {
            assert(v@.take(i + 1).drop_last() =~= v@.take(i as int));
            assert(v@.take(i + 1).last() == v@[i as int]);
            assert(s@ =~= old(s)@ + seq!['"'] + esc_all(v@.take(i + 1)));
        }
        i += 1;
    }
    string_push(s, '"');
    proof {
        assert(v@.take(n as int) =~= v@);
        assert(s@ =~= old(s)@ + quoted(v@));
    }
}

} // verus!
