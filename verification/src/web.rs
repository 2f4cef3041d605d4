//! Request-path helpers: date recognition, percent decoding, and the
//! civil-date conversion behind `today`.

use vstd::prelude::*;
use vstd::string::StrSliceExecFns;
use vstd::string::StringSliceAdditionalSpecFns;

use crate::text::is_digit;
use crate::text::spec_digits;
use crate::text::str_eq;
use crate::text::string_push;

verus! {

/// A zero-padded ISO date: ten characters, `NNNN-NN-NN`.
pub open spec fn spec_date_like(s: Seq<char>) -> bool {
    &&& s.len() == 10
    &&& s[4] == '-'
    &&& s[7] == '-'
    &&& is_digit(s[0]) && is_digit(s[1]) && is_digit(s[2]) && is_digit(s[3])
    &&& is_digit(s[5]) && is_digit(s[6])
    &&& is_digit(s[8]) && is_digit(s[9])
}

/// Whether a path segment looks like a date.
pub fn looks_like_date(s: &str) -> (r: bool)
    ensures
        r == spec_date_like(s@),
{
    let v = crate::text::str_chars(s);
    if v.len() != 10 {
        return false;
    }
    let mut i: usize = 0;
    while i < 10
        invariant
            i <= 10,
            v@.len() == 10,
            v@ == s@,
            forall|j: int|
                0 <= j < i ==> if j == 4 || j == 7 {
                    v@[j] == '-'
                } else {
                    is_digit(#[trigger] v@[j])
                },
        decreases 10 - i,
    {
        let c = v[i];
        if i == 4 || i == 7 {
            if c != '-' {
                return false;
            }
        } else {
            if !crate::text::is_digit_c(c) {
                return false;
            }
        }
        i += 1;
    }
    true
}

/// Whether the last path segment asks for the raw log.
pub fn is_date_raw(last: &str, len: usize) -> (r: bool)
    ensures
        r == (last@ == "raw"@ && len >= 2),
{
    str_eq(last, "raw") && len >= 2
}

pub open spec fn is_hex_digit(b: u8) -> bool {
    (48 <= b && b <= 57) || (65 <= b && b <= 70) || (97 <= b && b <= 102)
}

pub open spec fn hex_val(b: u8) -> int {
    if 48 <= b && b <= 57 {
        b - 48
    } else if 65 <= b && b <= 70 {
        b - 55
    } else {
        b - 87
    }
}

/// Percent decoding over the bytes of a path, each decoded or raw byte
/// taken as one character.
pub open spec fn spec_pct_decode(b: Seq<u8>, i: int) -> Seq<char>
    recommends
        0 <= i <= b.len(),
    decreases b.len() - i when 0 <= i <= b.len()
{
    if i >= b.len() {
        Seq::<char>::empty()
    } else if b[i] == 37 && i + 2 < b.len() && is_hex_digit(b[i + 1]) && is_hex_digit(b[i + 2]) {
        seq![((16 * hex_val(b[i + 1]) + hex_val(b[i + 2])) as u8) as char] + spec_pct_decode(
            b,
            i + 3,
        )
    } else {
        seq![b[i] as char] + spec_pct_decode(b, i + 1)
    }
}

fn hex_digit_val(b: u8) -> (r: Option<u8>)
    ensures
        match r {
            Some(v) => is_hex_digit(b) && v == hex_val(b),
            None => !is_hex_digit(b),
        },
{
    if 48 <= b && b <= 57 {
        Some(b - 48)
    } else if 65 <= b && b <= 70 {
        Some(b - 55)
    } else if 97 <= b && b <= 102 {
        Some(b - 87)
    } else {
        None
    }
}

/// Decodes `%XX` escapes in a path; anything else passes through
/// byte-for-byte.
pub fn percent_decode(s: &str) -> (r: String)
    ensures
        r@ == spec_pct_decode(s.spec_bytes(), 0),
{
    let bytes = s.as_bytes_vec();
    let n = bytes.len();
    let mut out = String::new();
    let mut i: usize = 0;
    while i < n
        invariant
            i <= n,
            n == bytes@.len(),
            bytes@ == s.spec_bytes(),
            spec_pct_decode(bytes@, 0) == out@ + spec_pct_decode(bytes@, i as int),
        decreases n - i,
    {
        let b = bytes[i];
        if b == 37 && n - i > 2 {
            let h1 = hex_digit_val(bytes[i + 1]);
            let h2 = hex_digit_val(bytes[i + 2]);
            match (h1, h2) {
                (Some(v1), Some(v2)) => {
                    string_push(&mut out, (16 * v1 + v2) as char);
                    i += 3;
                },
                _ => {
                    string_push(&mut out, b as char);
                    i += 1;
                },
            }
        } else {
            string_push(&mut out, b as char);
            i += 1;
        }
    }
    assert(spec_pct_decode(bytes@, i as int) =~= Seq::<char>::empty());
    assert(out@ =~= out@ + spec_pct_decode(bytes@, i as int));
    out
}

/// Digits of `n`, zero-padded on the left to at least `w` characters.
pub open spec fn zero_pad(s: Seq<char>, w: int) -> Seq<char> {
    crate::text::pad_left(s, w, '0')
}

/// The civil date, `YYYY-MM-DD`, for a count of days since the Unix
/// epoch, by the Euclidean-affine algorithm.
pub open spec fn spec_epoch_date(days: int) -> Seq<char> {
    let z = days + 719468;
    let era = z / 146097;
    let doe = z - era * 146097;
    let yoe = (doe - doe / 1460 + doe / 36524 - doe / 146096) / 365;
    let y0 = yoe + era * 400;
    let ydays = 365 * yoe + yoe / 4 - yoe / 100;
    let doy = if ydays <= doe {
        doe - ydays
    } else {
        0
    };
    let mp = (5 * doy + 2) / 153;
    let mdays = (153 * mp + 2) / 5;
    let d = if mdays <= doy {
        doy - mdays + 1
    } else {
        1
    };
    let m = if mp < 10 {
        mp + 3
    } else {
        mp - 9
    };
    let y = if m <= 2 {
        y0 + 1
    } else {
        y0
    };
    zero_pad(spec_digits(y as nat), 4) + seq!['-'] + zero_pad(spec_digits(m as nat), 2) + seq!['-']
        + zero_pad(spec_digits(d as nat), 2)
}

/// Renders a day count since the Unix epoch as `YYYY-MM-DD`.
pub fn epoch_days_to_date(days: u64) -> (r: String)
    requires
        days <= u64::MAX / 86400,
    ensures
        r@ == spec_epoch_date(days as int),
{
    let z: u64 = days + 719468;
    let era: u64 = z / 146097;
    proof {
        vstd::arithmetic::div_mod::lemma_fundamental_div_mod(z as int, 146097);
    }
    let doe: u64 = z - era * 146097;
    assert(doe < 146097);
    let q1: u64 = doe / 1460;
    let q2: u64 = doe / 36524;
    let q3: u64 = doe / 146096;
    proof {
        vstd::arithmetic::div_mod::lemma_fundamental_div_mod(doe as int, 1460);
        vstd::arithmetic::div_mod::lemma_fundamental_div_mod(doe as int, 36524);
        vstd::arithmetic::div_mod::lemma_fundamental_div_mod(doe as int, 146096);
    }
    assert(q1 <= doe && q2 <= doe && q3 <= 1);
    assert(doe - q1 + q2 >= q3) by {
        if doe >= 1 {
            assert(q1 <= doe / 2) by (nonlinear_arith)
                requires
                    q1 == doe / 1460,
                    doe >= 1,
            ;
        }
    }
    let w3: u64 = doe - q1 + q2 - q3;
    let yoe: u64 = w3 / 365;
    proof {
        vstd::arithmetic::div_mod::lemma_fundamental_div_mod(w3 as int, 365);
    }
    assert(yoe <= 401);
    let y0: u64 = yoe + era * 400;
    assert(era * 400 <= z) by (nonlinear_arith)
        requires
            146097 * era <= z,
    ;
    let yd1: u64 = 365 * yoe + yoe / 4;
    let ydays: u64 = yd1 - yoe / 100;
    let doy: u64 = if ydays <= doe {
        doe - ydays
    } else {
        0
    };
    let mp: u64 = (5 * doy + 2) / 153;
    proof {
        vstd::arithmetic::div_mod::lemma_fundamental_div_mod((5 * doy + 2) as int, 153);
    }
    assert(mp <= 4775);
    let mdays: u64 = (153 * mp + 2) / 5;
    let d: u64 = if mdays <= doy {
        doy - mdays + 1
    } else {
        1
    };
    let m: u64 = if mp < 10 {
        mp + 3
    } else {
        mp - 9
    };
    let y: u64 = if m <= 2 {
        y0 + 1
    } else {
        y0
    };
    let mut out = String::new();
    crate::text::push_padded_u64(&mut out, y, 4, '0');
    string_push(&mut out, '-');
    crate::text::push_padded_u64(&mut out, m, 2, '0');
    string_push(&mut out, '-');
    crate::text::push_padded_u64(&mut out, d, 2, '0');
    assert(out@ =~= spec_epoch_date(days as int));
    out
}

/// Relies on `std::time::SystemTime::now` and
/// `SystemTime::duration_since`: the seconds since the Unix epoch, or
/// zero when the clock predates it.  Nothing further holds of a clock
/// reading.
#[verifier::external_body]
fn unix_now_secs() -> u64 {
    match std::time::SystemTime::now().duration_since(std::time::UNIX_EPOCH) {
        Ok(d) => d.as_secs(),
        Err(_) => 0,
    }
}

/// Today's date, `YYYY-MM-DD`, from the system clock.
pub fn today_date() -> (r: String)
    ensures
        exists|d: int| 0 <= d && r@ == spec_epoch_date(d),
{
    let secs = unix_now_secs();
    let days = secs / 86400;
    proof {
        vstd::arithmetic::div_mod::lemma_fundamental_div_mod(secs as int, 86400);
        vstd::arithmetic::div_mod::lemma_fundamental_div_mod(u64::MAX as int, 86400);
        assert(days <= u64::MAX / 86400) by (nonlinear_arith)
            requires
                86400 * days <= secs,
                secs <= u64::MAX,
                86400 * (u64::MAX as int / 86400) + u64::MAX as int % 86400 == u64::MAX as int,
                0 <= u64::MAX as int % 86400 < 86400,
        ;
    }
    epoch_days_to_date(days)
}

} // verus!
