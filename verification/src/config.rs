//! Service configuration: what the server reads at startup, as plain
//! values.

use vstd::prelude::*;
use vstd::string::StringExecFns;

use crate::text::ltrim_c;
use crate::text::rtrim_c;
use crate::text::lemma_ltrim_skip;
use crate::text::lemma_rtrim_take;
use crate::text::str_chars;

verus! {

#[derive(Debug)]
pub struct Config {
    pub bind: String,
    pub title: String,
    pub search_limit: usize,
    pub logs_dirs: Vec<String>,
    pub base_path: String,
    pub ai: Option<AiConfig>,
}

#[derive(Debug)]
pub struct AiConfig {
    pub api_key: String,
    pub model: String,
    pub output_dir: String,
    pub base_url: Option<String>,
    pub max_concurrent: usize,
    pub max_tool_calls: u64,
    pub system_prompt: Option<String>,
}

pub fn default_bind() -> (r: String)
    ensures
        r@ == "0.0.0.0:8080"@,
{
    String::from_str("0.0.0.0:8080")
}

pub fn default_title() -> (r: String)
    ensures
        r@ == "IRC Logs"@,
{
    String::from_str("IRC Logs")
}

pub fn default_search_limit() -> (r: usize)
    ensures
        r == 10000,
{
    10000
}

pub fn default_ai_model() -> (r: String)
    ensures
        r@ == "default-model"@,
{
    String::from_str("default-model")
}

pub fn default_ai_max_concurrent() -> (r: usize)
    ensures
        r == 1,
{
    1
}

impl Default for Config {
    /// The configuration written out when none exists yet.
    fn default() -> (r: Config)
        ensures
            r.bind@ == "0.0.0.0:8080"@,
            r.title@ == "IRC Logs"@,
            r.search_limit == 10000,
            r.logs_dirs@.len() == 1 && r.logs_dirs@[0]@ == "./logs"@,
            r.base_path@ == Seq::<char>::empty(),
            r.ai is None,
    {
        let mut dirs: Vec<String> = Vec::new();
        dirs.push(String::from_str("./logs"));
        Config {
            bind: default_bind(),
            title: default_title(),
            search_limit: default_search_limit(),
            logs_dirs: dirs,
            base_path: String::new(),
            ai: None,
        }
    }
}

/// The normalized form of a base path: outer `/` runs trimmed, then one
/// leading `/` if anything is left.
pub open spec fn spec_normalize_base_path(s: Seq<char>) -> Seq<char> {
    let t = rtrim_c(ltrim_c(s, '/'), '/');
    if t.len() == 0 {
        Seq::<char>::empty()
    } else {
        seq!['/'] + t
    }
}

/// Normalizes a configured base path so that it is either empty or
/// starts with exactly one `/` and does not end with one.
pub fn normalize_base_path(s: &str) -> (r: String)
    ensures
        r@ == spec_normalize_base_path(s@),
{
    let v = str_chars(s);
    let n = v.len();
    let mut lo: usize = 0;
    while lo < n && v[lo] == '/'
        invariant
            lo <= n,
            n == v@.len(),
            forall|j: int| 0 <= j < lo ==> v@[j] == '/',
        decreases n - lo,
    {
        lo += 1;
    }
    let mut hi: usize = n;
    while hi > lo && v[hi - 1] == '/'
        invariant
            lo <= hi <= n,
            n == v@.len(),
            forall|j: int| hi <= j < n ==> v@[j] == '/',
        decreases hi,
    {
        hi -= 1;
    }
    proof {
        lemma_ltrim_skip(v@, '/', lo as int);
        let s2 = v@.skip(lo as int);
        assert forall|j: int| (hi - lo) <= j < s2.len() implies s2[j] == '/' by {
            assert(s2[j] == v@[j + lo]);
        }
        if hi > lo {
            assert(s2[hi - lo - 1] == v@[hi - 1]);
        }
        lemma_rtrim_take(s2, '/', hi - lo);
        assert(s2.take(hi - lo) =~= v@.subrange(lo as int, hi as int));
    }
    if lo == hi {
        let r = String::new();
        assert(r@ =~= spec_normalize_base_path(s@));
        r
    } else {
        let mut r = String::new();
        crate::text::string_push(&mut r, '/');
        let mut k: usize = lo;
        while k < hi
            invariant
                lo <= k <= hi <= n,
                n == v@.len(),
                r@ =~= seq!['/'] + v@.subrange(lo as int, k as int),
            decreases hi - k,
        {
            crate::text::string_push(&mut r, v[k]);
            assert(r@ =~= seq!['/'] + v@.subrange(lo as int, k + 1));
            k += 1;
        }
        assert(r@ =~= spec_normalize_base_path(s@));
        r
    }
}

} // verus!
