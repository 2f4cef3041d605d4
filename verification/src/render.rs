//! Rendering support shared by the HTML layer: deterministic nick
//! colors and the data a log page is drawn from.

use vstd::prelude::*;
use vstd::string::StringSliceAdditionalSpecFns;

use crate::channels::Channel;
use crate::channels::ChannelNode;
use crate::parser::LogLine;
use crate::text::push_u64;
use crate::text::spec_digits;

verus! {

/// The DJB2 hash of a nick's bytes, folded left with wrapping
/// arithmetic.
pub open spec fn nick_hash(s: Seq<u8>) -> u32
    decreases s.len(),
{
    if s.len() == 0 {
        5381u32
    } else {
        let h = nick_hash(s.drop_last());
        let m = ((h as nat * 33) % 0x100000000) as u32;
        if m + (s.last() as u32) > u32::MAX {
            (m + (s.last() as u32) - 0x100000000) as u32
        } else {
            (m + (s.last() as u32)) as u32
        }
    }
}

/// A deterministic hue for a nick, below 360.
pub fn nick_hue(nick: &str) -> (r: u16)
    ensures
        r == nick_hash(nick.spec_bytes()) % 360,
        r < 360,
{
    let bytes = nick.as_bytes_vec();
    let n = bytes.len();
    let mut hash: u32 = 5381;
    let mut i: usize = 0;
    proof {
        assert(bytes@.take(0) =~= Seq::<u8>::empty());
    }
    while i < n
        invariant
            i <= n,
            n == bytes@.len(),
            hash == nick_hash(bytes@.take(i as int)),
        decreases n - i,
    {
        let b = bytes[i];
        hash = hash.wrapping_mul(33).wrapping_add(b as u32);
        proof {
            assert(bytes@.take(i + 1).drop_last() =~= bytes@.take(i as int));
            assert(bytes@.take(i + 1).last() == bytes@[i as int]);
        }
        i += 1;
    }
    assert(bytes@.take(n as int) =~= bytes@);
    (hash % 360) as u16
}

/// The inline CSS a nick is colored with.
pub fn nick_color_style(nick: &str) -> (r: String)
    ensures
        r@ == "color:hsl("@ + spec_digits((nick_hash(nick.spec_bytes()) % 360) as nat)
            + ",70%,65%)"@,
{
    let hue = nick_hue(nick);
    let mut s = String::from_str("color:hsl(");
    push_u64(&mut s, hue as u64);
    s.append(",70%,65%)");
    s
}

/// Everything a dated log page is rendered from.
pub struct LogPageContext<'a> {
    pub title: &'a str,
    pub tree: &'a ChannelNode,
    pub channel: &'a Channel,
    pub date: &'a str,
    pub lines: &'a Vec<LogLine>,
    pub prev_date: Option<&'a str>,
    pub next_date: Option<&'a str>,
    pub is_today: bool,
    pub ai_enabled: bool,
    pub base_path: &'a str,
}

} // verus!
