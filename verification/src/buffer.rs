//! The per-session output buffer: an accumulating byte region with a
//! hard size cap.

use vstd::prelude::*;
use vstd::string::StrSliceExecFns;
use vstd::string::StringSliceAdditionalSpecFns;

use crate::text::bytes_to_string;
use crate::text::lossy_utf8;

verus! {

/// The hard cap on the buffer, in bytes.
pub const OUTPUT_CAP: usize = 100000;

/// What appending `t` to a buffer holding `b` leaves: the concatenation,
/// hard-truncated to the cap.
pub open spec fn spec_append(b: Seq<u8>, t: Seq<u8>) -> Seq<u8> {
    let c = b + t;
    if c.len() > 100000 {
        c.take(100000)
    } else {
        c
    }
}

/// The session's output buffer.  After every append it holds at most
/// `OUTPUT_CAP` bytes.
pub struct OutputBuffer {
    bytes: Vec<u8>,
}

impl View for OutputBuffer {
    type V = Seq<u8>;

    closed spec fn view(&self) -> Seq<u8> {
        self.bytes@
    }
}

/// The cap holds of any sequence of appends: one that overflows leaves
/// exactly the cap, and a subsequent append still respects it.
pub proof fn lemma_buffer_cap(b: Seq<u8>, t1: Seq<u8>, t2: Seq<u8>)
    ensures
        (b + t1).len() > 100000 ==> spec_append(b, t1).len() == 100000,
        spec_append(spec_append(b, t1), t2).len() <= 100000,
{
}

/// Capped appends compose: appending in two steps leaves the same
/// buffer as appending the concatenation at once.
pub proof fn lemma_append_assoc(b: Seq<u8>, t1: Seq<u8>, t2: Seq<u8>)
    ensures
        spec_append(spec_append(b, t1), t2) == spec_append(b, t1 + t2),
{
    assert(b + t1 + t2 =~= b + (t1 + t2));
    if (b + t1).len() > 100000 {
        assert(((b + t1).take(100000) + t2).take(100000) =~= (b + (t1 + t2)).take(100000));
        if t2.len() > 0 {
            assert(spec_append(spec_append(b, t1), t2) =~= spec_append(b, t1 + t2));
        } else {
            assert((b + t1).take(100000) + t2 =~= (b + t1).take(100000));
            assert((b + t1).take(100000) =~= (b + (t1 + t2)).take(100000));
        }
    } else {
        assert(spec_append(spec_append(b, t1), t2) =~= spec_append(b, t1 + t2));
    }
}

impl OutputBuffer {
    pub open spec fn wf(&self) -> bool {
        self@.len() <= 100000
    }

    pub fn new() -> (r: OutputBuffer)
        ensures
            r@ == Seq::<u8>::empty(),
            r.wf(),
    {
        OutputBuffer { bytes: Vec::new() }
    }

    pub fn clear(&mut self)
        ensures
            final(self)@ == Seq::<u8>::empty(),
            final(self).wf(),
    {
        self.bytes.clear();
    }

    pub fn byte_len(&self) -> (r: usize)
        ensures
            r == self@.len(),
    {
        self.bytes.len()
    }

    /// Appends the bytes of `s`, then enforces the cap.  Returns whether
    /// the append was truncated.
    pub fn append_str(&mut self, s: &str) -> (tr: bool)
        ensures
            final(self)@ == spec_append(old(self)@, s.spec_bytes()),
            final(self).wf(),
            tr == ((old(self)@ + s.spec_bytes()).len() > 100000),
    {
        let mut bv = s.as_bytes_vec();
        self.bytes.append(&mut bv);
        self.enforce_cap()
    }

    /// Appends the bytes of `s` and a newline, then enforces the cap.
    pub fn append_line(&mut self, s: &str) -> (tr: bool)
        ensures
            final(self)@ == spec_append(old(self)@, s.spec_bytes() + seq![10u8]),
            final(self).wf(),
            tr == ((old(self)@ + s.spec_bytes() + seq![10u8]).len() > 100000),
    {
        let mut bv = s.as_bytes_vec();
        self.bytes.append(&mut bv);
        self.bytes.push(10u8);
        proof {
            assert(self.bytes@ =~= old(self)@ + s.spec_bytes() + seq![10u8]);
            assert(old(self)@ + (s.spec_bytes() + seq![10u8]) =~= old(self)@ + s.spec_bytes()
                + seq![10u8]);
        }
        self.enforce_cap()
    }

    fn enforce_cap(&mut self) -> (tr: bool)
        ensures
            final(self)@ == (if old(self)@.len() > 100000 {
                old(self)@.take(100000)
            } else {
                old(self)@
            }),
            final(self).wf(),
            tr == (old(self)@.len() > 100000),
    {
        if self.bytes.len() > OUTPUT_CAP {
            self.bytes.truncate(OUTPUT_CAP);
            true
        } else {
            false
        }
    }

    /// A copy of the buffer's bytes.
    pub fn contents(&self) -> (r: Vec<u8>)
        ensures
            r@ == self@,
    {
        let n = self.bytes.len();
        let mut out: Vec<u8> = Vec::new();
        let mut i: usize = 0;
        while i < n
            invariant
                i <= n,
                n == self@.len(),
                self@ == self.bytes@,
                out@ =~= self@.take(i as int),
            decreases n - i,
        {
            out.push(self.bytes[i]);
            assert(out@ =~= self@.take(i + 1));
            i += 1;
        }
        assert(out@ =~= self@);
        out
    }

    /// The buffer's contents as text.
    pub fn as_string(&self) -> (r: String)
        ensures
            r@ == lossy_utf8(self@),
    {
        bytes_to_string(&self.bytes)
    }
}

} // verus!
