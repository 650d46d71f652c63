//! The frame list for ffmpeg's concat demuxer: one `file 'N.png'` line per
//! frame, numbered from 1.
use vstd::prelude::*;

verus! {

/// The decimal digits of `n`, most significant first, as ASCII bytes.
pub open spec fn decimal_spec(n: nat) -> Seq<u8>
    decreases n,
{
    if n < 10 {
        seq![(48 + n) as u8]
    } else {
        decimal_spec(n / 10).push((48 + n % 10) as u8)
    }
}

/// `file '` in ASCII.
pub open spec fn line_start() -> Seq<u8> {
    seq![102u8, 105u8, 108u8, 101u8, 32u8, 39u8]
}

/// `.png'` and a newline in ASCII.
pub open spec fn line_end() -> Seq<u8> {
    seq![46u8, 112u8, 110u8, 103u8, 39u8, 10u8]
}

/// The line naming frame `i`: `file 'i.png'`.
pub open spec fn line_spec(i: nat) -> Seq<u8> {
    line_start() + decimal_spec(i) + line_end()
}

/// The lines for frames 1 to `n`.
pub open spec fn listing_spec(n: nat) -> Seq<u8>
    decreases n,
{
    if n == 0 {
        Seq::empty()
    } else {
        listing_spec((n - 1) as nat) + line_spec(n)
    }
}

/// How many frames the list names.
pub struct FrameDict {
    pub frame_count: usize,
}

fn push_decimal(out: &mut Vec<u8>, n: usize)
    ensures
        final(out)@ == old(out)@ + decimal_spec(n as nat),
    decreases n,
{
    if n >= 10 {
        push_decimal(out, n / 10);
    }
    out.push((48 + n % 10) as u8);
    proof {
        if n < 10 {
            assert(n % 10 == n);
        }
        assert(final(out)@ =~= old(out)@ + decimal_spec(n as nat));
    }
}

fn push_line(out: &mut Vec<u8>, i: usize)
    ensures
        final(out)@ == old(out)@ + line_spec(i as nat),
{
    out.push(102);
    out.push(105);
    out.push(108);
    out.push(101);
    out.push(32);
    out.push(39);
    let ghost mid = out@;
    assert(mid =~= old(out)@ + line_start());
    push_decimal(out, i);
    out.push(46);
    out.push(112);
    out.push(110);
    out.push(103);
    out.push(39);
    out.push(10);
    assert(out@ =~= old(out)@ + line_spec(i as nat));
}

impl FrameDict {
    /// The text of the list, as ASCII bytes.
    pub fn listing(&self) -> (r: Vec<u8>)
        ensures
            r@ == listing_spec(self.frame_count as nat),
    {
        let mut out: Vec<u8> = Vec::new();
        let mut i: usize = 0;
        while i < self.frame_count
            invariant
                i <= self.frame_count,
                out@ == listing_spec(i as nat),
            decreases self.frame_count - i,
        {
            i = i + 1;
            push_line(&mut out, i);
        }
        out
    }
}

} // verus!
