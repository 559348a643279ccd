//! Startup banner lines, centered within the terminal's width.

use vstd::prelude::*;

verus! {

/// `text` centered in a row of `width` cells, padded with `fill` on both
/// sides; when the free space is odd the right pad is one longer.
pub open spec fn centered_line(width: int, text: Seq<u8>, fill: u8) -> Seq<u8> {
    let pad_left = (width - text.len()) / 2;
    let pad_right = width - text.len() - pad_left;
    Seq::new(pad_left as nat, |j: int| fill) + text + Seq::new(pad_right as nat, |j: int| fill)
}

/// Build a banner line: `text` centered in `width` cells, padded with
/// `fill`. The text must fit.
#[verifier::loop_isolation(false)]
pub fn centered_fill_line(width: usize, text: &[u8], fill: u8) -> (r: Vec<u8>)
    requires
        text@.len() <= width,
    ensures
        r@ == centered_line(width as int, text@, fill),
        r@.len() == width,
{
    let tlen = text.len();
    let pad_left = (width - tlen) / 2;
    let pad_right = width - tlen - pad_left;
    let mut out: Vec<u8> = Vec::new();
    for j in 0..pad_left
        invariant
            out@ =~= Seq::new(j as nat, |k: int| fill),
    {
        out.push(fill);
    }
    for j in 0..tlen
        invariant
            out@ =~= Seq::new(pad_left as nat, |k: int| fill) + text@.take(j as int),
    {
        out.push(*vstd::slice::slice_index_get(text, j));
        proof {
            assert(text@.take(j + 1) =~= text@.take(j as int).push(text@[j as int]));
        }
    }
    proof {
        assert(text@.take(tlen as int) =~= text@);
    }
    for j in 0..pad_right
        invariant
            out@ =~= Seq::new(pad_left as nat, |k: int| fill) + text@ + Seq::new(
                j as nat,
                |k: int| fill,
            ),
    {
        out.push(fill);
    }
    proof {
        assert(out@ =~= centered_line(width as int, text@, fill));
    }
    out
}

} // verus!
