//! The layout of an RGBA buffer and what a pass over it is.
use vstd::prelude::*;

verus! {

/// Number of channel bytes per pixel: red, green, blue, alpha.
pub const CHANNELS: usize = 4;

/// A buffer of `len` bytes holds exactly `width` x `height` RGBA pixels.
pub open spec fn dimensions_match(len: int, width: int, height: int) -> bool {
    len == CHANNELS * width * height
}

/// The colour channels of pixel `p`.
pub open spec fn rgb_at(s: Seq<u8>, p: int) -> (u8, u8, u8) {
    (s[CHANNELS * p], s[CHANNELS * p + 1], s[CHANNELS * p + 2])
}

/// The alpha channel of pixel `p`.
pub open spec fn alpha_at(s: Seq<u8>, p: int) -> u8 {
    s[CHANNELS * p + 3]
}

/// Pixel `p` of `after` is pixel `p` of `before` with its colour replaced by
/// an answer of `kernel` to that colour; its alpha is the same.
pub open spec fn pixel_shifted<F: Fn(u8, u8, u8) -> (u8, u8, u8)>(
    before: Seq<u8>,
    after: Seq<u8>,
    kernel: F,
    p: int,
) -> bool {
    &&& call_ensures(kernel, rgb_at(before, p), rgb_at(after, p))
    &&& alpha_at(after, p) == alpha_at(before, p)
}

/// `after` is what one pass of `kernel` makes of `before`: a buffer of whole
/// pixels of the same length in which every pixel, on its own, has been
/// shifted.
pub open spec fn shifted<F: Fn(u8, u8, u8) -> (u8, u8, u8)>(
    before: Seq<u8>,
    after: Seq<u8>,
    kernel: F,
) -> bool {
    &&& before.len() % CHANNELS as nat == 0
    &&& after.len() == before.len()
    &&& forall|p: int|
        0 <= p < before.len() / CHANNELS as nat ==> #[trigger] pixel_shifted(
            before,
            after,
            kernel,
            p,
        )
}

/// Whether a buffer of `len` bytes is `width` x `height` RGBA pixels.
pub fn dimensions_fit(len: usize, width: u32, height: u32) -> (fits: bool)
    ensures
        fits == dimensions_match(len as int, width as int, height as int),
{
    let w: u128 = width as u128;
    let h: u128 = height as u128;
    assert(w * h <= 0xffff_ffff * 0xffff_ffff) by (nonlinear_arith)
        requires
            w <= 0xffff_ffff,
            h <= 0xffff_ffff,
    ;
    let area: u128 = w * h;
    assert(4 * w * h == 4 * (w * h)) by (nonlinear_arith);
    len as u128 == 4 * area
}

/// No channel of `out` is further than `d` from the same channel of `rgb`.
pub open spec fn within(rgb: (u8, u8, u8), out: (u8, u8, u8), d: int) -> bool {
    &&& -d <= out.0 - rgb.0 <= d
    &&& -d <= out.1 - rgb.1 <= d
    &&& -d <= out.2 - rgb.2 <= d
}

/// A pass is as gentle as its kernel: if the kernel never moves a channel by
/// more than `d`, no byte of the buffer moves by more than `d`; with `d == 0`
/// the buffer stays as it was.
pub proof fn lemma_shift_within<F: Fn(u8, u8, u8) -> (u8, u8, u8)>(
    before: Seq<u8>,
    after: Seq<u8>,
    kernel: F,
    d: int,
)
    requires
        shifted(before, after, kernel),
        forall|rgb: (u8, u8, u8), out: (u8, u8, u8)|
            call_ensures(kernel, rgb, out) ==> within(rgb, out, d),
    ensures
        forall|i: int| 0 <= i < before.len() ==> -d <= #[trigger] after[i] - before[i] <= d,
        d == 0 ==> after == before,
{
    assert forall|i: int| 0 <= i < before.len() implies -d <= #[trigger] after[i] - before[i]
        <= d by {
        let p = i / 4;
        assert(pixel_shifted(before, after, kernel, p));
        assert(within(rgb_at(before, p), rgb_at(after, p), d));
    }
    if d == 0 {
        assert(after =~= before);
    }
}

/// Pixels do not depend on one another: shifting two buffers apart and
/// joining the results is one way of shifting the joined buffer.
pub proof fn lemma_shift_concat<F: Fn(u8, u8, u8) -> (u8, u8, u8)>(
    head: Seq<u8>,
    head_after: Seq<u8>,
    rest: Seq<u8>,
    rest_after: Seq<u8>,
    kernel: F,
)
    requires
        shifted(head, head_after, kernel),
        shifted(rest, rest_after, kernel),
    ensures
        shifted(head + rest, head_after + rest_after, kernel),
{
    let before = head + rest;
    let after = head_after + rest_after;
    let k = (head.len() / 4) as int;
    assert forall|p: int| 0 <= p < before.len() / 4 implies #[trigger] pixel_shifted(
        before,
        after,
        kernel,
        p,
    ) by {
        if p < k {
            assert(pixel_shifted(head, head_after, kernel, p));
        } else {
            assert(pixel_shifted(rest, rest_after, kernel, p - k));
            assert(4 * p - head.len() == 4 * (p - k));
        }
    }
}

/// Conversely, the first `pixels` pixels of a shifted buffer are the shifted
/// first `pixels` pixels, and likewise for what follows them: a pass can be
/// carried out chunk by chunk.
pub proof fn lemma_shift_split<F: Fn(u8, u8, u8) -> (u8, u8, u8)>(
    before: Seq<u8>,
    after: Seq<u8>,
    kernel: F,
    pixels: int,
)
    requires
        shifted(before, after, kernel),
        0 <= pixels <= before.len() / 4,
    ensures
        shifted(before.take(4 * pixels), after.take(4 * pixels), kernel),
        shifted(before.skip(4 * pixels), after.skip(4 * pixels), kernel),
{
    let cut = 4 * pixels;
    assert forall|p: int| 0 <= p < before.take(cut).len() / 4 implies #[trigger] pixel_shifted(
        before.take(cut),
        after.take(cut),
        kernel,
        p,
    ) by {
        assert(pixel_shifted(before, after, kernel, p));
    }
    assert forall|p: int| 0 <= p < before.skip(cut).len() / 4 implies #[trigger] pixel_shifted(
        before.skip(cut),
        after.skip(cut),
        kernel,
        p,
    ) by {
        assert(pixel_shifted(before, after, kernel, p + pixels));
        assert(4 * (p + pixels) == cut + 4 * p);
    }
}

} // verus!
