//! Conversion of a captured BGRA frame into the packed RGBA image that the
//! image pipeline takes, and the pipeline's colour setting.

use vstd::arithmetic::div_mod::lemma_fundamental_div_mod_converse;
use vstd::arithmetic::mul::lemma_mul_inequality;
use vstd::prelude::*;

verus! {

/// Whether a frame of `len` bytes holds `h` rows of at least `w` BGRA pixels,
/// rows being `len / h` bytes apart: the last byte read for the last pixel
/// lies inside the frame.
pub open spec fn frame_fits(len: nat, w: nat, h: nat) -> bool {
    &&& h > 0
    &&& (w == 0 || (len / h) * (h - 1) + 4 * (w - 1) + 2 < len)
}

/// Byte `j` of the RGBA image made from the BGRA frame `frame` of `w` x `h`
/// pixels: pixel `j / 4` sits in row `(j / 4) / w`, column `(j / 4) % w`,
/// its blue, green, red bytes at `stride * row + 4 * column`, `+ 1`, `+ 2`;
/// the RGBA pixel is red, green, blue and an opaque alpha of 255.
pub open spec fn rgba_byte(frame: Seq<u8>, w: nat, h: nat, j: int) -> u8 {
    let p = j / 4;
    let row = p / (w as int);
    let column = p % (w as int);
    let i = ((frame.len() / h) as int) * row + 4 * column;
    let k = j % 4;
    if k == 0 {
        frame[i + 2]
    } else if k == 1 {
        frame[i + 1]
    } else if k == 2 {
        frame[i]
    } else {
        255
    }
}

/// The RGBA image made from the BGRA frame `frame` of `w` x `h` pixels.
pub open spec fn rgba_from_bgra(frame: Seq<u8>, w: nat, h: nat) -> Seq<u8> {
    Seq::new(4 * w * h, |j: int| rgba_byte(frame, w, h, j))
}

/// Turns a BGRA frame of `h` rows, `frame.len() / h` bytes apart, into
/// `w * h` packed RGBA pixels, row by row.
pub fn bgra_to_rgba(frame: &[u8], w: usize, h: usize) -> (rgba: Vec<u8>)
    requires
        frame_fits(frame@.len(), w as nat, h as nat),
        4 * w * h <= isize::MAX,
    ensures
        rgba@ == rgba_from_bgra(frame@, w as nat, h as nat),
{
    let len = frame.len();
    let stride = len / h;
    assert(4 * w * h == 4 * (w * h)) by (nonlinear_arith);
    let mut rgba: Vec<u8> = Vec::with_capacity(w * h * 4);
    let mut y: usize = 0;
    while y < h
        invariant
            len == frame@.len(),
            stride == len / h,
            h > 0,
            frame_fits(len as nat, w as nat, h as nat),
            4 * w * h <= isize::MAX,
            y <= h,
            rgba@.len() == 4 * (y * w),
            forall|j: int|
                0 <= j < rgba@.len() ==> #[trigger] rgba@[j] == rgba_byte(
                    frame@,
                    w as nat,
                    h as nat,
                    j,
                ),
        decreases h - y,
    {
        let mut x: usize = 0;
        while x < w
            invariant
                len == frame@.len(),
                stride == len / h,
                h > 0,
                frame_fits(len as nat, w as nat, h as nat),
                4 * w * h <= isize::MAX,
                y < h,
                x <= w,
                rgba@.len() == 4 * (y * w + x),
                forall|j: int|
                    0 <= j < rgba@.len() ==> #[trigger] rgba@[j] == rgba_byte(
                        frame@,
                        w as nat,
                        h as nat,
                        j,
                    ),
            decreases w - x,
        {
            proof {
                lemma_mul_inequality(y as int, (h - 1) as int, stride as int);
                assert(stride * (h - 1) <= len) by (nonlinear_arith)
                    requires
                        stride == len / h,
                        h > 0,
                ;
            }
            let i = stride * y + 4 * x;
            let ghost p: int = y * w + x;
            proof {
                assert(p < w * h) by (nonlinear_arith)
                    requires
                        p == y * w + x,
                        x < w,
                        y < h,
                ;
                lemma_fundamental_div_mod_converse(p, w as int, y as int, x as int);
                assert forall|k: int| 0 <= k < 4 implies (#[trigger] (4 * p + k)) / 4 == p && (4 * p
                    + k) % 4 == k by {
                    lemma_fundamental_div_mod_converse(4 * p + k, 4, p, k);
                }
                assert((stride as int) * (p / (w as int)) + 4 * (p % (w as int)) == i);
                assert((frame@.len() / h as nat) as int == stride as int);
            }
            let ghost before = rgba@;
            rgba.push(frame[i + 2]);
            rgba.push(frame[i + 1]);
            rgba.push(frame[i]);
            rgba.push(255u8);
            proof {
                assert(rgba@.len() == 4 * p + 4);
                assert forall|j: int| 0 <= j < rgba@.len() implies #[trigger] rgba@[j]
                    == rgba_byte(frame@, w as nat, h as nat, j) by {
                    if j >= before.len() {
                        let k = j - 4 * p;
                        assert(j == 4 * p + k);
                    } else {
                        assert(rgba@[j] == before[j]);
                    }
                }
            }
            x = x + 1;
        }
        assert((y + 1) * w == y * w + w) by (nonlinear_arith);
        y = y + 1;
    }
    assert(rgba@ =~= rgba_from_bgra(frame@, w as nat, h as nat)) by {
        assert(h * w == w * h) by (nonlinear_arith);
    }
    rgba
}

/// Pixel `p = y * w + x` of the RGBA image holds, in its four bytes, the
/// frame's bytes at `i + 2`, `i + 1`, `i` (red, green, blue of the BGRA pixel
/// that starts at `i = stride * y + 4 * x`, with `stride = len / h`) and an
/// alpha of 255, whatever the row padding; the image has `4 * w * h` bytes.
pub proof fn law_rgba_pixel(frame: Seq<u8>, w: nat, h: nat, y: nat, x: nat)
    requires
        frame_fits(frame.len(), w, h),
        y < h,
        x < w,
    ensures
        ({
            let image = rgba_from_bgra(frame, w, h);
            let stride = frame.len() / h;
            let p = (y * w + x) as int;
            let i = (stride * y + 4 * x) as int;
            &&& image.len() == 4 * w * h
            &&& 0 <= i && i + 2 < frame.len()
            &&& 4 * p + 3 < image.len()
            &&& image[4 * p] == frame[i + 2]
            &&& image[4 * p + 1] == frame[i + 1]
            &&& image[4 * p + 2] == frame[i]
            &&& image[4 * p + 3] == 255
        }),
{
    let image = rgba_from_bgra(frame, w, h);
    let stride = frame.len() / h;
    let p: int = (y * w + x) as int;
    let i: int = (stride * y + 4 * x) as int;
    assert(p < w * h && 4 * w * h == 4 * (w * h)) by (nonlinear_arith)
        requires
            p == y * w + x,
            x < w,
            y < h,
    ;
    lemma_mul_inequality(y as int, (h - 1) as int, stride as int);
    assert(stride * (h - 1) <= frame.len()) by (nonlinear_arith)
        requires
            stride == frame.len() / h,
            h > 0,
    ;
    lemma_fundamental_div_mod_converse(p, w as int, y as int, x as int);
    assert forall|k: int| 0 <= k < 4 implies (#[trigger] (4 * p + k)) / 4 == p && (4 * p + k) % 4
        == k by {
        lemma_fundamental_div_mod_converse(4 * p + k, 4, p, k);
    }
    assert(image[4 * p] == rgba_byte(frame, w, h, 4 * p));
    assert(image[4 * p + 1] == rgba_byte(frame, w, h, 4 * p + 1));
    assert(image[4 * p + 2] == rgba_byte(frame, w, h, 4 * p + 2));
    assert(image[4 * p + 3] == rgba_byte(frame, w, h, 4 * p + 3));
}

/// Whether the image pipeline must make the picture strictly black and white:
/// it must when fewer than two colours are asked for.
pub fn monochrome_threshold(number_of_colors: usize) -> (threshold: bool)
    ensures
        threshold == (number_of_colors < 2),
{
    number_of_colors < 2
}

} // verus!
