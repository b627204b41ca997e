//! Painting filled rectangles into a row-major buffer of one byte per pixel.
use vstd::prelude::*;

verus! {

/// Width of the demo panel, in pixels.
pub const WIDTH: usize = 500;

/// Height of the demo panel, in pixels.
pub const HEIGHT: usize = 350;

/// Number of pixels of the demo panel.
pub const BUF_LEN: usize = 175000;

/// The index of column `xx` of row `yy` in a buffer with rows of `bw` bytes.
pub open spec fn cell(bw: int, yy: int, xx: int) -> int {
    yy * bw + xx
}

/// Whether byte `i` of a buffer with rows of `bw` bytes is painted by the
/// rectangle of width `w` and height `h` whose top-left pixel is `(x, y)`:
/// some row `yy` in `y..y + h` and column `xx` in `x..x + w` lead to it. A
/// row that runs past `bw` goes on into the next one.
pub open spec fn in_rect(i: int, bw: int, x: int, y: int, w: int, h: int) -> bool {
    exists|yy: int, xx: int| y <= yy < y + h && x <= xx < x + w && i == #[trigger] cell(bw, yy, xx)
}

/// The buffer `b` with the rectangle `(x, y, w, h)` painted in colour `c`.
pub open spec fn filled(b: Seq<u8>, bw: int, x: int, y: int, w: int, h: int, c: u8) -> Seq<u8> {
    Seq::new(b.len(), |i: int| if in_rect(i, bw, x, y, w, h) { c } else { b[i] })
}

/// Painting the same rectangle twice paints it once.
pub proof fn lemma_fill_twice(b: Seq<u8>, bw: int, x: int, y: int, w: int, h: int, c: u8)
    ensures
        filled(filled(b, bw, x, y, w, h, c), bw, x, y, w, h, c) == filled(b, bw, x, y, w, h, c),
{
    assert(filled(filled(b, bw, x, y, w, h, c), bw, x, y, w, h, c) =~= filled(b, bw, x, y, w, h, c));
}

/// Sets every pixel of the rectangle `(x, y, w, h)` to `c`, leaving every
/// other byte as it was.
pub fn fill_rect(buf: &mut [u8], bw: usize, x: usize, y: usize, w: usize, h: usize, c: u8)
    requires
        x + w <= usize::MAX,
        y + h <= usize::MAX,
        w == 0 || h == 0 || (y + h - 1) * bw + x + w <= old(buf)@.len(),
    ensures
        final(buf)@ == filled(old(buf)@, bw as int, x as int, y as int, w as int, h as int, c),
{
    let ghost orig = buf@;
    let ghost (bwi, xi, yi, wi) = (bw as int, x as int, y as int, w as int);
    if w == 0 || h == 0 {
        proof {
            assert(buf@ =~= filled(orig, bwi, xi, yi, wi, h as int, c));
        }
        return;
    }
    let n = buf.len();
    proof {
        assert(buf@ =~= filled(orig, bwi, xi, yi, wi, 0, c));
    }
    let mut yy: usize = y;
    while yy < y + h
        invariant
            bwi == bw && xi == x && yi == y && wi == w,
            x + w <= usize::MAX,
            y + h <= usize::MAX,
            w > 0,
            (y + h - 1) * bw + x + w <= orig.len(),
            n == orig.len(),
            y <= yy <= y + h,
            buf@ == filled(orig, bwi, xi, yi, wi, yy - y, c),
        decreases y + h - yy,
    {
        proof {
            assert(yy * bw <= (y + h - 1) * bw) by (nonlinear_arith)
                requires
                    yy <= y + h - 1,
            ;
        }
        let row = yy * bw;
        let mut xx: usize = x;
        while xx < x + w
            invariant
                bwi == bw && xi == x && yi == y && wi == w,
                x + w <= usize::MAX,
                y <= yy < y + h,
                row == yy * bw,
                row + x + w <= orig.len(),
                n == orig.len(),
                x <= xx <= x + w,
                buf@.len() == orig.len(),
                forall|i: int|
                    0 <= i < orig.len() ==> buf@[i] == if in_rect(i, bwi, xi, yi, wi, yy - y)
                        || in_rect(i, bwi, xi, yy as int, xx - x, 1) {
                        c
                    } else {
                        orig[i]
                    },
            decreases x + w - xx,
        {
            let ghost before = buf@;
            let k = row + xx;
            buf[k] = c;
            proof {
                assert(cell(bwi, yy as int, xx as int) == k);
                assert forall|i: int| 0 <= i < orig.len() implies buf@[i] == if in_rect(
                    i,
                    bwi,
                    xi,
                    yi,
                    wi,
                    yy - y,
                ) || in_rect(i, bwi, xi, yy as int, xx + 1 - x, 1) {
                    c
                } else {
                    orig[i]
                } by {
                    if i == k {
                        assert(in_rect(i, bwi, xi, yy as int, xx + 1 - x, 1));
                    } else {
                        assert(buf@[i] == before[i]);
                        if in_rect(i, bwi, xi, yy as int, xx + 1 - x, 1) {
                            let (r, col) = choose|r: int, col: int|
                                yy <= r < yy + 1 && x <= col < xx + 1 && i == #[trigger] cell(
                                    bwi,
                                    r,
                                    col,
                                );
                            assert(r == yy);
                            assert(col != xx);
                            assert(in_rect(i, bwi, xi, yy as int, xx - x, 1));
                        }
                    }
                }
            }
            xx = xx + 1;
        }
        proof {
            assert forall|i: int| 0 <= i < orig.len() implies buf@[i] == filled(
                orig,
                bwi,
                xi,
                yi,
                wi,
                yy + 1 - y,
                c,
            )[i] by {
                if in_rect(i, bwi, xi, yi, wi, yy + 1 - y) {
                    let (r, col) = choose|r: int, col: int|
                        y <= r < yy + 1 && x <= col < x + w && i == #[trigger] cell(bwi, r, col);
                    if r == yy {
                        assert(in_rect(i, bwi, xi, yy as int, xx - x, 1));
                    } else {
                        assert(in_rect(i, bwi, xi, yi, wi, yy - y));
                    }
                }
                if in_rect(i, bwi, xi, yi, wi, yy - y) {
                    let (r, col) = choose|r: int, col: int|
                        y <= r < yy && x <= col < x + w && i == #[trigger] cell(bwi, r, col);
                    assert(in_rect(i, bwi, xi, yi, wi, yy + 1 - y));
                }
                if in_rect(i, bwi, xi, yy as int, xx - x, 1) {
                    let (r, col) = choose|r: int, col: int|
                        yy <= r < yy + 1 && x <= col < xx && i == #[trigger] cell(bwi, r, col);
                    assert(in_rect(i, bwi, xi, yi, wi, yy + 1 - y));
                }
            }
            assert(buf@ =~= filled(orig, bwi, xi, yi, wi, yy + 1 - y, c));
        }
        yy = yy + 1;
    }
}

/// The colour the demo panel gives byte `i`, whose colour before was
/// `before`: that of the last rectangle painted over it.
pub open spec fn demo_pixel(i: int, before: u8) -> u8 {
    if in_rect(i, 500, 239, 186, 90, 70) {
        6
    } else if in_rect(i, 500, 129, 186, 90, 70) {
        5
    } else if in_rect(i, 500, 294, 96, 90, 70) {
        4
    } else if in_rect(i, 500, 184, 96, 90, 70) {
        3
    } else if in_rect(i, 500, 74, 96, 90, 70) {
        2
    } else if in_rect(i, 500, 459, 50, 1, 240) {
        0
    } else if in_rect(i, 500, 40, 50, 1, 240) {
        15
    } else if in_rect(i, 500, 40, 289, 420, 1) {
        0
    } else if in_rect(i, 500, 40, 50, 420, 14) {
        9
    } else if in_rect(i, 500, 40, 50, 420, 240) {
        15
    } else if in_rect(i, 500, 499, 0, 1, 350) {
        0
    } else if in_rect(i, 500, 0, 0, 1, 350) {
        15
    } else if in_rect(i, 500, 0, 349, 500, 1) {
        0
    } else if in_rect(i, 500, 0, 0, 500, 12) {
        1
    } else if in_rect(i, 500, 0, 0, 500, 350) {
        7
    } else {
        before
    }
}

/// Paints the demo panel: a framed background, a framed window and five
/// coloured blocks.
pub fn draw_demo(buf: &mut [u8])
    requires
        old(buf)@.len() >= BUF_LEN,
    ensures
        final(buf)@.len() == old(buf)@.len(),
        forall|i: int|
            0 <= i < old(buf)@.len() ==> final(buf)@[i] == demo_pixel(i, old(buf)@[i]),
{
    let ghost b0 = buf@;
    // The panel and its frame.
    fill_rect(buf, WIDTH, 0, 0, WIDTH, HEIGHT, 7);
    fill_rect(buf, WIDTH, 0, 0, WIDTH, 12, 1);
    fill_rect(buf, WIDTH, 0, HEIGHT - 1, WIDTH, 1, 0);
    fill_rect(buf, WIDTH, 0, 0, 1, HEIGHT, 15);
    fill_rect(buf, WIDTH, WIDTH - 1, 0, 1, HEIGHT, 0);

    // The window.
    fill_rect(buf, WIDTH, 40, 50, 420, 240, 15);
    fill_rect(buf, WIDTH, 40, 50, 420, 14, 9);
    fill_rect(buf, WIDTH, 40, 289, 420, 1, 0);
    fill_rect(buf, WIDTH, 40, 50, 1, 240, 15);
    fill_rect(buf, WIDTH, 459, 50, 1, 240, 0);

    // Coloured blocks.
    fill_rect(buf, WIDTH, 74, 96, 90, 70, 2);
    fill_rect(buf, WIDTH, 184, 96, 90, 70, 3);
    fill_rect(buf, WIDTH, 294, 96, 90, 70, 4);
    fill_rect(buf, WIDTH, 129, 186, 90, 70, 5);
    fill_rect(buf, WIDTH, 239, 186, 90, 70, 6);
    proof {
        assert forall|i: int| 0 <= i < b0.len() implies buf@[i] == demo_pixel(i, b0[i]) by {
        }
    }
}

} // verus!
