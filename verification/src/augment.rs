use vstd::prelude::*;

verus! {

/// Row `y`, column `x` lies in the `cut_h x cut_w` rectangle whose top left
/// corner is row `oy`, column `ox`.
pub open spec fn in_cut(y: int, x: int, cut_h: int, cut_w: int, oy: int, ox: int) -> bool {
    oy <= y < oy + cut_h && ox <= x < ox + cut_w
}

/// The image `img`, stored row after row with rows of width `w`, with the
/// rectangle cleared to zero.
pub open spec fn cut_image(img: Seq<u8>, w: int, cut_h: int, cut_w: int, oy: int, ox: int) -> Seq<u8> {
    Seq::new(img.len(), |p: int| if in_cut(p / w, p % w, cut_h, cut_w, oy, ox) { 0u8 } else { img[p] })
}

proof fn lemma_coords(p: int, w: int)
    requires
        0 <= p,
        0 < w,
    ensures
        p == (p / w) * w + p % w,
        0 <= p % w < w,
        0 <= p / w,
{
    vstd::arithmetic::div_mod::lemma_fundamental_div_mod(p, w);
    assert((p / w) * w == w * (p / w)) by (nonlinear_arith);
    assert(0 <= p / w) by (nonlinear_arith)
        requires
            0 <= p,
            0 < w,
    ;
}

/// The pixel at row `y`, column `x` of an image stored row after row with
/// rows of width `w`.
pub open spec fn pixel_at(img: Seq<u8>, w: int, y: int, x: int) -> u8 {
    img[y * w + x]
}

/// A cut image has the size of the image; at row `y`, column `x` it is 0
/// inside the `cut_h x cut_w` rectangle whose top left corner is row `oy`,
/// column `ox`, and the image's own pixel everywhere else.
pub proof fn lemma_cut_image_pixels(img: Seq<u8>, h: int, w: int, cut_h: int, cut_w: int, oy: int, ox: int)
    requires
        0 < w,
        0 <= h,
        img.len() == h * w,
    ensures
        cut_image(img, w, cut_h, cut_w, oy, ox).len() == img.len(),
        forall|y: int, x: int|
            0 <= y < h && 0 <= x < w ==> #[trigger] pixel_at(cut_image(img, w, cut_h, cut_w, oy, ox), w, y, x)
                == if oy <= y < oy + cut_h && ox <= x < ox + cut_w {
                0u8
            } else {
                pixel_at(img, w, y, x)
            },
{
    assert forall|y: int, x: int| 0 <= y < h && 0 <= x < w implies #[trigger] pixel_at(
        cut_image(img, w, cut_h, cut_w, oy, ox),
        w,
        y,
        x,
    ) == if oy <= y < oy + cut_h && ox <= x < ox + cut_w {
        0u8
    } else {
        pixel_at(img, w, y, x)
    } by {
        let p = y * w + x;
        vstd::arithmetic::div_mod::lemma_fundamental_div_mod_converse(p, w, y, x);
        assert(y * w + x < h * w) by (nonlinear_arith)
            requires
                0 <= y < h,
                0 <= x < w,
        ;
        assert(0 <= y * w) by (nonlinear_arith)
            requires
                0 <= y,
                0 < w,
        ;
    }
}

/// Clears the `cut_h x cut_w` rectangle at row `off_y`, column `off_x` of
/// an `img_h x img_w` image.
pub fn cutout(img: &mut Vec<u8>, img_h: usize, img_w: usize, cut_h: usize, cut_w: usize, off_y: usize, off_x: usize)
    requires
        old(img)@.len() == img_h * img_w,
        off_y + cut_h <= img_h,
        off_x + cut_w <= img_w,
    ensures
        final(img)@ == cut_image(old(img)@, img_w as int, cut_h as int, cut_w as int, off_y as int, off_x as int),
        final(img)@.len() == old(img)@.len(),
        forall|y: int, x: int|
            0 <= y < img_h && 0 <= x < img_w ==> #[trigger] pixel_at(final(img)@, img_w as int, y, x)
                == if off_y <= y < off_y + cut_h && off_x <= x < off_x + cut_w {
                0u8
            } else {
                pixel_at(old(img)@, img_w as int, y, x)
            },
{
    proof {
        if img_w > 0 {
            lemma_cut_image_pixels(
                old(img)@,
                img_h as int,
                img_w as int,
                cut_h as int,
                cut_w as int,
                off_y as int,
                off_x as int,
            );
        }
    }
    let ghost orig = img@;
    let ghost len = orig.len() as int;
    let ghost w = img_w as int;
    let n = img.len();
    let mut y = off_y;
    while y < off_y + cut_h
        invariant
            off_y <= y <= off_y + cut_h,
            off_y + cut_h <= img_h,
            off_x + cut_w <= img_w,
            img@.len() == len,
            n == len,
            len == img_h * img_w,
            w == img_w,
            forall|p: int|
                #![trigger img@[p]]
                0 <= p < len ==> img@[p] == if in_cut(p / w, p % w, cut_h as int, cut_w as int, off_y as int, off_x as int) && p / w < y {
                    0u8
                } else {
                    orig[p]
                },
        decreases off_y + cut_h - y,
    {
        let mut x: usize = 0;
        assert(y * img_w + img_w <= img_h * img_w) by (nonlinear_arith)
            requires
                y < img_h,
        ;
        while x < cut_w
            invariant
                off_y <= y < off_y + cut_h,
                off_y + cut_h <= img_h,
                off_x + cut_w <= img_w,
                x <= cut_w,
                y * img_w + img_w <= img_h * img_w,
                img@.len() == len,
                n == len,
                len == img_h * img_w,
                w == img_w,
                forall|p: int|
                    #![trigger img@[p]]
                    0 <= p < len ==> img@[p] == if in_cut(p / w, p % w, cut_h as int, cut_w as int, off_y as int, off_x as int) && (p / w < y || (p / w == y
                        && p % w < off_x + x)) {
                        0u8
                    } else {
                        orig[p]
                    },
            decreases cut_w - x,
        {
            let q = y * img_w + off_x + x;
            proof {
                vstd::arithmetic::div_mod::lemma_fundamental_div_mod_converse(
                    q as int,
                    w,
                    y as int,
                    (off_x + x) as int,
                );
            }
            let ghost before = img@;
            img.set(q, 0);
            proof {
                assert forall|p: int|
                    #![trigger img@[p]]
                    0 <= p < len implies img@[p] == if in_cut(p / w, p % w, cut_h as int, cut_w as int, off_y as int, off_x as int) && (p / w < y || (p
                        / w == y && p % w < off_x + x + 1)) {
                        0u8
                    } else {
                        orig[p]
                    } by {
                    if p != q {
                        lemma_coords(p, w);
                        assert(before[p] == img@[p]);
                        if p / w == y && p % w == off_x + x {
                            assert(p == q);
                        }
                    }
                }
            }
            x += 1;
        }
        proof {
            assert forall|p: int|
                #![trigger img@[p]]
                0 <= p < len implies img@[p] == if in_cut(p / w, p % w, cut_h as int, cut_w as int, off_y as int, off_x as int) && p / w < y + 1 {
                    0u8
                } else {
                    orig[p]
                } by {
                assert(img@[p] == img@[p]);
                if p / w == y && in_cut(p / w, p % w, cut_h as int, cut_w as int, off_y as int, off_x as int) {
                    assert(p % w < off_x + cut_w);
                }
            }
        }
        y += 1;
    }
    assert(img@ =~= cut_image(orig, img_w as int, cut_h as int, cut_w as int, off_y as int, off_x as int)) by {
        assert forall|p: int| 0 <= p < len implies #[trigger] img@[p] == cut_image(orig, img_w as int, cut_h as int, cut_w as int, off_y as int, off_x as int)[p] by {
            assert(img@[p] == img@[p]);
        }
    }
}

} // verus!
