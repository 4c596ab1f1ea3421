//! Aspect-preserving fit maths for the capture-size → encode-size step.
//!
//! The RGBA→NV12 pass samples the whole source across the whole output, so a source and an
//! output with different aspect ratios come out stretched. These helpers decide when that
//! happens and by how much the picture has to shrink to fit inside the frame. Ratios are exact:
//! a fraction of two integers.

use vstd::prelude::*;

verus! {

/// A fraction.
#[derive(Debug, Clone, Copy, PartialEq, Eq, Structural)]
pub struct Ratio {
    /// The numerator.
    pub num: u64,
    /// The denominator, never 0.
    pub den: u64,
}

/// How far two aspect ratios may differ before the picture visibly distorts, as one part in so
/// many: 0.5 %.
///
/// Both dimensions are rounded to even for 4:2:0, which can move a 4K-wide frame's aspect by
/// ~0.03 %. 0.5 % leaves room for that (and for a 1366×768 panel's odd 16:9 approximation)
/// while still catching a 16:10 source in a 16:9 frame, which is 11 % out.
pub const ASPECT_PARTS: u64 = 200;

/// Whether a size has no shape.
pub open spec fn degenerate(w: u32, h: u32) -> bool {
    w == 0 || h == 0
}

/// The aspect ratio of the source, over the common denominator of both ratios.
pub open spec fn source_aspect(src_w: u32, dst_h: u32) -> int {
    src_w * dst_h
}

/// The aspect ratio of the output, over the common denominator of both ratios.
pub open spec fn output_aspect(src_h: u32, dst_w: u32) -> int {
    dst_w * src_h
}

/// The distance of two numbers.
pub open spec fn apart(a: int, b: int) -> int {
    if a >= b {
        a - b
    } else {
        b - a
    }
}

/// Whether `src` and `dst` are close enough in shape that scaling one onto the other is
/// indistinguishable from a proper fit — in which case the letterbox pass can be skipped
/// entirely and the frame goes down the plain single-pass path.
///
/// A degenerate dimension reports `true`: there is nothing sensible to letterbox, and the caller's
/// plain path already handles it.
pub fn aspect_matches(src_w: u32, src_h: u32, dst_w: u32, dst_h: u32) -> (r: bool)
    ensures
        r == (degenerate(src_w, src_h) || degenerate(dst_w, dst_h) || apart(
            source_aspect(src_w, dst_h),
            output_aspect(src_h, dst_w),
        ) * ASPECT_PARTS <= output_aspect(src_h, dst_w)),
{
    if src_w == 0 || src_h == 0 || dst_w == 0 || dst_h == 0 {
        return true;
    }
    proof {
        lemma_product(src_w, dst_h);
        lemma_product(dst_w, src_h);
    }
    let src: u128 = src_w as u128 * dst_h as u128;
    let dst: u128 = dst_w as u128 * src_h as u128;
    let gap: u128 = if src >= dst {
        src - dst
    } else {
        dst - src
    };
    proof {
        assert(gap * ASPECT_PARTS <= 0xffff_ffff * 0xffff_ffff * 200) by (nonlinear_arith)
            requires
                gap <= 0xffff_ffff * 0xffff_ffff,
                ASPECT_PARTS == 200,
        ;
    }
    gap * ASPECT_PARTS as u128 <= dst
}

/// The `(x, y)` factors that shrink a fullscreen quad so `src` fits *inside* `dst` with its
/// aspect ratio intact — the "contain" fit, never a crop. One factor is the whole; the other
/// is the fraction of the frame the picture occupies, leaving equal bars on the short axis. A
/// degenerate size leaves the quad as it is.
pub fn contain_scale(src_w: u32, src_h: u32, dst_w: u32, dst_h: u32) -> (r: [Ratio; 2])
    ensures
        ({
            let src = source_aspect(src_w, dst_h);
            let dst = output_aspect(src_h, dst_w);
            let whole = Ratio { num: 1, den: 1 };
            if degenerate(src_w, src_h) || degenerate(dst_w, dst_h) {
                r[0] == whole && r[1] == whole
            } else if src > dst {
                r[0] == whole && r[1] == (Ratio { num: dst as u64, den: src as u64 })
            } else {
                r[0] == (Ratio { num: src as u64, den: dst as u64 }) && r[1] == whole
            }
        }),
{
    let whole = Ratio { num: 1, den: 1 };
    if src_w == 0 || src_h == 0 || dst_w == 0 || dst_h == 0 {
        return [whole, whole];
    }
    proof {
        lemma_product(src_w, dst_h);
        lemma_product(dst_w, src_h);
    }
    let src: u64 = src_w as u64 * dst_h as u64;
    let dst: u64 = dst_w as u64 * src_h as u64;
    if src > dst {
        // Source is wider: it spans the full width, bars go top and bottom.
        [whole, Ratio { num: dst, den: src }]
    } else {
        // Source is taller (or equal): it spans the full height, bars go left and right.
        [Ratio { num: src, den: dst }, whole]
    }
}

proof fn lemma_product(a: u32, b: u32)
    ensures
        0 <= a * b <= 0xffff_ffff * 0xffff_ffff,
        a > 0 && b > 0 ==> a * b > 0,
{
    assert(0 <= a * b <= 0xffff_ffff * 0xffff_ffff) by (nonlinear_arith)
        requires
            0 <= a <= 0xffff_ffff,
            0 <= b <= 0xffff_ffff,
    ;
    if a > 0 && b > 0 {
        assert(a * b > 0) by (nonlinear_arith)
            requires
                a > 0,
                b > 0,
        ;
    }
}

/// The fit never crops and never collapses: each factor is more than nothing and at most the
/// whole, and the shape of what it leaves is the source's shape.
pub proof fn law_fit_never_crops(src_w: u32, src_h: u32, dst_w: u32, dst_h: u32, r: [Ratio; 2])
    requires
        call_ensures(contain_scale, (src_w, src_h, dst_w, dst_h), r),
    ensures
        0 < r[0].num <= r[0].den,
        0 < r[1].num <= r[1].den,
        r[0].num == r[0].den || r[1].num == r[1].den,
        src_w > 0 && src_h > 0 && dst_w > 0 && dst_h > 0 ==> r[0].num * r[1].den * (dst_w * src_h)
            == r[1].num * r[0].den * (src_w * dst_h),
{
    lemma_product(src_w, dst_h);
    lemma_product(dst_w, src_h);
    let src = source_aspect(src_w, dst_h);
    let dst = output_aspect(src_h, dst_w);
    if !degenerate(src_w, src_h) && !degenerate(dst_w, dst_h) {
        let (a, b, c, d) = (
            r[0].num as int,
            r[1].den as int,
            r[1].num as int,
            r[0].den as int,
        );
        if src > dst {
            assert(a * b * dst == c * d * src) by (nonlinear_arith)
                requires
                    a == 1,
                    d == 1,
                    b == src,
                    c == dst,
            ;
        } else {
            assert(a * b * dst == c * d * src) by (nonlinear_arith)
                requires
                    b == 1,
                    c == 1,
                    a == src,
                    d == dst,
            ;
        }
    }
}

/// Same shapes need no letterbox, whatever the scale.
pub proof fn law_same_shape_matches(w: u32, h: u32, k: u32)
    requires
        k >= 1,
        w * k <= u32::MAX,
        h * k <= u32::MAX,
    ensures
        apart(source_aspect(w, (h * k) as u32), output_aspect(h, (w * k) as u32)) * ASPECT_PARTS
            <= output_aspect(h, (w * k) as u32),
{
    assert(0 <= w * k && 0 <= h * k) by (nonlinear_arith)
        requires
            0 <= w,
            0 <= h,
            0 <= k,
    ;
    assert(w * (h * k) == (w * k) * h) by (nonlinear_arith);
    assert((w * k) * h >= 0) by (nonlinear_arith)
        requires
            w * k >= 0,
            h >= 0,
    ;
}

/// Shapes match exactly where they differ by no more than half a percent, whichever is wider: the
/// picture is letterboxed everywhere else.
pub proof fn law_mismatch_is_letterboxed(src_w: u32, src_h: u32, dst_w: u32, dst_h: u32, r: bool)
    requires
        call_ensures(aspect_matches, (src_w, src_h, dst_w, dst_h), r),
        src_w > 0 && src_h > 0 && dst_w > 0 && dst_h > 0,
    ensures
        r <==> 199 * (dst_w * src_h) <= 200 * (src_w * dst_h) <= 201 * (dst_w * src_h),
{
}

} // verus!
