//! How the stored `[video] width`/`height`/`match_display` turn into the encoder's dimensions.
//!
//! The recorder cannot know the output size from the config alone: the whole point of
//! "match display" is that the answer depends on the monitor the user actually shares. So the
//! config stores an *intent* — [`ResolutionMode`] — and the recorder resolves it against the
//! captured source once it knows the display geometry. Everything here is pure arithmetic.

use vstd::prelude::*;

verus! {

/// Ceiling on an auto-derived frame, as a pixel count: 3840×2160. Matching an 8K panel 1:1 would
/// blow past every consumer encoder's limits (and any sane bitrate), so "match display" tops out
/// around 4K.
///
/// A budget rather than a line count, because displays are not all 16:9. Area is what actually
/// costs encoder time and bitrate.
pub const MAX_AUTO_PIXELS: u64 = 3840 * 2160;

/// Smallest encodable dimension: one 16x16 H.264 macroblock.
pub const MIN_DIM: u32 = 16;

/// Largest dimension we will ask an encoder for (8K wide).
pub const MAX_DIM: u32 = 7680;

/// The tallest frame of the 16:9 shape within [`MAX_AUTO_PIXELS`], for a source whose own shape
/// is not known.
pub const MAX_FALLBACK_LINES: u32 = 2160;

/// Used when no display could be detected: a headless/undetectable run still targets the
/// 1080p reference.
pub const FALLBACK_DIMS: (u32, u32) = (1920, 1080);

/// What the stored settings mean, resolved against the captured display by [`Self::resolve`].
#[derive(Debug, Clone, Copy, PartialEq, Eq, Structural)]
pub enum ResolutionMode {
    /// Record the display at its native size, scaled down only if it exceeds [`MAX_AUTO_PIXELS`].
    MatchDisplay,
    /// Record at this many lines, taking the width from the display's aspect ratio. Never
    /// upscales: a 1080-line display asked for 1440 stays at 1080.
    Height(u32),
    /// Record at exactly these dimensions. The record path letterboxes when the source aspect
    /// differs, so a pinned size is honoured without distorting the picture.
    Fixed {
        /// Width in pixels.
        width: u32,
        /// Height in pixels.
        height: u32,
    },
}

/// A dimension that encoders accept: between the limits, rounded down to even for 4:2:0 chroma
/// subsampling.
pub open spec fn encodable(v: nat) -> nat {
    let within = if v < MIN_DIM {
        MIN_DIM as nat
    } else if v > MAX_DIM {
        MAX_DIM as nat
    } else {
        v
    };
    (within - within % 2) as nat
}

/// The width that preserves `src_w`:`src_h` at `height`, to the nearest pixel; of a degenerate
/// source that of 16:9.
pub open spec fn aspect_width(src_w: u32, src_h: u32, height: u32) -> nat {
    if src_w == 0 || src_h == 0 {
        (1920 * height as nat + 540) / 1080
    } else {
        (src_w as nat * height as nat + src_h as nat / 2) / src_h as nat
    }
}

/// The integer square root: the largest number whose square is at most `n`.
pub open spec fn is_root(r: nat, n: nat) -> bool {
    r * r <= n < (r + 1) * (r + 1)
}

/// The source at `height` lines, in encodable dimensions.
pub open spec fn scaled(src_w: u32, src_h: u32, height: u32) -> (nat, nat) {
    (encodable(aspect_width(src_w, src_h, height)), encodable(height as nat))
}

/// Dimensions within the pixel budget: a frame that rounding its width up has carried past the
/// budget loses the next even number of columns.
pub open spec fn within_budget(dims: (nat, nat)) -> (nat, nat) {
    if dims.0 * dims.1 > MAX_AUTO_PIXELS {
        ((dims.0 - 2) as nat, dims.1)
    } else {
        dims
    }
}

/// Whether `height` is the tallest a source may be recorded at: its own height where it fits
/// the budget, else the root of budget · height / width. A source without a width is taken to
/// be 16:9.
pub open spec fn is_budgeted(src_w: u32, src_h: u32, height: u32) -> bool {
    if src_w == 0 {
        height == at_most_lines(src_h, MAX_FALLBACK_LINES)
    } else if src_w * src_h <= MAX_AUTO_PIXELS {
        height == src_h
    } else {
        is_root(height as nat, MAX_AUTO_PIXELS as nat * src_h as nat / src_w as nat)
    }
}

/// The source that a mode is resolved against.
pub open spec fn source_or_fallback(source: Option<(u32, u32)>) -> (u32, u32) {
    match source {
        Some(dims) => dims,
        None => FALLBACK_DIMS,
    }
}

/// Whether `out` is the display at the tallest height within the budget.
pub open spec fn matches_display(w: u32, h: u32, out: (u32, u32)) -> bool {
    exists|lines: u32| #[trigger]
        is_budgeted(w, h, lines) && (out.0 as nat, out.1 as nat) == within_budget(
            scaled(w, h, lines),
        )
}

/// The lesser of two heights.
pub open spec fn at_most_lines(lines: u32, limit: u32) -> u32 {
    if lines <= limit {
        lines
    } else {
        limit
    }
}

/// Whether `out` are the dimensions to encode at.
pub open spec fn resolves(mode: ResolutionMode, source: Option<(u32, u32)>, out: (u32, u32)) -> bool {
    let (w, h) = source_or_fallback(source);
    match mode {
        ResolutionMode::Fixed { width, height } => out.0 == encodable(width as nat) && out.1
            == encodable(height as nat),
        ResolutionMode::MatchDisplay => matches_display(w, h, out),
        ResolutionMode::Height(lines) => (out.0 as nat, out.1 as nat) == scaled(
            w,
            h,
            at_most_lines(lines, h),
        ),
    }
}

impl ResolutionMode {
    /// Read the mode out of the stored `[video]` values.
    ///
    /// `width`/`height` of `0` mean "auto" — a fresh config ships `0`/`0`, which is
    /// [`MatchDisplay`](Self::MatchDisplay). A pin needs both dimensions, so `match_display =
    /// false` with a zero in either falls back to the auto reading rather than inventing one.
    pub fn from_stored(match_display: bool, width: u32, height: u32) -> (r: Self)
        ensures
            r == if !match_display && width > 0 && height > 0 {
                ResolutionMode::Fixed { width, height }
            } else if height == 0 {
                ResolutionMode::MatchDisplay
            } else {
                ResolutionMode::Height(height)
            },
    {
        if !match_display && width > 0 && height > 0 {
            return ResolutionMode::Fixed { width, height };
        }
        if height == 0 {
            ResolutionMode::MatchDisplay
        } else {
            ResolutionMode::Height(height)
        }
    }

    /// The dimensions to encode at, given the captured source's size (`None` when the display
    /// could not be detected).
    pub fn resolve(self, source: Option<(u32, u32)>) -> (out: (u32, u32))
        ensures
            resolves(self, source, out),
            self is MatchDisplay ==> out.0 * out.1 <= MAX_AUTO_PIXELS,
    {
        let (src_w, src_h) = match source {
            Some(dims) => dims,
            None => FALLBACK_DIMS,
        };
        match self {
            ResolutionMode::Fixed { width, height } => sanitize_dims(width, height),
            ResolutionMode::MatchDisplay => {
                let lines: u32 = budgeted_height(src_w, src_h);
                let (width, height) = scale_to_height(src_w, src_h, lines);
                proof {
                    lemma_within_budget(src_w, src_h, lines);
                }
                // Rounding the width to the nearest pixel can add up to half a pixel per line.
                let out = if width as u64 * height as u64 > MAX_AUTO_PIXELS {
                    (width - 2, height)
                } else {
                    (width, height)
                };
                proof {
                    assert(matches_display(src_w, src_h, out));
                }
                out
            },
            ResolutionMode::Height(h) => {
                let lines: u32 = if h <= src_h {
                    h
                } else {
                    src_h
                };
                scale_to_height(src_w, src_h, lines)
            },
        }
    }

    /// The height this mode targets, for a UI that wants to preselect a quality preset.
    /// `None` for [`MatchDisplay`](Self::MatchDisplay), which has no fixed height.
    pub fn height(self) -> (r: Option<u32>)
        ensures
            r == match self {
                ResolutionMode::MatchDisplay => None,
                ResolutionMode::Height(h) => Some(h),
                ResolutionMode::Fixed { height, .. } => Some(height),
            },
    {
        match self {
            ResolutionMode::MatchDisplay => None,
            ResolutionMode::Height(h) => Some(h),
            ResolutionMode::Fixed { height, .. } => Some(height),
        }
    }
}

/// The integer square root of `n`.
fn isqrt(n: u64) -> (r: u64)
    ensures
        is_root(r as nat, n as nat),
        r < 0x1_0000_0000,
{
    let mut low: u64 = 0;
    let mut high: u64 = 0x1_0000_0000;
    while high - low > 1
        invariant
            low < high <= 0x1_0000_0000,
            low * low <= n,
            n < high * high,
        decreases high - low,
    {
        let mid: u64 = low + (high - low) / 2;
        proof {
            assert(mid * mid <= 0xffff_ffff * 0xffff_ffff) by (nonlinear_arith)
                requires
                    mid <= 0xffff_ffff,
            ;
        }
        if mid * mid <= n {
            low = mid;
        } else {
            high = mid;
        }
    }
    low
}

/// The tallest the source may be recorded at within [`MAX_AUTO_PIXELS`] — its own height when it
/// already fits, which is the common case.
fn budgeted_height(src_w: u32, src_h: u32) -> (height: u32)
    ensures
        is_budgeted(src_w, src_h, height),
{
    let w: u64 = src_w as u64;
    let h: u64 = src_h as u64;
    proof {
        assert(w * h <= 0xffff_ffff * 0xffff_ffff) by (nonlinear_arith)
            requires
                w <= 0xffff_ffff,
                h <= 0xffff_ffff,
        ;
    }
    if w == 0 {
        return if src_h <= MAX_FALLBACK_LINES {
            src_h
        } else {
            MAX_FALLBACK_LINES
        };
    }
    if w * h <= MAX_AUTO_PIXELS {
        return src_h;
    }
    // Holding the aspect ratio, area = h² · (w/h), so the tallest frame within the budget is
    // sqrt(budget · h / w). Integer sqrt floors, keeping the exact width inside the budget.
    isqrt(MAX_AUTO_PIXELS * h / w) as u32
}

/// `src_w`×`src_h` scaled to `height` lines, both dimensions rounded to encodable values.
pub fn scale_to_height(src_w: u32, src_h: u32, height: u32) -> (out: (u32, u32))
    ensures
        (out.0 as nat, out.1 as nat) == scaled(src_w, src_h, height),
{
    (fit_width(src_w, src_h, height), clamp_even(height))
}

/// The width that preserves `src_w`:`src_h` at `height`, rounded to an encodable value.
///
/// A degenerate source (either dimension zero) falls back to 16:9, so a failed detection still
/// produces a sane frame instead of a 16-pixel sliver.
pub fn fit_width(src_w: u32, src_h: u32, height: u32) -> (width: u32)
    ensures
        width == encodable(aspect_width(src_w, src_h, height)),
{
    let (w, h) = if src_w == 0 || src_h == 0 {
        FALLBACK_DIMS
    } else {
        (src_w, src_h)
    };
    proof {
        assert(w as u64 * height as u64 <= 0xffff_ffff * 0xffff_ffff) by (nonlinear_arith)
            requires
                w <= 0xffff_ffff,
                height <= 0xffff_ffff,
        ;
    }
    // Round to nearest before the even mask so the aspect error stays under half a pixel.
    let nearest: u64 = (w as u64 * height as u64 + h as u64 / 2) / h as u64;
    if nearest <= u32::MAX as u64 {
        clamp_even(nearest as u32)
    } else {
        clamp_even(MAX_DIM)
    }
}

/// Clamp both dimensions to what the encoders accept: `[MIN_DIM, MAX_DIM]`, rounded down to even
/// for 4:2:0 chroma subsampling. The single place that rule lives.
pub fn sanitize_dims(width: u32, height: u32) -> (out: (u32, u32))
    ensures
        out.0 == encodable(width as nat),
        out.1 == encodable(height as nat),
{
    (clamp_even(width), clamp_even(height))
}

fn clamp_even(v: u32) -> (r: u32)
    ensures
        r == encodable(v as nat),
{
    let within: u32 = if v < MIN_DIM {
        MIN_DIM
    } else if v > MAX_DIM {
        MAX_DIM
    } else {
        v
    };
    within - within % 2
}

/// Whatever is stored and whatever the display is, the dimensions are even and within the
/// limits of the encoders.
pub proof fn law_resolution_is_encodable(
    mode: ResolutionMode,
    source: Option<(u32, u32)>,
    out: (u32, u32),
)
    requires
        resolves(mode, source, out),
    ensures
        out.0 % 2 == 0 && MIN_DIM <= out.0 <= MAX_DIM,
        out.1 % 2 == 0 && MIN_DIM <= out.1 <= MAX_DIM,
{
    if mode is MatchDisplay {
        let (w, h) = source_or_fallback(source);
        let lines = choose|lines: u32| #[trigger]
            is_budgeted(w, h, lines) && (out.0 as nat, out.1 as nat) == within_budget(
                scaled(w, h, lines),
            );
        lemma_within_budget(w, h, lines);
    }
}

/// Sanitising dimensions that were sanitised changes nothing.
pub proof fn law_sanitize_is_idempotent(v: nat)
    ensures
        encodable(encodable(v)) == encodable(v),
{
}

/// A quality height never upscales: no more lines than the display has, unless the display has
/// fewer than an encoder takes.
pub proof fn law_quality_height_never_upscales(
    lines: u32,
    source: Option<(u32, u32)>,
    out: (u32, u32),
)
    requires
        resolves(ResolutionMode::Height(lines), source, out),
    ensures
        out.1 <= source_or_fallback(source).1 || out.1 == MIN_DIM,
{
}

/// A display of encodable dimensions within the pixel budget is recorded at its native size.
pub proof fn law_match_display_is_native(source: (u32, u32), out: (u32, u32))
    requires
        resolves(ResolutionMode::MatchDisplay, Some(source), out),
        encodable(source.0 as nat) == source.0,
        encodable(source.1 as nat) == source.1,
        source.0 * source.1 <= MAX_AUTO_PIXELS,
    ensures
        out == source,
{
    let (w, h) = source;
    assert((w as nat * h as nat + h as nat / 2) / h as nat == w) by (nonlinear_arith)
        requires
            h >= 16,
            0 <= h as nat / 2 < h,
    ;
}

/// Whatever the shape of the display, it is recorded within the pixel budget.
pub proof fn law_match_display_keeps_budget(source: Option<(u32, u32)>, out: (u32, u32))
    requires
        resolves(ResolutionMode::MatchDisplay, source, out),
    ensures
        out.0 * out.1 <= MAX_AUTO_PIXELS,
{
    let (w, h) = source_or_fallback(source);
    let lines = choose|lines: u32| #[trigger]
        is_budgeted(w, h, lines) && (out.0 as nat, out.1 as nat) == within_budget(
            scaled(w, h, lines),
        );
    lemma_within_budget(w, h, lines);
}

/// At a budgeted height, what [`within_budget`] leaves of the scaled dimensions is encodable and
/// within the budget.
proof fn lemma_within_budget(src_w: u32, src_h: u32, lines: u32)
    requires
        is_budgeted(src_w, src_h, lines),
    ensures
        ({
            let (a, b) = scaled(src_w, src_h, lines);
            let (c, d) = within_budget((a, b));
            &&& c * d <= MAX_AUTO_PIXELS
            &&& a * b <= 7680 * 7680
            &&& 16 <= c <= a
            &&& c % 2 == 0
        }),
{
    let n = lines as nat;
    let width = aspect_width(src_w, src_h, lines);
    let (w, h) = if src_w == 0 || src_h == 0 {
        (1920nat, 1080nat)
    } else {
        (src_w as nat, src_h as nat)
    };
    // n² · w ≤ budget · h
    assert(n * n * w <= MAX_AUTO_PIXELS * h) by {
        if src_w == 0 || src_h == 0 {
            assert(n * n <= 2160 * 2160) by (nonlinear_arith)
                requires
                    n <= 2160,
            ;
        } else if src_w * src_h <= MAX_AUTO_PIXELS {
            assert(n * n * w <= MAX_AUTO_PIXELS * h) by (nonlinear_arith)
                requires
                    n == h,
                    w * h <= MAX_AUTO_PIXELS,
            ;
        } else {
            let q = MAX_AUTO_PIXELS as nat * h / w;
            vstd::arithmetic::div_mod::lemma_fundamental_div_mod(
                (MAX_AUTO_PIXELS * h) as int,
                w as int,
            );
            assert(n * n * w <= MAX_AUTO_PIXELS * h) by (nonlinear_arith)
                requires
                    n * n <= q,
                    MAX_AUTO_PIXELS * h == w * q + (MAX_AUTO_PIXELS * h) % (w as int),
                    (MAX_AUTO_PIXELS * h) % (w as int) >= 0,
            ;
        }
    }
    let top = (w * n + h / 2) as int;
    vstd::arithmetic::div_mod::lemma_fundamental_div_mod(top, h as int);
    // 2 · width · n ≤ 2 · budget + n
    assert(2 * width * n <= 2 * MAX_AUTO_PIXELS + n) by (nonlinear_arith)
        requires
            top == h * width + top % (h as int),
            top % (h as int) >= 0,
            top == w * n + h / 2,
            2 * (h / 2) <= h,
            n * n * w <= MAX_AUTO_PIXELS * h,
            h > 0,
    ;
    lemma_encodable_area(width, n);
}

/// An area that passes the budget by half a pixel per line is within it two columns narrower.
proof fn lemma_encodable_area(width: nat, lines: nat)
    requires
        2 * width * lines <= 2 * MAX_AUTO_PIXELS + lines,
    ensures
        ({
            let (a, b) = (encodable(width), encodable(lines));
            let (c, d) = within_budget((a, b));
            &&& c * d <= MAX_AUTO_PIXELS
            &&& a * b <= 7680 * 7680
            &&& 16 <= c <= a
            &&& c % 2 == 0
        }),
{
    let a = encodable(width);
    let b = encodable(lines);
    assert(a * b <= 7680 * 7680) by (nonlinear_arith)
        requires
            a <= 7680,
            b <= 7680,
    ;
    if a <= 16 || b <= 16 {
        assert(a * b <= 16 * 7680) by (nonlinear_arith)
            requires
                a <= 7680,
                b <= 7680,
                a <= 16 || b <= 16,
        ;
    } else {
        assert((a - 2) * b <= MAX_AUTO_PIXELS) by (nonlinear_arith)
            requires
                2 * width * lines <= 2 * MAX_AUTO_PIXELS + lines,
                a <= width,
                b <= lines,
                a > 16,
                b > 16,
        ;
    }
}

/// A dimension that an encoder takes is left as it is, an odd one loses a pixel, and one beyond the
/// limits becomes the limit.
pub proof fn law_encodable_dimension_is_kept(v: nat)
    ensures
        16 <= v <= 7680 && v % 2 == 0 ==> encodable(v) == v,
        16 <= v <= 7680 && v % 2 == 1 ==> encodable(v) + 1 == v,
        v < 16 ==> encodable(v) == 16,
        v > 7680 ==> encodable(v) == 7680,
{
}

/// The shape of the source is kept: at any height, the width is the nearest whole one to what the
/// source's shape asks for.
pub proof fn law_width_keeps_the_shape(src_w: u32, src_h: u32, height: u32)
    requires
        src_w > 0,
        src_h > 0,
    ensures
        -(src_h as int) <= 2 * (aspect_width(src_w, src_h, height) * src_h - src_w * height)
            <= src_h,
{
    let top = src_w * height + src_h as int / 2;
    let width = aspect_width(src_w, src_h, height) as int;
    vstd::arithmetic::div_mod::lemma_fundamental_div_mod(top, src_h as int);
    assert(-(src_h as int) <= 2 * (width * src_h - src_w * height) <= src_h) by (nonlinear_arith)
        requires
            top == src_h * width + top % (src_h as int),
            0 <= top % (src_h as int) < src_h,
            top == src_w * height + src_h as int / 2,
            src_h - 1 <= 2 * (src_h as int / 2) <= src_h,
    ;
}

/// What is stored is what is recorded: a pinned size that encoders take is recorded as it is,
/// whatever the display; a quality height that the display has is recorded with that many lines;
/// and a display that fits the budget is recorded at its own size.
pub proof fn law_stored_size_is_recorded(
    mode: ResolutionMode,
    source: Option<(u32, u32)>,
    out: (u32, u32),
)
    requires
        resolves(mode, source, out),
    ensures
        mode matches ResolutionMode::Fixed { width, height } && 16 <= width <= 7680 && width % 2
            == 0 && 16 <= height <= 7680 && height % 2 == 0 ==> out == (
            mode->Fixed_width,
            mode->Fixed_height,
        ),
        mode matches ResolutionMode::Height(lines) && 16 <= lines <= 7680 && lines % 2 == 0 && (
        source matches Some((_, h)) && lines <= h) ==> out.1 == mode->Height_0,
        mode is MatchDisplay && (source matches Some((w, h)) && 16 <= w <= 7680 && w % 2 == 0 && 16
            <= h <= 7680 && h % 2 == 0 && w * h <= 3840 * 2160) ==> Some(out) == source,
{
    if mode is MatchDisplay && (source matches Some((w, h)) && 16 <= w <= 7680 && w % 2 == 0 && 16
        <= h <= 7680 && h % 2 == 0 && w * h <= 3840 * 2160) {
        law_match_display_is_native(source->0, out);
    }
}

/// A quality height keeps the display's shape: as far as an encoder's even widths within its limits
/// allow, the width is to the lines as the display's width is to its height.
pub proof fn law_quality_height_keeps_the_shape(lines: u32, source: (u32, u32), out: (u32, u32))
    requires
        resolves(ResolutionMode::Height(lines), Some(source), out),
        source.0 > 0,
        0 < lines <= source.1,
        16 < out.0 < 7680,
    ensures
        -(source.1 as int) <= 2 * (out.0 * source.1 - source.0 * lines) + 2 * source.1,
        2 * (out.0 * source.1 - source.0 * lines) <= source.1,
{
    law_width_keeps_the_shape(source.0, source.1, lines);
    let exact = aspect_width(source.0, source.1, lines) as int;
    let h = source.1 as int;
    let w = out.0 as int;
    assert(exact - 1 <= w <= exact);
    assert(w * h <= exact * h && (exact - 1) * h <= w * h && (exact - 1) * h == exact * h - h)
        by (nonlinear_arith)
        requires
            exact - 1 <= w <= exact,
            h >= 0,
    ;
}

/// A display beyond the pixel budget is recorded as large as the budget allows: two lines more,
/// at its own shape, would be beyond it.
pub proof fn law_match_display_uses_the_budget(source: (u32, u32), out: (u32, u32))
    requires
        resolves(ResolutionMode::MatchDisplay, Some(source), out),
        source.0 * source.1 > MAX_AUTO_PIXELS,
        out.1 < 7680,
    ensures
        (out.1 + 2) * (out.1 + 2) * source.0 > 3840 * 2160 * source.1,
{
    let (w, h) = source;
    let lines = choose|lines: u32| #[trigger]
        is_budgeted(w, h, lines) && (out.0 as nat, out.1 as nat) == within_budget(
            scaled(w, h, lines),
        );
    assert(w > 0) by {
        if w == 0 {
            assert(w * h == 0) by (nonlinear_arith)
                requires
                    w == 0,
            ;
        }
    }
    let whole = MAX_AUTO_PIXELS as nat * h as nat / w as nat;
    let next = lines as int + 1;
    let two = out.1 as int + 2;
    assert(two >= next);
    assert(two * two >= next * next) by (nonlinear_arith)
        requires
            two >= next,
            next >= 0,
    ;
    assert(next * next >= whole + 1);
    let total = MAX_AUTO_PIXELS as int * h as int;
    vstd::arithmetic::div_mod::lemma_fundamental_div_mod(total, w as int);
    assert(total < w * (whole + 1)) by (nonlinear_arith)
        requires
            total == w * whole + total % (w as int),
            total % (w as int) < w,
    ;
    assert(two * two * w >= (whole + 1) * w) by (nonlinear_arith)
        requires
            two * two >= whole + 1,
            w > 0,
    ;
    assert(w * (whole + 1) == (whole + 1) * w) by (nonlinear_arith);
}

/// A display beyond the pixel budget is recorded in its own shape, to the next even sizes.
pub proof fn law_match_display_keeps_the_shape(source: (u32, u32), out: (u32, u32))
    requires
        resolves(ResolutionMode::MatchDisplay, Some(source), out),
        source.0 > 0,
        source.1 > 0,
        16 < out.0 < 7678,
        16 < out.1 < 7680,
    ensures
        -7 * source.1 <= 2 * (out.0 * source.1 - source.0 * out.1) <= source.1 + 2 * source.0,
{
    let (w, h) = source;
    let lines = choose|lines: u32| #[trigger]
        is_budgeted(w, h, lines) && (out.0 as nat, out.1 as nat) == within_budget(
            scaled(w, h, lines),
        );
    law_width_keeps_the_shape(w, h, lines);
    let exact = aspect_width(w, h, lines) as int;
    let a = out.0 as int;
    let b = out.1 as int;
    assert(exact - 3 <= a <= exact);
    assert(b <= lines <= b + 1);
    assert(a * h <= exact * h && (exact - 3) * h <= a * h && (exact - 3) * h == exact * h - 3 * h)
        by (nonlinear_arith)
        requires
            exact - 3 <= a <= exact,
            h >= 0,
    ;
    assert(w * b <= w * lines <= w * b + w) by (nonlinear_arith)
        requires
            b <= lines <= b + 1,
            w >= 0,
    ;
}

} // verus!
