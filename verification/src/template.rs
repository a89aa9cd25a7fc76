//! Finding a button template on a screenshot: pixel comparison, the 6x6
//! sample grid, the scan over a region of interest, and the region table.
use vstd::prelude::*;
use crate::adb::{adb_tap, tap_call};
use crate::types::{Invocation, Roi};

verus! {

/// An RGBA image: `width` x `height` pixels, rows top to bottom, four bytes
/// (red, green, blue, alpha) per pixel.
#[derive(Clone, Debug)]
pub struct RgbaImage {
    pub width: u32,
    pub height: u32,
    pub pixels: Vec<u8>,
}

/// Templates at most this wide and tall keep the sample arithmetic within `u32`.
pub open spec fn max_template_side() -> int {
    858993460
}

impl RgbaImage {
    /// At least one pixel, and four bytes for each.
    pub open spec fn wf(&self) -> bool {
        &&& self.width >= 1
        &&& self.height >= 1
        &&& self.pixels.len() == self.width * self.height * 4
    }

    /// Channel `k` of the pixel at `(x, y)`.
    pub open spec fn channel(&self, x: int, y: int, k: int) -> u8 {
        self.pixels@[(y * self.width + x) * 4 + k]
    }
}

pub open spec fn abs_diff(a: u8, b: u8) -> int {
    if a >= b {
        a - b
    } else {
        b - a
    }
}

/// The template pixel at `(tx, ty)` agrees with the screen pixel at
/// `(sx + tx, sy + ty)`: it is nearly transparent (alpha below 10), or each of
/// red, green and blue differs by less than 40.
pub open spec fn pixel_match(
    screen: RgbaImage,
    template: RgbaImage,
    sx: int,
    sy: int,
    tx: int,
    ty: int,
) -> bool {
    ||| template.channel(tx, ty, 3) < 10
    ||| {
        &&& abs_diff(screen.channel(sx + tx, sy + ty, 0), template.channel(tx, ty, 0)) < 40
        &&& abs_diff(screen.channel(sx + tx, sy + ty, 1), template.channel(tx, ty, 1)) < 40
        &&& abs_diff(screen.channel(sx + tx, sy + ty, 2), template.channel(tx, ty, 2)) < 40
    }
}

proof fn lemma_pixel_index(w: int, h: int, x: int, y: int, k: int)
    requires
        0 <= x < w,
        0 <= y < h,
        0 <= k < 4,
    ensures
        0 <= (y * w + x) * 4 + k < w * h * 4,
{
    assert(y * w + x < h * w) by (nonlinear_arith)
        requires
            0 <= x < w,
            0 <= y < h,
    ;
    assert(0 <= y * w) by (nonlinear_arith)
        requires
            0 <= y,
            0 <= w,
    ;
    assert(h * w == w * h) by (nonlinear_arith);
}

fn channel_at(img: &RgbaImage, x: u32, y: u32, k: usize) -> (r: u8)
    requires
        img.wf(),
        x < img.width,
        y < img.height,
        k < 4,
    ensures
        r == img.channel(x as int, y as int, k as int),
{
    proof {
        lemma_pixel_index(img.width as int, img.height as int, x as int, y as int, k as int);
    }
    let idx = ((y as usize) * (img.width as usize) + (x as usize)) * 4 + k;
    img.pixels[idx]
}

fn close(a: u8, b: u8) -> (r: bool)
    ensures
        r == (abs_diff(a, b) < 40),
{
    if a >= b {
        a - b < 40
    } else {
        b - a < 40
    }
}

/// Compares the template pixel at `(tx, ty)` with the screen pixel at
/// `(sx + tx, sy + ty)`.
pub fn is_pixel_match(screen: &RgbaImage, template: &RgbaImage, sx: u32, sy: u32, tx: u32, ty: u32) -> (r:
    bool)
    requires
        screen.wf(),
        template.wf(),
        tx < template.width,
        ty < template.height,
        sx + tx < screen.width,
        sy + ty < screen.height,
    ensures
        r == pixel_match(*screen, *template, sx as int, sy as int, tx as int, ty as int),
{
    let r1 = channel_at(screen, sx + tx, sy + ty, 0);
    let g1 = channel_at(screen, sx + tx, sy + ty, 1);
    let b1 = channel_at(screen, sx + tx, sy + ty, 2);
    let r2 = channel_at(template, tx, ty, 0);
    let g2 = channel_at(template, tx, ty, 1);
    let b2 = channel_at(template, tx, ty, 2);
    let a2 = channel_at(template, tx, ty, 3);
    if a2 < 10 {
        return true;
    }
    close(r1, r2) && close(g1, g2) && close(b1, b2)
}

/// Sample `k` of the 6x6 grid (row-major over `i`, `j`): template pixel
/// `(i * (w - 1) / 5, j * (h - 1) / 5)`.
pub open spec fn sample_x(template: RgbaImage, k: int) -> int {
    (k / 6) * (template.width - 1) / 5
}

pub open spec fn sample_y(template: RgbaImage, k: int) -> int {
    (k % 6) * (template.height - 1) / 5
}

/// How many of the first `n` grid samples match with the template placed at `(x, y)`.
pub open spec fn samples_matched(screen: RgbaImage, template: RgbaImage, x: int, y: int, n: int) -> nat
    decreases n,
{
    if n <= 0 {
        0
    } else {
        samples_matched(screen, template, x, y, n - 1) + if pixel_match(
            screen,
            template,
            x,
            y,
            sample_x(template, n - 1),
            sample_y(template, n - 1),
        ) {
            1nat
        } else {
            0nat
        }
    }
}

/// The template stands at `(x, y)`: its centre pixel matches, and at least
/// `threshold` of the 36 grid samples match.
pub open spec fn matches_at(
    screen: RgbaImage,
    template: RgbaImage,
    x: int,
    y: int,
    threshold: int,
) -> bool {
    &&& pixel_match(
        screen,
        template,
        x,
        y,
        template.width as int / 2,
        template.height as int / 2,
    )
    &&& samples_matched(screen, template, x, y, 36) >= threshold
}

/// Both images well formed, the template no larger than the screen nor than
/// `max_template_side()`.
pub open spec fn comparable(screen: RgbaImage, template: RgbaImage) -> bool {
    &&& screen.wf()
    &&& template.wf()
    &&& template.width <= screen.width
    &&& template.height <= screen.height
    &&& template.width <= max_template_side()
    &&& template.height <= max_template_side()
}

proof fn lemma_sample_in_template(template: RgbaImage, k: int)
    requires
        0 <= k < 36,
        template.wf(),
        template.width <= max_template_side(),
        template.height <= max_template_side(),
    ensures
        0 <= sample_x(template, k) < template.width,
        0 <= sample_y(template, k) < template.height,
        (k / 6) * (template.width - 1) <= u32::MAX,
        (k % 6) * (template.height - 1) <= u32::MAX,
{
    let i = k / 6;
    let j = k % 6;
    assert(0 <= i <= 5 && 0 <= j <= 5);
    let w1 = template.width - 1;
    let h1 = template.height - 1;
    assert(0 <= i * w1 <= 5 * w1) by (nonlinear_arith)
        requires
            0 <= i <= 5,
            0 <= w1,
    ;
    assert(0 <= j * h1 <= 5 * h1) by (nonlinear_arith)
        requires
            0 <= j <= 5,
            0 <= h1,
    ;
    assert((i * w1) / 5 <= w1) by (nonlinear_arith)
        requires
            0 <= i * w1 <= 5 * w1,
    ;
    assert((j * h1) / 5 <= h1) by (nonlinear_arith)
        requires
            0 <= j * h1 <= 5 * h1,
    ;
}

/// Counts the grid samples that match with the template placed at `(x, y)`.
fn count_samples(screen: &RgbaImage, template: &RgbaImage, x: u32, y: u32) -> (r: u32)
    requires
        comparable(*screen, *template),
        x + template.width <= screen.width,
        y + template.height <= screen.height,
    ensures
        r == samples_matched(*screen, *template, x as int, y as int, 36),
{
    let mut count: u32 = 0;
    let mut i: u32 = 0;
    while i < 6
        invariant
            comparable(*screen, *template),
            x + template.width <= screen.width,
            y + template.height <= screen.height,
            i <= 6,
            count == samples_matched(*screen, *template, x as int, y as int, (i * 6) as int),
            count <= i * 6,
        decreases 6 - i,
    {
        let mut j: u32 = 0;
        while j < 6
            invariant
                comparable(*screen, *template),
                x + template.width <= screen.width,
                y + template.height <= screen.height,
                i < 6,
                j <= 6,
                count == samples_matched(*screen, *template, x as int, y as int, (i * 6 + j) as int),
                count <= i * 6 + j,
            decreases 6 - j,
        {
            let ghost k = (i * 6 + j) as int;
            proof {
                lemma_sample_in_template(*template, k);
                assert(k / 6 == i && k % 6 == j);
            }
            let tx = i * (template.width - 1) / 5;
            let ty = j * (template.height - 1) / 5;
            if is_pixel_match(screen, template, x, y, tx, ty) {
                count += 1;
            }
            j += 1;
        }
        i += 1;
    }
    count
}

/// Whether the template stands at `(x, y)` with at least `threshold` samples.
fn matches_exec(screen: &RgbaImage, template: &RgbaImage, x: u32, y: u32, threshold: u32) -> (r: bool)
    requires
        comparable(*screen, *template),
        x + template.width <= screen.width,
        y + template.height <= screen.height,
    ensures
        r == matches_at(*screen, *template, x as int, y as int, threshold as int),
{
    let cx = template.width / 2;
    let cy = template.height / 2;
    if is_pixel_match(screen, template, x, y, cx, cy) {
        count_samples(screen, template, x, y) >= threshold
    } else {
        false
    }
}

/// The region in which the template's top-left corner is searched: the
/// scaled region of interest where there is one, else everywhere; each bound
/// capped so that the template stays on the screen.
pub open spec fn scan_bounds(
    roi: Option<(u32, u32, u32, u32)>,
    screen: RgbaImage,
    template: RgbaImage,
) -> (int, int, int, int) {
    let mx = screen.width - template.width;
    let my = screen.height - template.height;
    match roi {
        Some((a, b, c, d)) => (
            if a <= mx {
                a as int
            } else {
                mx
            },
            if b <= my {
                b as int
            } else {
                my
            },
            if c <= mx {
                c as int
            } else {
                mx
            },
            if d <= my {
                d as int
            } else {
                my
            },
        ),
        None => (0, 0, mx, my),
    }
}

fn bounds_exec(roi: Option<(u32, u32, u32, u32)>, screen: &RgbaImage, template: &RgbaImage) -> (r: (
    u32,
    u32,
    u32,
    u32,
))
    requires
        comparable(*screen, *template),
    ensures
        (r.0 as int, r.1 as int, r.2 as int, r.3 as int) == scan_bounds(roi, *screen, *template),
{
    let mx = screen.width - template.width;
    let my = screen.height - template.height;
    match roi {
        Some((a, b, c, d)) => (
            if a <= mx {
                a
            } else {
                mx
            },
            if b <= my {
                b
            } else {
                my
            },
            if c <= mx {
                c
            } else {
                mx
            },
            if d <= my {
                d
            } else {
                my
            },
        ),
        None => (0, 0, mx, my),
    }
}

/// The template stands somewhere in the region, every position tried.
pub open spec fn found_in(
    screen: RgbaImage,
    template: RgbaImage,
    b: (int, int, int, int),
    threshold: int,
) -> bool {
    exists|x: int, y: int|
        b.0 <= x <= b.2 && b.1 <= y <= b.3 && #[trigger] matches_at(screen, template, x, y, threshold)
}

/// The template is given, no larger than the screen, and stands somewhere in
/// its search region, with the threshold of 27 samples.
pub open spec fn present(
    screen: RgbaImage,
    template: Option<RgbaImage>,
    roi: Option<(u32, u32, u32, u32)>,
) -> bool {
    match template {
        Some(t) => t.width <= screen.width && t.height <= screen.height && found_in(
            screen,
            t,
            scan_bounds(roi, screen, t),
            27,
        ),
        None => false,
    }
}

/// A template that can be compared: well formed and within the size limit.
pub open spec fn usable_template(template: Option<RgbaImage>) -> bool {
    match template {
        Some(t) => t.wf() && t.width <= max_template_side() && t.height <= max_template_side(),
        None => true,
    }
}

/// Whether the template appears on the screen, trying every position of the
/// region with the threshold of 27 samples (the check of `find_templates_batch`).
/// A missing template, or one larger than the screen, is not found.
pub fn template_present(
    screen: &RgbaImage,
    template: &Option<RgbaImage>,
    roi: Option<(u32, u32, u32, u32)>,
) -> (r: bool)
    requires
        screen.wf(),
        usable_template(*template),
    ensures
        r == present(*screen, *template, roi),
{
    let t = match template {
        Some(t) => t,
        None => return false,
    };
    if t.width > screen.width || t.height > screen.height {
        return false;
    }
    let (x1, y1, x2, y2) = bounds_exec(roi, screen, t);
    let ghost b = scan_bounds(roi, *screen, *t);
    if y1 > y2 || x1 > x2 {
        return false;
    }
    let mut y = y1;
    loop
        invariant
            comparable(*screen, *t),
            *template == Some(*t),
            b == scan_bounds(roi, *screen, *t),
            b == (x1 as int, y1 as int, x2 as int, y2 as int),
            x1 <= x2 <= screen.width - t.width,
            y1 <= y <= y2 <= screen.height - t.height,
            forall|xx: int, yy: int|
                x1 <= xx <= x2 && y1 <= yy < y ==> !#[trigger] matches_at(*screen, *t, xx, yy, 27),
        decreases y2 - y,
    {
        let mut x = x1;
        loop
            invariant
                comparable(*screen, *t),
                *template == Some(*t),
                b == scan_bounds(roi, *screen, *t),
                b == (x1 as int, y1 as int, x2 as int, y2 as int),
                x1 <= x <= x2 <= screen.width - t.width,
                y1 <= y <= y2 <= screen.height - t.height,
                forall|xx: int, yy: int|
                    x1 <= xx <= x2 && y1 <= yy < y ==> !#[trigger] matches_at(*screen, *t, xx, yy, 27),
                forall|xx: int| x1 <= xx < x ==> !#[trigger] matches_at(*screen, *t, xx, y as int, 27),
            ensures
                forall|xx: int| x1 <= xx <= x2 ==> !#[trigger] matches_at(*screen, *t, xx, y as int, 27),
            decreases x2 - x,
        {
            if matches_exec(screen, t, x, y, 27) {
                proof {
                    assert(matches_at(*screen, *t, x as int, y as int, 27));
                }
                return true;
            }
            if x == x2 {
                break;
            }
            x += 1;
        }
        if y == y2 {
            proof {
                assert forall|xx: int, yy: int|
                    b.0 <= xx <= b.2 && b.1 <= yy <= b.3 implies !#[trigger] matches_at(
                    *screen,
                    *t,
                    xx,
                    yy,
                    27,
                ) by {}
            }
            return false;
        }
        y += 1;
    }
}

/// `v` is a point of the grid `lo, lo + 3, ...` that does not pass `hi`.
pub open spec fn on_grid(v: int, lo: int, hi: int) -> bool {
    lo <= v <= hi && (v - lo) % 3 == 0
}

proof fn lemma_grid_gap(a: int, b: int, lo: int)
    requires
        (a - lo) % 3 == 0,
        (b - lo) % 3 == 0,
        a < b,
    ensures
        b - a >= 3,
{
    assert(b - a >= 3) by (nonlinear_arith)
        requires
            (a - lo) % 3 == 0,
            (b - lo) % 3 == 0,
            a < b,
    ;
}

/// `(x, y)` comes before `(x2, y2)` in a row-by-row scan.
pub open spec fn scanned_before(x: int, y: int, x2: int, y2: int) -> bool {
    y < y2 || (y == y2 && x < x2)
}

/// The point to tap for a template whose top-left corner is at `(x, y)`: its centre.
pub open spec fn tap_point(template: RgbaImage, x: int, y: int) -> (i32, i32) {
    ((x + template.width / 2) as i32, (y + template.height / 2) as i32)
}

/// The outcome of the coarse scan of `find_and_click_template`: every third
/// position of the region, row by row, with the threshold of 25 samples; the
/// tap point of the first position where the template stands, or nothing.
pub open spec fn located_at(
    screen: RgbaImage,
    template: RgbaImage,
    b: (int, int, int, int),
    r: Option<(i32, i32)>,
) -> bool {
    match r {
        Some(p) => exists|x: int, y: int|
            {
                &&& on_grid(x, b.0, b.2)
                &&& on_grid(y, b.1, b.3)
                &&& #[trigger] matches_at(screen, template, x, y, 25)
                &&& p == tap_point(template, x, y)
                &&& forall|x2: int, y2: int|
                    on_grid(x2, b.0, b.2) && on_grid(y2, b.1, b.3) && scanned_before(x2, y2, x, y)
                        ==> !#[trigger] matches_at(screen, template, x2, y2, 25)
            },
        None => forall|x: int, y: int|
            on_grid(x, b.0, b.2) && on_grid(y, b.1, b.3) ==> !#[trigger] matches_at(
                screen,
                template,
                x,
                y,
                25,
            ),
    }
}

/// `r` is where the coarse scan taps for the template: nothing for a missing
/// template or one larger than the screen.
pub open spec fn location(
    screen: RgbaImage,
    template: Option<RgbaImage>,
    roi: Option<(u32, u32, u32, u32)>,
    r: Option<(i32, i32)>,
) -> bool {
    match template {
        Some(t) => if t.width <= screen.width && t.height <= screen.height {
            located_at(screen, t, scan_bounds(roi, screen, t), r)
        } else {
            r is None
        },
        None => r is None,
    }
}

/// Byte `k` of the screen pixel at `(sx + tx, sy + ty)` minus byte `k` of the
/// template pixel at `(tx, ty)`, read straight from the pixel rows.
pub open spec fn colour_gap(
    screen: RgbaImage,
    template: RgbaImage,
    sx: int,
    sy: int,
    tx: int,
    ty: int,
    k: int,
) -> int {
    screen.pixels@[((sy + ty) * screen.width + (sx + tx)) * 4 + k] as int
        - template.pixels@[(ty * template.width + tx) * 4 + k] as int
}

/// A nearly transparent template pixel (alpha below 10) matches any screen
/// pixel; an opaque one matches exactly when each of red, green and blue
/// differs from the screen pixel by less than 40.
pub proof fn law_pixel_match_compares_every_colour(
    screen: RgbaImage,
    template: RgbaImage,
    sx: int,
    sy: int,
    tx: int,
    ty: int,
)
    ensures
        template.pixels@[(ty * template.width + tx) * 4 + 3] < 10 ==> pixel_match(
            screen,
            template,
            sx,
            sy,
            tx,
            ty,
        ),
        template.pixels@[(ty * template.width + tx) * 4 + 3] >= 10 ==> (pixel_match(
            screen,
            template,
            sx,
            sy,
            tx,
            ty,
        ) <==> forall|k: int|
            0 <= k < 3 ==> -40 < #[trigger] colour_gap(screen, template, sx, sy, tx, ty, k) < 40),
{
    let f = |k: int| -40 < colour_gap(screen, template, sx, sy, tx, ty, k) < 40;
    assert(f(0) == (abs_diff(screen.channel(sx + tx, sy + ty, 0), template.channel(tx, ty, 0)) < 40));
    assert(f(1) == (abs_diff(screen.channel(sx + tx, sy + ty, 1), template.channel(tx, ty, 1)) < 40));
    assert(f(2) == (abs_diff(screen.channel(sx + tx, sy + ty, 2), template.channel(tx, ty, 2)) < 40));
    if template.pixels@[(ty * template.width + tx) * 4 + 3] >= 10 {
        if pixel_match(screen, template, sx, sy, tx, ty) {
            assert forall|k: int| 0 <= k < 3 implies -40 < #[trigger] colour_gap(
                screen,
                template,
                sx,
                sy,
                tx,
                ty,
                k,
            ) < 40 by {
                if k == 0 {
                } else if k == 1 {
                } else {
                    assert(k == 2);
                }
            }
        }
        if forall|k: int| 0 <= k < 3 ==> -40 < #[trigger] colour_gap(screen, template, sx, sy, tx, ty, k) < 40 {
            assert(f(0) && f(1) && f(2));
        }
    }
}

/// Where the coarse scan taps, the template was found: the tap point is the
/// centre of the matched rectangle, `width / 2` to the right of its left edge
/// and `height / 2` below its top edge, inside it and on the screen. The
/// rectangle sits on the scan grid (every third column and row from the
/// corner of the search region), and no grid position before it, row by row,
/// holds the template.
pub proof fn law_tap_is_centre_of_found_template(
    screen: RgbaImage,
    template: RgbaImage,
    roi: Option<(u32, u32, u32, u32)>,
    p: (i32, i32),
)
    requires
        screen.width <= i32::MAX,
        screen.height <= i32::MAX,
        template.wf(),
        location(screen, Some(template), roi, Some(p)),
    ensures
        exists|x: int, y: int|
            {
                &&& #[trigger] matches_at(screen, template, x, y, 25)
                &&& 0 <= x && x + template.width <= screen.width
                &&& 0 <= y && y + template.height <= screen.height
                &&& p.0 == x + template.width / 2
                &&& p.1 == y + template.height / 2
                &&& x <= p.0 < x + template.width
                &&& y <= p.1 < y + template.height
                &&& scan_bounds(roi, screen, template).0 <= x && (x - scan_bounds(roi, screen, template).0) % 3 == 0
                &&& scan_bounds(roi, screen, template).1 <= y && (y - scan_bounds(roi, screen, template).1) % 3 == 0
                &&& forall|x2: int, y2: int|
                    scan_bounds(roi, screen, template).0 <= x2 <= scan_bounds(roi, screen, template).2
                        && scan_bounds(roi, screen, template).1 <= y2 <= scan_bounds(roi, screen, template).3
                        && (x2 - scan_bounds(roi, screen, template).0) % 3 == 0
                        && (y2 - scan_bounds(roi, screen, template).1) % 3 == 0
                        && (y2 < y || (y2 == y && x2 < x))
                        ==> !#[trigger] matches_at(screen, template, x2, y2, 25)
            },
{
    let b = scan_bounds(roi, screen, template);
    assert(template.width <= screen.width && template.height <= screen.height);
    assert(located_at(screen, template, b, Some(p)));
    let (x, y) = choose|x: int, y: int|
        {
            &&& on_grid(x, b.0, b.2)
            &&& on_grid(y, b.1, b.3)
            &&& #[trigger] matches_at(screen, template, x, y, 25)
            &&& p == tap_point(template, x, y)
            &&& forall|x2: int, y2: int|
                on_grid(x2, b.0, b.2) && on_grid(y2, b.1, b.3) && scanned_before(x2, y2, x, y)
                    ==> !#[trigger] matches_at(screen, template, x2, y2, 25)
        };
    assert(0 <= b.0 && b.2 <= screen.width - template.width);
    assert(0 <= b.1 && b.3 <= screen.height - template.height);
    assert(p.0 == x + template.width / 2);
    assert(p.1 == y + template.height / 2);
    assert(matches_at(screen, template, x, y, 25));
    assert forall|x2: int, y2: int|
        b.0 <= x2 <= b.2 && b.1 <= y2 <= b.3 && (x2 - b.0) % 3 == 0 && (y2 - b.1) % 3 == 0 && (y2 < y
            || (y2 == y && x2 < x)) implies !#[trigger] matches_at(screen, template, x2, y2, 25) by {
        assert(on_grid(x2, b.0, b.2) && on_grid(y2, b.1, b.3) && scanned_before(x2, y2, x, y));
    }
}

/// Where to tap for the template: the centre of the first place, on a coarse
/// scan of the region, where it stands. Nothing for a missing template or one
/// larger than the screen.
pub fn locate_template(
    screen: &RgbaImage,
    template: &Option<RgbaImage>,
    roi: Option<(u32, u32, u32, u32)>,
) -> (r: Option<(i32, i32)>)
    requires
        screen.wf(),
        usable_template(*template),
    ensures
        location(*screen, *template, roi, r),
{
    let t = match template {
        Some(t) => t,
        None => return None,
    };
    if t.width > screen.width || t.height > screen.height {
        return None;
    }
    let (x1, y1, x2, y2) = bounds_exec(roi, screen, t);
    let ghost b = scan_bounds(roi, *screen, *t);
    if y1 > y2 || x1 > x2 {
        proof {
            assert forall|x: int, y: int|
                on_grid(x, b.0, b.2) && on_grid(y, b.1, b.3) implies !#[trigger] matches_at(
                *screen,
                *t,
                x,
                y,
                25,
            ) by {}
        }
        return None;
    }
    let mut y = y1;
    loop
        invariant
            comparable(*screen, *t),
            *template == Some(*t),
            b == scan_bounds(roi, *screen, *t),
            b == (x1 as int, y1 as int, x2 as int, y2 as int),
            x1 <= x2 <= screen.width - t.width,
            y1 <= y <= y2 <= screen.height - t.height,
            on_grid(y as int, y1 as int, y2 as int),
            forall|xx: int, yy: int|
                on_grid(xx, x1 as int, x2 as int) && on_grid(yy, y1 as int, y2 as int) && yy < y
                    ==> !#[trigger] matches_at(*screen, *t, xx, yy, 25),
        decreases y2 - y,
    {
        let mut x = x1;
        loop
            invariant
                comparable(*screen, *t),
                *template == Some(*t),
                b == scan_bounds(roi, *screen, *t),
                b == (x1 as int, y1 as int, x2 as int, y2 as int),
                x1 <= x <= x2 <= screen.width - t.width,
                y1 <= y <= y2 <= screen.height - t.height,
                on_grid(x as int, x1 as int, x2 as int),
                on_grid(y as int, y1 as int, y2 as int),
                forall|xx: int, yy: int|
                    on_grid(xx, x1 as int, x2 as int) && on_grid(yy, y1 as int, y2 as int) && yy < y
                        ==> !#[trigger] matches_at(*screen, *t, xx, yy, 25),
                forall|xx: int|
                    on_grid(xx, x1 as int, x2 as int) && xx < x ==> !#[trigger] matches_at(
                        *screen,
                        *t,
                        xx,
                        y as int,
                        25,
                    ),
            ensures
                forall|xx: int|
                    on_grid(xx, x1 as int, x2 as int) ==> !#[trigger] matches_at(
                        *screen,
                        *t,
                        xx,
                        y as int,
                        25,
                    ),
            decreases x2 - x,
        {
            if matches_exec(screen, t, x, y, 25) {
                let cx = #[verifier::truncate] ((x + t.width / 2) as i32);
                let cy = #[verifier::truncate] ((y + t.height / 2) as i32);
                proof {
                    assert(tap_point(*t, x as int, y as int) == (cx, cy));
                    assert(matches_at(*screen, *t, x as int, y as int, 25));
                    assert forall|x2: int, y2: int|
                        on_grid(x2, b.0, b.2) && on_grid(y2, b.1, b.3) && scanned_before(
                            x2,
                            y2,
                            x as int,
                            y as int,
                        ) implies !#[trigger] matches_at(*screen, *t, x2, y2, 25) by {}
                }
                return Some((cx, cy));
            }
            if x2 - x < 3 {
                proof {
                    assert forall|xx: int|
                        on_grid(xx, x1 as int, x2 as int) implies !#[trigger] matches_at(
                        *screen,
                        *t,
                        xx,
                        y as int,
                        25,
                    ) by {
                        if xx > x {
                            lemma_grid_gap(x as int, xx, x1 as int);
                        }
                    }
                }
                break;
            }
            x += 3;
        }
        if y2 - y < 3 {
            proof {
                assert forall|xx: int, yy: int|
                    on_grid(xx, b.0, b.2) && on_grid(yy, b.1, b.3) implies !#[trigger] matches_at(
                    *screen,
                    *t,
                    xx,
                    yy,
                    25,
                ) by {
                    if yy > y {
                        lemma_grid_gap(y as int, yy, y1 as int);
                    }
                }
            }
            return None;
        }
        proof {
            assert forall|xx: int, yy: int|
                on_grid(xx, x1 as int, x2 as int) && on_grid(yy, y1 as int, y2 as int) && yy < y + 3
                    implies !#[trigger] matches_at(*screen, *t, xx, yy, 25) by {
                if yy > y {
                    lemma_grid_gap(y as int, yy, y1 as int);
                }
            }
        }
        y += 3;
    }
}

/// Where the template `name` is kept in `template_dir`: the two joined by a backslash.
pub open spec fn template_file(template_dir: Seq<char>, name: Seq<char>) -> Seq<char> {
    template_dir + seq!['\\'] + name
}

pub fn template_path(template_dir: &str, name: &str) -> (r: String)
    ensures
        r@ == template_file(template_dir@, name@),
{
    let mut out = crate::text::chars_of(template_dir);
    out.push('\\');
    crate::text::append_chars(&mut out, &crate::text::chars_of(name));
    crate::text::string_from(&out)
}

/// For each template, whether it appears on the screenshot (with its region
/// of interest); nothing appears where the screenshot could not be read.
pub fn find_templates_batch(
    screen: &Option<RgbaImage>,
    templates: &Vec<Option<RgbaImage>>,
    rois: &Vec<Option<(u32, u32, u32, u32)>>,
) -> (r: Vec<bool>)
    requires
        templates.len() == rois.len(),
        match screen {
            Some(s) => s.wf(),
            None => true,
        },
        forall|i: int| 0 <= i < templates.len() ==> usable_template(#[trigger] templates@[i]),
    ensures
        r.len() == templates.len(),
        forall|i: int|
            0 <= i < r.len() ==> #[trigger] r@[i] == match screen {
                Some(s) => present(*s, templates@[i], rois@[i]),
                None => false,
            },
{
    let mut r: Vec<bool> = Vec::new();
    let mut i: usize = 0;
    while i < templates.len()
        invariant
            i <= templates.len() == rois.len(),
            match screen {
                Some(s) => s.wf(),
                None => true,
            },
            forall|j: int| 0 <= j < templates.len() ==> usable_template(#[trigger] templates@[j]),
            r.len() == i,
            forall|j: int|
                0 <= j < i ==> #[trigger] r@[j] == match screen {
                    Some(s) => present(*s, templates@[j], rois@[j]),
                    None => false,
                },
        decreases templates.len() - i,
    {
        let found = match screen {
            Some(s) => template_present(s, &templates[i], rois[i]),
            None => false,
        };
        r.push(found);
        i += 1;
    }
    r
}

/// The tap on the template of device `serial`, at the centre of the first
/// place of the coarse scan where it stands; nothing where the screenshot
/// could not be read or the template is not found.
pub fn find_and_click_template(
    serial: &str,
    screen: &Option<RgbaImage>,
    template: &Option<RgbaImage>,
    roi: Option<(u32, u32, u32, u32)>,
) -> (r: Option<Invocation>)
    requires
        match screen {
            Some(s) => s.wf(),
            None => true,
        },
        usable_template(*template),
    ensures
        match screen {
            Some(s) => match r {
                Some(tap) => exists|x: i32, y: i32|
                    #[trigger] location(*s, *template, roi, Some((x, y))) && tap@ == tap_call(serial@, x, y),
                None => location(*s, *template, roi, None),
            },
            None => r is None,
        },
{
    let s = match screen {
        Some(s) => s,
        None => return None,
    };
    match locate_template(s, template, roi) {
        Some((x, y)) => Some(adb_tap(serial, x, y)),
        None => None,
    }
}

/// A member of a JSON object: its key, and, where its value is an array, each
/// element as a `u64` where it is a non-negative integer.
pub struct JsonField {
    pub key: String,
    pub numbers: Option<Vec<Option<u64>>>,
}

pub type JsonFieldView = (Seq<char>, Option<Seq<Option<u64>>>);

pub open spec fn json_field_view(f: JsonField) -> JsonFieldView {
    (
        f.key@,
        match f.numbers {
            Some(v) => Some(v@),
            None => None,
        },
    )
}

/// The members of the JSON object that a text holds, as `serde_json` reads it
/// (`None` where the text is no JSON object); a function of the text alone.
pub uninterp spec fn json_object_numbers(content: Seq<char>) -> Option<Seq<JsonFieldView>>;

/// `serde_json::from_str::<serde_json::Value>`, its value taken apart with
/// `Value::as_object`, `Value::as_array` and `Value::as_u64`: the result is
/// named `json_object_numbers`, a function of the text alone. The keys come
/// from a `serde_json::Map`, so no key occurs twice. Not stated: which texts
/// serde_json accepts as JSON and which numbers it reads as a `u64`.
#[verifier::external_body]
fn read_json_object(content: &str) -> (r: Option<Vec<JsonField>>)
    ensures
        match r {
            Some(v) => json_object_numbers(content@) == Some(v@.map_values(
                |f: JsonField| json_field_view(f),
            )) && forall|i: int, j: int|
                0 <= i < j < v.len() ==> #[trigger] v@[i].key@ != #[trigger] v@[j].key@,
            None => json_object_numbers(content@) is None,
        },
{
    let value: serde_json::Value = serde_json::from_str(content).ok()?;
    let object = value.as_object()?;
    Some(object.iter().map(|(key, field)| JsonField {
        key: key.clone(),
        numbers: field.as_array().map(|items| items.iter().map(|item| item.as_u64()).collect()),
    }).collect())
}

pub open spec fn number_or(n: Option<u64>, default: u64) -> u64 {
    match n {
        Some(v) => v,
        None => default,
    }
}

/// The region that a member of the table file gives: members whose key starts
/// with `_` are comments; a region is an array of exactly four numbers
/// `x1, y1, x2, y2`, a missing or non-integer number standing for 0, 0, 960
/// and 540 in turn, each taken modulo 2^32.
pub open spec fn roi_of_field(f: JsonFieldView) -> Option<(Seq<char>, Roi)> {
    if f.0.len() > 0 && f.0[0] == '_' {
        None
    } else {
        match f.1 {
            Some(a) => if a.len() == 4 {
                Some(
                    (
                        f.0,
                        Roi {
                            x1: number_or(a[0], 0) as u32,
                            y1: number_or(a[1], 0) as u32,
                            x2: number_or(a[2], 960) as u32,
                            y2: number_or(a[3], 540) as u32,
                        },
                    ),
                )
            } else {
                None
            },
            None => None,
        }
    }
}

/// The regions of interest in the text of `roi_config.json`, by template name;
/// none where there is no file (`None`) or it holds no JSON object.
pub open spec fn roi_table(content: Option<Seq<char>>) -> Seq<(Seq<char>, Roi)> {
    match content {
        None => Seq::empty(),
        Some(c) => match json_object_numbers(c) {
            None => Seq::empty(),
            Some(fs) => fs.filter_map(|f: JsonFieldView| roi_of_field(f)),
        },
    }
}

/// A template name with its region of interest.
pub struct RoiEntry {
    pub name: String,
    pub roi: Roi,
}

pub open spec fn roi_entries_view(v: Seq<RoiEntry>) -> Seq<(Seq<char>, Roi)> {
    v.map_values(|e: RoiEntry| (e.name@, e.roi))
}

fn number_or_exec(n: Option<u64>, default: u64) -> (r: u64)
    ensures
        r == number_or(n, default),
{
    match n {
        Some(v) => v,
        None => default,
    }
}

/// The table of regions of interest read from the text of `roi_config.json`
/// (`None` where the file could not be read). No name occurs twice.
pub fn get_roi_config(content: &Option<String>) -> (r: Vec<RoiEntry>)
    ensures
        roi_entries_view(r@) == roi_table(
            match content {
                Some(c) => Some(c@),
                None => None,
            },
        ),
        forall|i: int, j: int| 0 <= i < j < r.len() ==> #[trigger] r@[i].name@ != #[trigger] r@[j].name@,
{
    let mut r: Vec<RoiEntry> = Vec::new();
    let text = match content {
        Some(c) => c,
        None => {
            proof {
                assert(roi_entries_view(r@) =~= Seq::<(Seq<char>, Roi)>::empty());
            }
            return r;
        },
    };
    let fields = match read_json_object(text.as_str()) {
        Some(f) => f,
        None => {
            proof {
                assert(roi_entries_view(r@) =~= Seq::<(Seq<char>, Roi)>::empty());
            }
            return r;
        },
    };
    let ghost fv = fields@.map_values(|f: JsonField| json_field_view(f));
    let ghost g = |f: JsonFieldView| roi_of_field(f);
    let mut k: usize = 0;
    while k < fields.len()
        invariant
            k <= fields.len() == fv.len(),
            fv == fields@.map_values(|f: JsonField| json_field_view(f)),
            g == (|f: JsonFieldView| roi_of_field(f)),
            forall|i: int, j: int|
                0 <= i < j < fields.len() ==> #[trigger] fields@[i].key@ != #[trigger] fields@[j].key@,
            roi_entries_view(r@) == fv.take(k as int).filter_map(g),
            forall|i: int|
                0 <= i < r.len() ==> exists|j: int| 0 <= j < k && #[trigger] r@[i].name@ == fields@[j].key@,
            forall|i: int, j: int| 0 <= i < j < r.len() ==> #[trigger] r@[i].name@ != #[trigger] r@[j].name@,
        decreases fields.len() - k,
    {
        proof {
            fv.lemma_filter_map_take_succ(g, k as int);
        }
        let ghost prev = roi_entries_view(r@);
        let f = &fields[k];
        let key = &f.key;
        let comment = key.as_str().unicode_len() > 0 && key.as_str().get_char(0) == '_';
        let mut added = false;
        if !comment {
            match &f.numbers {
                Some(a) => {
                    if a.len() == 4 {
                        let roi = Roi {
                            x1: #[verifier::truncate] (number_or_exec(a[0], 0) as u32),
                            y1: #[verifier::truncate] (number_or_exec(a[1], 0) as u32),
                            x2: #[verifier::truncate] (number_or_exec(a[2], 960) as u32),
                            y2: #[verifier::truncate] (number_or_exec(a[3], 540) as u32),
                        };
                        let entry = RoiEntry { name: key.clone(), roi };
                        proof {
                            assert forall|i: int| 0 <= i < r.len() implies #[trigger] r@[i].name@
                                != entry.name@ by {
                                let j = choose|j: int| 0 <= j < k && #[trigger] r@[i].name@ == fields@[j].key@;
                                assert(fields@[j].key@ != fields@[k as int].key@);
                            }
                        }
                        r.push(entry);
                        added = true;
                        proof {
                            assert(roi_entries_view(r@) =~= prev + seq![(entry.name@, roi)]);
                        }
                    }
                },
                None => {},
            }
        }
        if !added {
            proof {
                assert(prev + Seq::<(Seq<char>, Roi)>::empty() =~= prev);
            }
        }
        proof {
            assert forall|i: int| 0 <= i < r.len() implies exists|j: int|
                0 <= j < k + 1 && #[trigger] r@[i].name@ == fields@[j].key@ by {
                if i < prev.len() {
                    let j = choose|j: int| 0 <= j < k && #[trigger] r@[i].name@ == fields@[j].key@;
                    assert(r@[i].name@ == fields@[j].key@);
                } else {
                    assert(r@[i].name@ == fields@[k as int].key@);
                }
            }
        }
        k += 1;
    }
    proof {
        assert(fv.take(fields.len() as int) == fv);
    }
    r
}

/// The region of interest of the template `name`, if the table has one.
pub open spec fn roi_lookup(table: Seq<(Seq<char>, Roi)>, name: Seq<char>) -> Option<Roi>
    decreases table.len(),
{
    if table.len() == 0 {
        None
    } else if table[0].0 == name {
        Some(table[0].1)
    } else {
        roi_lookup(table.drop_first(), name)
    }
}

/// The region of interest of template `name` in `table`.
pub fn roi_for(table: &Vec<RoiEntry>, name: &str) -> (r: Option<Roi>)
    ensures
        r == roi_lookup(roi_entries_view(table@), name@),
{
    let ghost tv = roi_entries_view(table@);
    let wanted = crate::text::chars_of(name);
    let mut i: usize = 0;
    proof {
        assert(tv.skip(0) == tv);
    }
    while i < table.len()
        invariant
            i <= table.len() == tv.len(),
            tv == roi_entries_view(table@),
            wanted@ == name@,
            roi_lookup(tv, name@) == roi_lookup(tv.skip(i as int), name@),
        decreases table.len() - i,
    {
        let ghost rest = tv.skip(i as int);
        proof {
            assert(rest[0] == tv[i as int]);
            assert(rest.drop_first() == tv.skip(i + 1));
        }
        let here = crate::text::chars_of(table[i].name.as_str());
        if crate::text::chars_eq(&here, &wanted) {
            return Some(table[i].roi);
        }
        i += 1;
    }
    None
}

} // verus!
