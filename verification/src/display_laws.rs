use vstd::prelude::*;
use crate::display::{Color, scrolled, clipped_rect, rect_points, circle_points, circle_filled, circle_arc, circle_ring, circle_start, abs, LineCourse, line_walk, line_points, line_course, line_start_err, lemma_line_step, min, max,
    painted, text_points, glyph_points, lemma_paint_empty, lemma_paint_union};

verus! {

/// Whether `p` lies in the box spanned by `(x1, y1)` and `(x2, y2)`.
pub open spec fn in_box(p: (int, int), x1: int, y1: int, x2: int, y2: int) -> bool {
    &&& min(x1, x2) <= p.0 <= max(x1, x2)
    &&& min(y1, y2) <= p.1 <= max(y1, y2)
}

/// From a state of the walk that keeps its invariant, the walk reaches the
/// end point and stays inside the box of the two end points.
proof fn lemma_walk(
    k: LineCourse,
    x1: int,
    y1: int,
    e0: int,
    a: int,
    b: int,
    err: int,
    fuel: nat,
)
    requires
        k.dx >= 0,
        k.dy >= 0,
        k.sx == 1 || k.sx == -1,
        k.sy == 1 || k.sy == -1,
        k.x2 == x1 + k.sx * k.dx,
        k.y2 == y1 + k.sy * k.dy,
        e0 == (if k.dx > k.dy { k.dx / 2 } else { -(k.dy / 2) }),
        0 <= a <= k.dx,
        0 <= b <= k.dy,
        err == e0 - a * k.dy + b * k.dx,
        fuel >= (k.dx - a) + (k.dy - b) + 1,
    ensures
        line_walk(k, x1 + k.sx * a, y1 + k.sy * b, err, fuel).contains((k.x2, k.y2)),
        forall|p: (int, int)|
            #[trigger] line_walk(k, x1 + k.sx * a, y1 + k.sy * b, err, fuel).contains(p) ==> in_box(
                p,
                x1,
                y1,
                k.x2,
                k.y2,
            ),
    decreases fuel,
{
    let x = x1 + k.sx * a;
    let y = y1 + k.sy * b;
    assert(in_box((x, y), x1, y1, k.x2, k.y2)) by {
        if k.sx == 1 {
            assert(k.sx * a == a);
            assert(k.sx * k.dx == k.dx);
        } else {
            assert(k.sx * a == -a);
            assert(k.sx * k.dx == -k.dx);
        }
        if k.sy == 1 {
            assert(k.sy * b == b);
            assert(k.sy * k.dy == k.dy);
        } else {
            assert(k.sy * b == -b);
            assert(k.sy * k.dy == -k.dy);
        }
    }
    if x == k.x2 && y == k.y2 {
    } else {
        assert(a < k.dx || b < k.dy) by {
            if a == k.dx && b == k.dy {
            }
        }
        lemma_line_step(k.dx, k.dy, a, b, e0, err);
        let e2 = 2 * err;
        let na = if e2 > -k.dx { a + 1 } else { a };
        let nb = if e2 < k.dy { b + 1 } else { b };
        let err1 = if e2 > -k.dx { err - k.dy } else { err };
        let err2 = if e2 < k.dy { err1 + k.dx } else { err1 };
        assert((a + 1) * k.dy == a * k.dy + k.dy) by (nonlinear_arith);
        assert((b + 1) * k.dx == b * k.dx + k.dx) by (nonlinear_arith);
        assert(err2 == e0 - na * k.dy + nb * k.dx);
        assert(x1 + k.sx * na == (if e2 > -k.dx { x + k.sx } else { x })) by (nonlinear_arith)
            requires
                x == x1 + k.sx * a,
                na == (if e2 > -k.dx { a + 1 } else { a }),
        ;
        assert(y1 + k.sy * nb == (if e2 < k.dy { y + k.sy } else { y })) by (nonlinear_arith)
            requires
                y == y1 + k.sy * b,
                nb == (if e2 < k.dy { b + 1 } else { b }),
        ;
        lemma_walk(k, x1, y1, e0, na, nb, err2, (fuel - 1) as nat);
    }
}

/// A line holds both of its end points.
pub proof fn lemma_line_has_endpoints(x1: int, y1: int, x2: int, y2: int)
    ensures
        line_points(x1, y1, x2, y2).contains((x1, y1)),
        line_points(x1, y1, x2, y2).contains((x2, y2)),
{
    let k = line_course(x1, y1, x2, y2);
    assert(x1 + k.sx * 0 == x1);
    assert(y1 + k.sy * 0 == y1);
    assert(k.x2 == x1 + k.sx * k.dx) by (nonlinear_arith)
        requires
            k == line_course(x1, y1, x2, y2),
    ;
    assert(k.y2 == y1 + k.sy * k.dy) by (nonlinear_arith)
        requires
            k == line_course(x1, y1, x2, y2),
    ;
    lemma_walk(k, x1, y1, line_start_err(k), 0, 0, line_start_err(k), (k.dx + k.dy + 1) as nat);
}

/// Every point of a line lies in the box spanned by its end points.
pub proof fn lemma_line_in_box(x1: int, y1: int, x2: int, y2: int)
    ensures
        forall|p: (int, int)| #[trigger]
            line_points(x1, y1, x2, y2).contains(p) ==> in_box(p, x1, y1, x2, y2),
{
    let k = line_course(x1, y1, x2, y2);
    assert(x1 + k.sx * 0 == x1);
    assert(y1 + k.sy * 0 == y1);
    assert(k.x2 == x1 + k.sx * k.dx) by (nonlinear_arith)
        requires
            k == line_course(x1, y1, x2, y2),
    ;
    assert(k.y2 == y1 + k.sy * k.dy) by (nonlinear_arith)
        requires
            k == line_course(x1, y1, x2, y2),
    ;
    lemma_walk(k, x1, y1, line_start_err(k), 0, 0, line_start_err(k), (k.dx + k.dy + 1) as nat);
}

/// On a horizontal or vertical line, the walk from a state that keeps its
/// invariant visits every point between that state and the end point.
proof fn lemma_walk_covers(
    k: LineCourse,
    x1: int,
    y1: int,
    e0: int,
    a: int,
    b: int,
    err: int,
    fuel: nat,
)
    requires
        k.dx == 0 || k.dy == 0,
        k.dx >= 0,
        k.dy >= 0,
        k.sx == 1 || k.sx == -1,
        k.sy == 1 || k.sy == -1,
        k.x2 == x1 + k.sx * k.dx,
        k.y2 == y1 + k.sy * k.dy,
        e0 == (if k.dx > k.dy { k.dx / 2 } else { -(k.dy / 2) }),
        0 <= a <= k.dx,
        0 <= b <= k.dy,
        err == e0 - a * k.dy + b * k.dx,
        fuel >= (k.dx - a) + (k.dy - b) + 1,
    ensures
        forall|p: (int, int)|
            in_box(p, x1 + k.sx * a, y1 + k.sy * b, k.x2, k.y2) ==> #[trigger] line_walk(
                k,
                x1 + k.sx * a,
                y1 + k.sy * b,
                err,
                fuel,
            ).contains(p),
    decreases fuel,
{
    let x = x1 + k.sx * a;
    let y = y1 + k.sy * b;
    if k.sx == 1 {
        assert(k.sx * a == a);
        assert(k.sx * k.dx == k.dx);
    } else {
        assert(k.sx * a == -a);
        assert(k.sx * k.dx == -k.dx);
    }
    if k.sy == 1 {
        assert(k.sy * b == b);
        assert(k.sy * k.dy == k.dy);
    } else {
        assert(k.sy * b == -b);
        assert(k.sy * k.dy == -k.dy);
    }
    if x == k.x2 && y == k.y2 {
        assert forall|p: (int, int)| in_box(p, x, y, k.x2, k.y2) implies #[trigger] line_walk(
            k,
            x,
            y,
            err,
            fuel,
        ).contains(p) by {
            assert(p == (x, y));
        }
    } else {
        lemma_line_step(k.dx, k.dy, a, b, e0, err);
        let e2 = 2 * err;
        let na = if e2 > -k.dx { a + 1 } else { a };
        let nb = if e2 < k.dy { b + 1 } else { b };
        let err1 = if e2 > -k.dx { err - k.dy } else { err };
        let err2 = if e2 < k.dy { err1 + k.dx } else { err1 };
        assert((a + 1) * k.dy == a * k.dy + k.dy) by (nonlinear_arith);
        assert((b + 1) * k.dx == b * k.dx + k.dx) by (nonlinear_arith);
        assert(x1 + k.sx * na == (if e2 > -k.dx { x + k.sx } else { x })) by (nonlinear_arith)
            requires
                x == x1 + k.sx * a,
                na == (if e2 > -k.dx { a + 1 } else { a }),
        ;
        assert(y1 + k.sy * nb == (if e2 < k.dy { y + k.sy } else { y })) by (nonlinear_arith)
            requires
                y == y1 + k.sy * b,
                nb == (if e2 < k.dy { b + 1 } else { b }),
        ;
        lemma_walk_covers(k, x1, y1, e0, na, nb, err2, (fuel - 1) as nat);
        let nx = x1 + k.sx * na;
        let ny = y1 + k.sy * nb;
        assert forall|p: (int, int)| in_box(p, x, y, k.x2, k.y2) implies #[trigger] line_walk(
            k,
            x,
            y,
            err,
            fuel,
        ).contains(p) by {
            if p != (x, y) {
                assert(in_box(p, nx, ny, k.x2, k.y2));
                assert(line_walk(k, nx, ny, err2, (fuel - 1) as nat).contains(p));
            }
        }
    }
}

/// A horizontal or vertical line holds every point between its end points.
pub proof fn lemma_straight_line_covers(x1: int, y1: int, x2: int, y2: int)
    requires
        x1 == x2 || y1 == y2,
    ensures
        forall|p: (int, int)|
            in_box(p, x1, y1, x2, y2) <==> #[trigger] line_points(x1, y1, x2, y2).contains(p),
{
    let k = line_course(x1, y1, x2, y2);
    assert(x1 + k.sx * 0 == x1);
    assert(y1 + k.sy * 0 == y1);
    assert(k.x2 == x1 + k.sx * k.dx) by (nonlinear_arith)
        requires
            k == line_course(x1, y1, x2, y2),
    ;
    assert(k.y2 == y1 + k.sy * k.dy) by (nonlinear_arith)
        requires
            k == line_course(x1, y1, x2, y2),
    ;
    lemma_walk_covers(k, x1, y1, line_start_err(k), 0, 0, line_start_err(k), (k.dx + k.dy + 1) as nat);
    lemma_line_in_box(x1, y1, x2, y2);
}

/// Whether a set of points is symmetric about the vertical and the
/// horizontal axis through `(x0, y0)`.
pub open spec fn mirror_symmetric(s: Set<(int, int)>, x0: int, y0: int) -> bool {
    forall|p: (int, int)| #[trigger]
        s.contains(p) ==> s.contains((2 * x0 - p.0, p.1)) && s.contains((p.0, 2 * y0 - p.1))
}

/// Whether a set of points is symmetric about the diagonal through `(x0, y0)`.
pub open spec fn diagonal_symmetric(s: Set<(int, int)>, x0: int, y0: int) -> bool {
    forall|p: (int, int)| #[trigger] s.contains(p) ==> s.contains((x0 + (p.1 - y0), y0 + (p.0 - x0)))
}

/// A horizontal line centred on `x0` is symmetric about the vertical axis
/// through `x0`.
proof fn lemma_centred_row(x0: int, y: int, h: int)
    ensures
        forall|p: (int, int)| #[trigger]
            line_points(x0 - h, y, x0 + h, y).contains(p) ==> line_points(
                x0 - h,
                y,
                x0 + h,
                y,
            ).contains((2 * x0 - p.0, p.1)),
{
    lemma_straight_line_covers(x0 - h, y, x0 + h, y);
}

/// One step of the filled midpoint circle is symmetric about both axes.
proof fn lemma_ring_symmetric(x0: int, y0: int, x: int, y: int, filled: bool)
    ensures
        mirror_symmetric(circle_ring(x0, y0, x, y, filled), x0, y0),
        !filled ==> diagonal_symmetric(circle_ring(x0, y0, x, y, filled), x0, y0),
{
    if filled {
        let ring = circle_ring(x0, y0, x, y, filled);
        lemma_centred_row(x0, y0 + y, x);
        lemma_centred_row(x0, y0 - y, x);
        lemma_centred_row(x0, y0 + x, y);
        lemma_centred_row(x0, y0 - x, y);
        lemma_straight_line_covers(x0 - x, y0 + y, x0 + x, y0 + y);
        lemma_straight_line_covers(x0 - x, y0 - y, x0 + x, y0 - y);
        lemma_straight_line_covers(x0 - y, y0 + x, x0 + y, y0 + x);
        lemma_straight_line_covers(x0 - y, y0 - x, x0 + y, y0 - x);
        assert forall|p: (int, int)| #[trigger] ring.contains(p) implies ring.contains(
            (2 * x0 - p.0, p.1),
        ) && ring.contains((p.0, 2 * y0 - p.1)) by {
            if line_points(x0 - x, y0 + y, x0 + x, y0 + y).contains(p) {
                assert(line_points(x0 - x, y0 - y, x0 + x, y0 - y).contains((p.0, 2 * y0 - p.1)));
            } else if line_points(x0 - x, y0 - y, x0 + x, y0 - y).contains(p) {
                assert(line_points(x0 - x, y0 + y, x0 + x, y0 + y).contains((p.0, 2 * y0 - p.1)));
            } else if line_points(x0 - y, y0 + x, x0 + y, y0 + x).contains(p) {
                assert(line_points(x0 - y, y0 - x, x0 + y, y0 - x).contains((p.0, 2 * y0 - p.1)));
            } else {
                assert(line_points(x0 - y, y0 + x, x0 + y, y0 + x).contains((p.0, 2 * y0 - p.1)));
            }
        }
    }
}

/// The points that the midpoint algorithm adds are symmetric.
proof fn lemma_arc_symmetric(x0: int, y0: int, x: int, y: int, d: int, filled: bool)
    ensures
        mirror_symmetric(circle_arc(x0, y0, x, y, d, filled), x0, y0),
        !filled ==> diagonal_symmetric(circle_arc(x0, y0, x, y, d, filled), x0, y0),
    decreases y - x + 2,
{
    if x <= y {
        let d1 = d + 2 * x - 1;
        let y1 = if d1 >= 0 { y - 1 } else { y };
        let d2 = if d1 >= 0 { d1 - 2 * y1 + 2 } else { d1 };
        let ring = circle_ring(x0, y0, x, y1, filled);
        let rest = circle_arc(x0, y0, x + 1, y1, d2, filled);
        lemma_ring_symmetric(x0, y0, x, y1, filled);
        lemma_arc_symmetric(x0, y0, x + 1, y1, d2, filled);
        assert(circle_arc(x0, y0, x, y, d, filled) == ring.union(rest));
        assert forall|p: (int, int)| #[trigger] ring.union(rest).contains(p) implies ring.union(
            rest,
        ).contains((2 * x0 - p.0, p.1)) && ring.union(rest).contains((p.0, 2 * y0 - p.1)) by {
            if ring.contains(p) {
                assert(ring.contains((2 * x0 - p.0, p.1)));
                assert(ring.contains((p.0, 2 * y0 - p.1)));
            } else {
                assert(rest.contains((2 * x0 - p.0, p.1)));
                assert(rest.contains((p.0, 2 * y0 - p.1)));
            }
        }
        if !filled {
            assert forall|p: (int, int)| #[trigger] ring.union(rest).contains(p) implies ring.union(
                rest,
            ).contains((x0 + (p.1 - y0), y0 + (p.0 - x0))) by {
                if ring.contains(p) {
                    assert(ring.contains((x0 + (p.1 - y0), y0 + (p.0 - x0))));
                } else {
                    assert(rest.contains((x0 + (p.1 - y0), y0 + (p.0 - x0))));
                }
            }
        }
    }
}

/// A circle is symmetric about the vertical and the horizontal axis through
/// its center, and an outlined circle (one drawn unfilled, with a radius
/// that is not negative) about the diagonal as well.
pub proof fn lemma_circle_symmetric(x0: int, y0: int, r: int, filled: bool)
    ensures
        mirror_symmetric(circle_points(x0, y0, r, filled), x0, y0),
        !circle_filled(r, filled) ==> diagonal_symmetric(circle_points(x0, y0, r, filled), x0, y0),
{
    let fill = circle_filled(r, filled);
    let start = circle_start(x0, y0, r, fill);
    let arc = circle_arc(x0, y0, 1, abs(r), -r, fill);
    lemma_arc_symmetric(x0, y0, 1, abs(r), -r, fill);
    if fill {
        lemma_straight_line_covers(x0, r + y0, x0, -r + y0);
        lemma_straight_line_covers(r + x0, y0, -r + x0, y0);
    }
    assert forall|p: (int, int)| #[trigger] start.union(arc).contains(p) implies start.union(
        arc,
    ).contains((2 * x0 - p.0, p.1)) && start.union(arc).contains((p.0, 2 * y0 - p.1)) by {
        if start.contains(p) {
            assert(start.contains((2 * x0 - p.0, p.1)));
            assert(start.contains((p.0, 2 * y0 - p.1)));
        } else {
            assert(arc.contains((2 * x0 - p.0, p.1)));
            assert(arc.contains((p.0, 2 * y0 - p.1)));
        }
    }
    if !fill {
        assert forall|p: (int, int)| #[trigger] start.union(arc).contains(p) implies start.union(
            arc,
        ).contains((x0 + (p.1 - y0), y0 + (p.0 - x0))) by {
            if start.contains(p) {
                assert(start.contains((x0 + (p.1 - y0), y0 + (p.0 - x0))));
            } else {
                assert(arc.contains((x0 + (p.1 - y0), y0 + (p.0 - x0))));
            }
        }
    }
}

/// A filled circle, and any circle of negative radius, holds its vertical
/// and its horizontal diameter: every point within the radius of the center
/// on the row or the column through it.
pub proof fn lemma_circle_diameters(x0: int, y0: int, r: int, filled: bool)
    requires
        filled || r < 0,
    ensures
        forall|t: int|
            -abs(r) <= t <= abs(r) ==> #[trigger] circle_points(x0, y0, r, filled).contains(
                (x0 + t, y0),
            ) && circle_points(x0, y0, r, filled).contains((x0, y0 + t)),
{
    lemma_straight_line_covers(x0, r + y0, x0, -r + y0);
    lemma_straight_line_covers(r + x0, y0, -r + x0, y0);
    assert forall|t: int| -abs(r) <= t <= abs(r) implies #[trigger] circle_points(
        x0,
        y0,
        r,
        filled,
    ).contains((x0 + t, y0)) && circle_points(x0, y0, r, filled).contains((x0, y0 + t)) by {
        assert(in_box((x0 + t, y0), r + x0, y0, -r + x0, y0));
        assert(in_box((x0, y0 + t), x0, r + y0, x0, -r + y0));
    }
}

/// The frame after the characters of `text` are drawn one after the other,
/// each as `Display::char` draws it, the `i`-th with its cell at
/// `(x + 8 * i, y)`.
pub open spec fn glyphs_drawn(
    frame: Seq<Color>,
    w: int,
    font: Seq<u8>,
    text: Seq<char>,
    x: int,
    y: int,
    color: Color,
) -> Seq<Color>
    decreases text.len(),
{
    if text.len() == 0 {
        frame
    } else {
        painted(
            glyphs_drawn(frame, w, font, text.drop_last(), x, y, color),
            w,
            glyph_points(font, text.last(), x + 8 * (text.len() - 1), y),
            color,
        )
    }
}

/// Drawing a text is drawing its characters in order, each 8 pixels right
/// of the one before; an empty text leaves the frame as it is.
pub proof fn lemma_string_is_chars(
    frame: Seq<Color>,
    w: int,
    font: Seq<u8>,
    text: Seq<char>,
    x: int,
    y: int,
    color: Color,
)
    ensures
        painted(frame, w, text_points(font, text, x, y), color) == glyphs_drawn(
            frame,
            w,
            font,
            text,
            x,
            y,
            color,
        ),
    decreases text.len(),
{
    if text.len() == 0 {
        lemma_paint_empty(frame, w, color);
    } else {
        lemma_string_is_chars(frame, w, font, text.drop_last(), x, y, color);
        lemma_paint_union(
            frame,
            w,
            text_points(font, text.drop_last(), x, y),
            glyph_points(font, text.last(), x + 8 * (text.len() - 1), y),
            color,
        );
    }
}

/// A rectangle that starts on or left of the screen's right edge and on or
/// above its bottom edge is clipped to the screen: the points drawn are
/// exactly those of the rectangle `[x, x + w) x [y, y + h)` that lie on the
/// `sw` by `sh` screen, so nothing outside the rectangle is drawn and no part
/// of it on the screen is missed.
pub proof fn lemma_rect_clipping(sw: int, sh: int, x: int, y: int, w: int, h: int)
    requires
        x < sw,
        y < sh,
    ensures
        forall|p: (int, int)|
            #[trigger] clipped_rect(sw, sh, x, y, w, h).contains(p) <==> (0 <= p.0 < sw && x <= p.0
                < x + w && 0 <= p.1 < sh && y <= p.1 < y + h),
{
}

/// Whether column (or row) `c` of a screen `s` wide is drawn for a span
/// from `a` of length `len`: a span that starts on the screen or before it
/// is cut to the screen; one that starts past the edge is pinned to the last
/// column, which it fills when it reaches back to the edge.
pub open spec fn on_axis(c: int, s: int, a: int, len: int) -> bool {
    &&& 0 <= c < s
    &&& if a < s {
        a <= c < a + len
    } else {
        c == s - 1 && a + len >= s
    }
}

/// The points that `rect` draws, for every rectangle: each axis is clipped
/// as `on_axis` says.
pub proof fn lemma_rect_points_exact(sw: int, sh: int, x: int, y: int, w: int, h: int)
    ensures
        forall|p: (int, int)|
            #[trigger] clipped_rect(sw, sh, x, y, w, h).contains(p) <==> (on_axis(p.0, sw, x, w)
                && on_axis(p.1, sh, y, h)),
{
}

/// Scrolling by `a` rows and then by `b` rows is scrolling by `a + b` rows,
/// as long as some row stays on the screen.
pub proof fn lemma_scroll_twice(frame: Seq<Color>, w: int, h: int, a: int, b: int, color: Color)
    requires
        w >= 0,
        frame.len() == w * h,
        0 < a,
        0 < b,
        a + b < h,
    ensures
        scrolled(scrolled(frame, w, h, a, color), w, h, b, color) == scrolled(
            frame,
            w,
            h,
            a + b,
            color,
        ),
{
    assert(a * w + b * w == (a + b) * w) by (nonlinear_arith);
    assert((a + b) * w <= w * h) by (nonlinear_arith)
        requires
            a + b < h,
            w >= 0,
    ;
    assert(a * w >= 0 && b * w >= 0) by (nonlinear_arith)
        requires
            a > 0,
            b > 0,
            w >= 0,
    ;
    let once = scrolled(frame, w, h, a, color);
    let twice = scrolled(once, w, h, b, color);
    let direct = scrolled(frame, w, h, a + b, color);
    assert(once.len() == w * h);
    assert(twice =~= direct);
}

/// A rectangle that lies on the screen is drawn whole.
pub proof fn lemma_rect_on_screen(sw: int, sh: int, x: int, y: int, w: int, h: int)
    requires
        0 <= x,
        0 <= y,
        0 < w,
        0 < h,
        x + w <= sw,
        y + h <= sh,
    ensures
        clipped_rect(sw, sh, x, y, w, h) == rect_points(x, y, x + w, y + h),
{
}

} // verus!
