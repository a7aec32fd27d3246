use vstd::prelude::*;

verus! {

/// A 32-bit pixel value: alpha in the top byte, then red, green and blue.
#[derive(Clone, Copy, Debug, PartialEq, Eq)]
pub struct Color(pub u32);

impl Color {
    /// The opaque color with these red, green and blue channels.
    pub fn rgb(r: u8, g: u8, b: u8) -> (c: Color)
        ensures
            c.0 == 0xFF00_0000 + r * 0x1_0000 + g * 0x100 + b,
    {
        let (r32, g32, b32) = (r as u32, g as u32, b as u32);
        let v = 0xFF00_0000u32 | (r32 << 16) | (g32 << 8) | b32;
        assert(r32 <= 0xFF && g32 <= 0xFF && b32 <= 0xFF ==> 0xFF00_0000u32 | (r32 << 16) | (g32 << 8)
            | b32 == 0xFF00_0000 + r32 * 0x1_0000 + g32 * 0x100 + b32) by (bit_vector);
        Color(v)
    }
}

/// The alpha channel of a color.
pub open spec fn alpha(color: Color) -> u32 {
    (color.0 / 0x100_0000) as u32
}

/// What a display is: its pixels, row after row, its size, its scale and the
/// bitmap font that it draws text with.
pub struct DisplayView {
    pub frame: Seq<Color>,
    pub width: int,
    pub height: int,
    pub scale: int,
    pub font: Seq<u8>,
}

/// Where pixel `(x, y)` of a display `w` pixels wide stands in its frame.
pub open spec fn pixel_index(w: int, x: int, y: int) -> int {
    w * y + x
}

/// Whether pixel `(x, y)` falls inside a frame of `w * h` pixels.
pub open spec fn on_screen(w: int, h: int, x: int, y: int) -> bool {
    0 <= pixel_index(w, x, y) < w * h
}

/// Whether every point of `pts` falls inside the frame.
pub open spec fn all_on_screen(w: int, h: int, pts: Set<(int, int)>) -> bool {
    forall|p: (int, int)| #[trigger] pts.contains(p) ==> on_screen(w, h, p.0, p.1)
}

/// Whether some point of `pts` lands on frame index `i`.
pub open spec fn hits(w: int, pts: Set<(int, int)>, i: int) -> bool {
    exists|p: (int, int)| #[trigger] pts.contains(p) && pixel_index(w, p.0, p.1) == i
}

/// The frame after every point of `pts` is set to `color`.
pub open spec fn painted(frame: Seq<Color>, w: int, pts: Set<(int, int)>, color: Color) -> Seq<
    Color,
> {
    Seq::new(frame.len(), |i: int| if hits(w, pts, i) { color } else { frame[i] })
}

/// The points of the rectangle `[x0, x1) x [y0, y1)`.
pub open spec fn rect_points(x0: int, y0: int, x1: int, y1: int) -> Set<(int, int)> {
    Set::new(|p: (int, int)| x0 <= p.0 < x1 && y0 <= p.1 < y1)
}

/// The smaller of two integers.
pub open spec fn min(a: int, b: int) -> int {
    if a < b {
        a
    } else {
        b
    }
}

/// The larger of two integers.
pub open spec fn max(a: int, b: int) -> int {
    if a < b {
        b
    } else {
        a
    }
}

/// The part of the rectangle at `(x, y)` of size `w` by `h` that a
/// `sw` by `sh` screen draws: rows and columns are clamped to the screen.
pub open spec fn clipped_rect(sw: int, sh: int, x: int, y: int, w: int, h: int) -> Set<(int, int)> {
    let start_y = max(0, min(sh - 1, y));
    let end_y = max(start_y, min(sh, y + h));
    let start_x = max(0, min(sw - 1, x));
    let end_x = max(start_x, min(sw, x + w));
    rect_points(start_x, start_y, end_x, end_y)
}

/// Painting one more point on top of a painted frame paints the union.
pub proof fn lemma_paint_one(
    frame: Seq<Color>,
    w: int,
    pts: Set<(int, int)>,
    p: (int, int),
    color: Color,
)
    requires
        0 <= pixel_index(w, p.0, p.1) < frame.len(),
    ensures
        painted(frame, w, pts, color).update(pixel_index(w, p.0, p.1), color) =~= painted(
            frame,
            w,
            pts.insert(p),
            color,
        ),
{
    let idx = pixel_index(w, p.0, p.1);
    let lhs = painted(frame, w, pts, color).update(idx, color);
    let rhs = painted(frame, w, pts.insert(p), color);
    assert forall|i: int| 0 <= i < frame.len() implies lhs[i] == rhs[i] by {
        if i == idx {
            assert(pts.insert(p).contains(p));
            assert(hits(w, pts.insert(p), i));
        } else {
            if hits(w, pts.insert(p), i) {
                let q = choose|q: (int, int)|
                    #[trigger] pts.insert(p).contains(q) && pixel_index(w, q.0, q.1) == i;
                assert(q != p);
                assert(pts.contains(q));
                assert(hits(w, pts, i));
            }
            if hits(w, pts, i) {
                let q = choose|q: (int, int)| #[trigger] pts.contains(q) && pixel_index(w, q.0, q.1) == i;
                assert(pts.insert(p).contains(q));
            }
        }
    }
}

/// Painting no point leaves the frame as it is.
pub proof fn lemma_paint_empty(frame: Seq<Color>, w: int, color: Color)
    ensures
        painted(frame, w, Set::empty(), color) =~= frame,
{
}

/// Painting depends on the set of points only.
pub proof fn lemma_paint_same_set(
    frame: Seq<Color>,
    w: int,
    a: Set<(int, int)>,
    b: Set<(int, int)>,
    color: Color,
)
    requires
        a =~= b,
    ensures
        painted(frame, w, a, color) == painted(frame, w, b, color),
{
}

/// The bitmap row `row` of character `c`: 16 bytes per character, and 0 past
/// the end of the font.
pub open spec fn font_row(font: Seq<u8>, c: char, row: int) -> u8 {
    let off = (c as int) * 16 + row;
    if off < font.len() {
        font[off]
    } else {
        0
    }
}

/// Whether column `col` of a bitmap row is set; column 0 is the most
/// significant bit.
pub open spec fn row_bit(bits: u8, col: int) -> bool {
    (bits >> ((7 - col) as u8)) & 1 == 1
}

/// The points that character `c` sets when drawn with its top left corner at
/// `(x, y)`: a cell of 8 columns by 16 rows.
pub open spec fn glyph_points(font: Seq<u8>, c: char, x: int, y: int) -> Set<(int, int)> {
    Set::new(
        |p: (int, int)|
            0 <= p.0 - x < 8 && 0 <= p.1 - y < 16 && row_bit(font_row(font, c, p.1 - y), p.0 - x),
    )
}

/// The points of the glyph cell above row `row`, and of row `row` left of
/// column `col`.
pub open spec fn glyph_prefix(font: Seq<u8>, c: char, x: int, y: int, row: int, col: int) -> Set<
    (int, int),
> {
    glyph_points(font, c, x, y).filter(
        |p: (int, int)| p.1 - y < row || (p.1 - y == row && p.0 - x < col),
    )
}

/// The points that a text sets when drawn from `(x, y)`, one 8-pixel-wide
/// cell per character.
pub open spec fn text_points(font: Seq<u8>, text: Seq<char>, x: int, y: int) -> Set<(int, int)>
    decreases text.len(),
{
    if text.len() == 0 {
        Set::empty()
    } else {
        text_points(font, text.drop_last(), x, y).union(
            glyph_points(font, text.last(), x + 8 * (text.len() - 1), y),
        )
    }
}

/// Painting two sets one after the other paints their union.
pub proof fn lemma_paint_union(
    frame: Seq<Color>,
    w: int,
    a: Set<(int, int)>,
    b: Set<(int, int)>,
    color: Color,
)
    ensures
        painted(painted(frame, w, a, color), w, b, color) =~= painted(frame, w, a.union(b), color),
{
    let lhs = painted(painted(frame, w, a, color), w, b, color);
    let rhs = painted(frame, w, a.union(b), color);
    assert forall|i: int| 0 <= i < frame.len() implies lhs[i] == rhs[i] by {
        if hits(w, a.union(b), i) {
            let q = choose|q: (int, int)| #[trigger] a.union(b).contains(q) && pixel_index(w, q.0, q.1) == i;
            if a.contains(q) {
                assert(hits(w, a, i));
            } else {
                assert(hits(w, b, i));
            }
        }
        if hits(w, a, i) {
            let q = choose|q: (int, int)| #[trigger] a.contains(q) && pixel_index(w, q.0, q.1) == i;
            assert(a.union(b).contains(q));
        }
        if hits(w, b, i) {
            let q = choose|q: (int, int)| #[trigger] b.contains(q) && pixel_index(w, q.0, q.1) == i;
            assert(a.union(b).contains(q));
        }
    }
}

/// Drawing one more character adds its cell to the points of the text.
pub proof fn lemma_text_points_prefix(font: Seq<u8>, text: Seq<char>, x: int, y: int, n: int)
    requires
        0 <= n < text.len(),
    ensures
        text_points(font, text.take(n + 1), x, y) == text_points(font, text.take(n), x, y).union(
            glyph_points(font, text[n], x + 8 * n, y),
        ),
{
    assert(text.take(n + 1).drop_last() =~= text.take(n));
}

/// The points of each character's cell are among the points of the text.
pub proof fn lemma_text_points_subset(font: Seq<u8>, text: Seq<char>, x: int, y: int, n: int)
    requires
        0 <= n < text.len(),
    ensures
        glyph_points(font, text[n], x + 8 * n, y).subset_of(text_points(font, text, x, y)),
    decreases text.len(),
{
    if n < text.len() - 1 {
        lemma_text_points_subset(font, text.drop_last(), x, y, n);
    }
}

/// The fixed quantities of a line from `(x1, y1)` to `(x2, y2)`: the end
/// point, the distances along each axis and the direction of each step.
pub struct LineCourse {
    pub x2: int,
    pub y2: int,
    pub dx: int,
    pub dy: int,
    pub sx: int,
    pub sy: int,
}

pub open spec fn abs(v: int) -> int {
    if v < 0 {
        -v
    } else {
        v
    }
}

pub open spec fn line_course(x1: int, y1: int, x2: int, y2: int) -> LineCourse {
    LineCourse {
        x2,
        y2,
        dx: abs(x1 - x2),
        dy: abs(y1 - y2),
        sx: if x1 < x2 { 1 } else { -1 },
        sy: if y1 < y2 { 1 } else { -1 },
    }
}

/// The starting error term: half the longer distance, negative when the
/// line is steep.
pub open spec fn line_start_err(k: LineCourse) -> int {
    if k.dx > k.dy {
        k.dx / 2
    } else {
        -(k.dy / 2)
    }
}

/// The points that Bresenham's walk from `(x, y)` with error term `err`
/// visits before it reaches the end point, the end point included; `fuel`
/// bounds the number of steps.
pub open spec fn line_walk(k: LineCourse, x: int, y: int, err: int, fuel: nat) -> Set<(int, int)>
    decreases fuel,
{
    if fuel == 0 {
        Set::empty()
    } else if x == k.x2 && y == k.y2 {
        set![(x, y)]
    } else {
        let e2 = 2 * err;
        let x1 = if e2 > -k.dx { x + k.sx } else { x };
        let err1 = if e2 > -k.dx { err - k.dy } else { err };
        let y1 = if e2 < k.dy { y + k.sy } else { y };
        let err2 = if e2 < k.dy { err1 + k.dx } else { err1 };
        line_walk(k, x1, y1, err2, (fuel - 1) as nat).insert((x, y))
    }
}

/// The points of the line from `(x1, y1)` to `(x2, y2)`, as Bresenham's
/// algorithm picks them.
pub open spec fn line_points(x1: int, y1: int, x2: int, y2: int) -> Set<(int, int)> {
    let k = line_course(x1, y1, x2, y2);
    line_walk(k, x1, y1, line_start_err(k), (k.dx + k.dy + 1) as nat)
}

/// One step of the walk keeps it inside the box of the two end points: it
/// moves along x only while x has not reached its end, along y likewise, and
/// along at least one axis.
pub proof fn lemma_line_step(dx: int, dy: int, a: int, b: int, e0: int, err: int)
    requires
        0 <= a <= dx,
        0 <= b <= dy,
        a < dx || b < dy,
        e0 == (if dx > dy { dx / 2 } else { -(dy / 2) }),
        err == e0 - a * dy + b * dx,
    ensures
        2 * err > -dx ==> a < dx,
        2 * err < dy ==> b < dy,
        2 * err > -dx || 2 * err < dy,
{
    if a == dx {
        assert(b * dx <= (dy - 1) * dx) by (nonlinear_arith)
            requires
                b <= dy - 1,
                dx >= 0,
        ;
        assert((dy - 1) * dx == dy * dx - dx) by (nonlinear_arith);
        assert(a * dy == dy * dx) by (nonlinear_arith)
            requires
                a == dx,
        ;
    }
    if b == dy {
        assert(a * dy <= (dx - 1) * dy) by (nonlinear_arith)
            requires
                a <= dx - 1,
                dy >= 0,
        ;
        assert((dx - 1) * dy == dy * dx - dy) by (nonlinear_arith);
        assert(b * dx == dy * dx) by (nonlinear_arith)
            requires
                b == dy,
        ;
    }
}

/// The first points of a circle: its four extreme points, or, filled, the
/// vertical and the horizontal diameter.
pub open spec fn circle_start(x0: int, y0: int, r: int, filled: bool) -> Set<(int, int)> {
    if filled {
        line_points(x0, r + y0, x0, -r + y0).union(line_points(r + x0, y0, -r + x0, y0))
    } else {
        set![(x0, r + y0), (x0, -r + y0), (r + x0, y0), (-r + x0, y0)]
    }
}

/// The points that one step of the midpoint algorithm adds at offsets
/// `(x, y)`: the eight mirror images of the point, or, filled, the four
/// horizontal chords between them.
pub open spec fn circle_ring(x0: int, y0: int, x: int, y: int, filled: bool) -> Set<(int, int)> {
    if filled {
        line_points(x0 - x, y0 + y, x0 + x, y0 + y).union(
            line_points(x0 - x, y0 - y, x0 + x, y0 - y),
        ).union(line_points(x0 - y, y0 + x, x0 + y, y0 + x)).union(
            line_points(x0 - y, y0 - x, x0 + y, y0 - x),
        )
    } else {
        set![
            (x0 + x, y0 + y),
            (x0 + x, y0 - y),
            (x0 - x, y0 + y),
            (x0 - x, y0 - y),
            (x0 + y, y0 + x),
            (x0 + y, y0 - x),
            (x0 - y, y0 + x),
            (x0 - y, y0 - x),
        ]
    }
}

/// The points that the midpoint algorithm adds from column offset `x`, row
/// offset `y` and decision value `d` on, until `x` passes `y`.
pub open spec fn circle_arc(x0: int, y0: int, x: int, y: int, d: int, filled: bool) -> Set<
    (int, int),
>
    decreases y - x + 2,
{
    if x > y {
        Set::empty()
    } else {
        let d1 = d + 2 * x - 1;
        let y1 = if d1 >= 0 { y - 1 } else { y };
        let d2 = if d1 >= 0 { d1 - 2 * y1 + 2 } else { d1 };
        circle_ring(x0, y0, x, y1, filled).union(circle_arc(x0, y0, x + 1, y1, d2, filled))
    }
}

/// Whether a circle is drawn filled: when asked for, and always for a
/// negative radius.
pub open spec fn circle_filled(r: int, filled: bool) -> bool {
    filled || r < 0
}

/// The points of the circle of center `(x0, y0)` and radius `r`, as the
/// midpoint algorithm picks them; a negative radius fills the inside.
pub open spec fn circle_points(x0: int, y0: int, r: int, filled: bool) -> Set<(int, int)> {
    let fill = circle_filled(r, filled);
    circle_start(x0, y0, r, fill).union(circle_arc(x0, y0, 1, abs(r), -r, fill))
}

/// Points of a subset of an on-screen set are on the screen.
pub proof fn lemma_on_screen_subset(w: int, h: int, a: Set<(int, int)>, b: Set<(int, int)>)
    requires
        a.subset_of(b),
        all_on_screen(w, h, b),
    ensures
        all_on_screen(w, h, a),
{
    assert forall|p: (int, int)| #[trigger] a.contains(p) implies on_screen(w, h, p.0, p.1) by {
        assert(b.contains(p));
    }
}

/// The frame after scrolling up by `rows` rows: the top rows leave, the
/// others move up, and the rows that come in at the bottom take `color`.
/// Scrolling by no row, or by the whole height or more, changes nothing.
pub open spec fn scrolled(frame: Seq<Color>, w: int, h: int, rows: int, color: Color) -> Seq<Color> {
    if 0 < rows < h {
        frame.subrange(rows * w, w * h) + Seq::new((rows * w) as nat, |i: int| color)
    } else {
        frame
    }
}

/// One step of the midpoint circle algorithm: the decision value grows by
/// `2x - 1`; when it is no longer negative, the row offset drops by one and
/// the value by twice the new row offset less 2.
fn circle_step(x: i64, y: i64, d: i128) -> (r: (i64, i128))
    requires
        1 <= x <= y <= 0x8000_0000,
        -0x8000_0000 - x * 0x4_0000_0000 <= d <= 0x8000_0000 + x * 0x4_0000_0000,
    ensures
        ({
            let d1 = d + 2 * x - 1;
            &&& r.0 == (if d1 >= 0 { y - 1 } else { y as int })
            &&& r.1 == (if d1 >= 0 { d1 - 2 * r.0 + 2 } else { d1 })
        }),
        -0x8000_0000 - (x + 1) * 0x4_0000_0000 <= r.1 <= 0x8000_0000 + (x + 1) * 0x4_0000_0000,
{
    let mut y = y;
    let mut distance = d + (2 * (x as i128) - 1);
    if distance >= 0 {
        y = y - 1;
        distance = distance + (2 - 2 * (y as i128));
    }
    (y, distance)
}

/// A frame of `w * h` pixels.
pub struct Display {
    output: Vec<Color>,
    scale: u32,
    w: u32,
    h: u32,
    font: Vec<u8>,
}

impl View for Display {
    type V = DisplayView;

    closed spec fn view(&self) -> DisplayView {
        DisplayView {
            frame: self.output@,
            width: self.w as int,
            height: self.h as int,
            scale: self.scale as int,
            font: self.font@,
        }
    }
}

impl Display {
    /// Whether the display is consistent: its frame holds `width * height`
    /// pixels and both sides fit a signed 32-bit coordinate.
    pub open spec fn wf(&self) -> bool {
        &&& self@.frame.len() == self@.width * self@.height
        &&& 0 <= self@.width <= i32::MAX
        &&& 0 <= self@.height <= i32::MAX
    }

    /// Wraps a frame of `w * h` pixels and a bitmap font (16 bytes per
    /// character, one byte per row, most significant bit leftmost). Screens
    /// taller than 1440 pixels get a scale of 2.
    pub fn new(output: Vec<Color>, w: u32, h: u32, font: Vec<u8>) -> (d: Self)
        requires
            output@.len() == w * h,
            w <= i32::MAX,
            h <= i32::MAX,
        ensures
            d.wf(),
            d@ == (DisplayView {
                frame: output@,
                width: w as int,
                height: h as int,
                scale: if h > 1440 { 2 } else { 1 },
                font: font@,
            }),
    {
        let scale = if h > 1440 {
            2
        } else {
            1
        };
        Display { output, scale, w, h, font }
    }

    /// The scale factor of the display.
    pub fn scale(&self) -> (s: u32)
        ensures
            s == self@.scale,
    {
        self.scale
    }

    /// The width of the display in pixels.
    pub fn width(&self) -> (w: u32)
        ensures
            w == self@.width,
    {
        self.w
    }

    /// The height of the display in pixels.
    pub fn height(&self) -> (h: u32)
        ensures
            h == self@.height,
    {
        self.h
    }

    /// The pixels of the display, row after row.
    pub fn frame(&self) -> (f: &Vec<Color>)
        ensures
            f@ == self@.frame,
    {
        &self.output
    }

    /// Sets pixel `(x, y)`: frame index `width * y + x`.
    fn put_pixel(&mut self, x: i64, y: i64, color: Color)
        requires
            old(self).wf(),
            on_screen(old(self)@.width, old(self)@.height, x as int, y as int),
        ensures
            final(self).wf(),
            final(self)@ == (DisplayView {
                frame: old(self)@.frame.update(
                    pixel_index(old(self)@.width, x as int, y as int),
                    color,
                ),
                ..old(self)@
            }),
    {
        let w = self.w as i128;
        proof {
            let yi = y as int;
            let wi = w as int;
            if yi >= 0 {
                vstd::arithmetic::mul::lemma_mul_inequality(yi, 0x8000_0000_0000_0000, wi);
                vstd::arithmetic::mul::lemma_mul_inequality(0, yi, wi);
            } else {
                vstd::arithmetic::mul::lemma_mul_inequality(-0x8000_0000_0000_0000, yi, wi);
                vstd::arithmetic::mul::lemma_mul_inequality(yi, 0, wi);
            }
            vstd::arithmetic::mul::lemma_mul_inequality(wi, 0x8000_0000, 0x8000_0000_0000_0000);
            vstd::arithmetic::mul::lemma_mul_is_commutative(yi, wi);
        }
        let idx = w * (y as i128) + (x as i128);
        assert(idx == pixel_index(self@.width, x as int, y as int));
        assert(0 <= idx < self.output.len());
        let i = idx as usize;
        assert(i as int == idx);
        self.output.set(i, color);
    }

    /// Sets pixel `(x, y)` to `color`.
    pub fn pixel(&mut self, x: i32, y: i32, color: Color)
        requires
            old(self).wf(),
            on_screen(old(self)@.width, old(self)@.height, x as int, y as int),
        ensures
            final(self).wf(),
            final(self)@ == (DisplayView {
                frame: old(self)@.frame.update(
                    pixel_index(old(self)@.width, x as int, y as int),
                    color,
                ),
                ..old(self)@
            }),
    {
        self.put_pixel(x as i64, y as i64, color);
    }

    /// Paints one point and records it in the set of painted points.
    fn paint_point(
        &mut self,
        x: i64,
        y: i64,
        color: Color,
        Ghost(start): Ghost<Seq<Color>>,
        Ghost(pts): Ghost<Set<(int, int)>>,
    )
        requires
            old(self).wf(),
            on_screen(old(self)@.width, old(self)@.height, x as int, y as int),
            old(self)@.frame == painted(start, old(self)@.width, pts, color),
        ensures
            final(self).wf(),
            final(self)@.frame == painted(start, old(self)@.width, pts.insert((x as int, y as int)), color),
            final(self)@.width == old(self)@.width,
            final(self)@.height == old(self)@.height,
            final(self)@.scale == old(self)@.scale,
            final(self)@.font == old(self)@.font,
    {
        proof {
            lemma_paint_one(start, self@.width, pts, (x as int, y as int), color);
        }
        self.put_pixel(x, y, color);
    }

    /// Scrolls the screen up by `rows` text rows of the display's scale.
    pub fn scroll(&mut self, rows: usize, color: Color)
        requires
            old(self).wf(),
            rows * old(self)@.scale <= usize::MAX,
        ensures
            final(self).wf(),
            final(self)@ == (DisplayView {
                frame: scrolled(
                    old(self)@.frame,
                    old(self)@.width,
                    old(self)@.height,
                    rows * old(self)@.scale,
                    color,
                ),
                ..old(self)@
            }),
    {
        let scale = self.scale as usize;
        self.inner_scroll(rows * scale, color);
    }

    fn inner_scroll(&mut self, rows: usize, color: Color)
        requires
            old(self).wf(),
        ensures
            final(self).wf(),
            final(self)@ == (DisplayView {
                frame: scrolled(
                    old(self)@.frame,
                    old(self)@.width,
                    old(self)@.height,
                    rows as int,
                    color,
                ),
                ..old(self)@
            }),
    {
        let width = self.w as usize;
        let height = self.h as usize;
        if rows > 0 && rows < height {
            let ghost start = self@.frame;
            proof {
                vstd::arithmetic::mul::lemma_mul_inequality(rows as int, height as int, width as int);
                vstd::arithmetic::mul::lemma_mul_is_commutative(height as int, width as int);
            }
            let total = self.output.len();
            let off1 = rows * width;
            let off2 = total - off1;
            let mut i: usize = 0;
            while i < off2
                invariant
                    self.wf(),
                    self@.width == old(self)@.width,
                    self@.height == old(self)@.height,
                    self@.scale == old(self)@.scale,
                    self@.font == old(self)@.font,
                    start == old(self)@.frame,
                    total == start.len(),
                    off2 == total - off1,
                    off1 <= total,
                    0 <= i <= off2,
                    self@.frame.len() == total,
                    forall|j: int| 0 <= j < i ==> #[trigger] self@.frame[j] == start[j + off1],
                    forall|j: int| i <= j < total ==> #[trigger] self@.frame[j] == start[j],
                decreases off2 - i,
            {
                let v = self.output[i + off1];
                self.output.set(i, v);
                i = i + 1;
            }
            while i < total
                invariant
                    self.wf(),
                    self@.width == old(self)@.width,
                    self@.height == old(self)@.height,
                    self@.scale == old(self)@.scale,
                    self@.font == old(self)@.font,
                    start == old(self)@.frame,
                    total == start.len(),
                    off2 == total - off1,
                    off1 <= total,
                    off2 <= i <= total,
                    self@.frame.len() == total,
                    forall|j: int| 0 <= j < off2 ==> #[trigger] self@.frame[j] == start[j + off1],
                    forall|j: int| off2 <= j < i ==> #[trigger] self@.frame[j] == color,
                decreases total - i,
            {
                self.output.set(i, color);
                i = i + 1;
            }
            proof {
                assert(self@.frame =~= scrolled(start, width as int, height as int, rows as int, color));
            }
        }
    }

    /// Draws a text from `(x, y)`, one 8-pixel-wide cell per character.
    pub fn string(&mut self, x: i32, y: i32, s: &str, color: Color)
        requires
            old(self).wf(),
            x + 8 * s@.len() <= i32::MAX,
            all_on_screen(
                old(self)@.width,
                old(self)@.height,
                text_points(old(self)@.font, s@, x as int, y as int),
            ),
        ensures
            final(self).wf(),
            final(self)@ == (DisplayView {
                frame: painted(
                    old(self)@.frame,
                    old(self)@.width,
                    text_points(old(self)@.font, s@, x as int, y as int),
                    color,
                ),
                ..old(self)@
            }),
    {
        let ghost start = self@.frame;
        let ghost font = self@.font;
        let ghost w = self@.width;
        let ghost text = s@;
        let mut cx: i64 = x as i64;
        let mut n: usize = 0;
        proof {
            lemma_paint_empty(start, w, color);
            assert(text.take(0) =~= Seq::<char>::empty());
            broadcast use vstd::string::axiom_spec_iter;
        }
        for c in it: s.chars()
            invariant
                self.wf(),
                self@.width == old(self)@.width,
                self@.height == old(self)@.height,
                self@.scale == old(self)@.scale,
                self@.font == font,
                font == old(self)@.font,
                w == old(self)@.width,
                start == old(self)@.frame,
                text == s@,
                it.seq() == text,
                n == it.index(),
                n <= text.len(),
                cx == x + 8 * n,
                x + 8 * text.len() <= i32::MAX,
                all_on_screen(self@.width, self@.height, text_points(font, text, x as int, y as int)),
                self@.frame == painted(start, w, text_points(font, text.take(n as int), x as int, y as int), color),
        {
            proof {
                lemma_text_points_prefix(font, text, x as int, y as int, n as int);
                lemma_text_points_subset(font, text, x as int, y as int, n as int);
                lemma_paint_union(
                    start,
                    w,
                    text_points(font, text.take(n as int), x as int, y as int),
                    glyph_points(font, text[n as int], x + 8 * n, y as int),
                    color,
                );
            }
            assert(c == text[n as int]);
            self.draw_char(cx, y as i64, c, color);
            cx = cx + 8;
            n = n + 1;
        }
        proof {
            assert(text.take(text.len() as int) =~= text);
        }
    }

    /// Draws the line from `(x1, y1)` to `(x2, y2)`.
    pub fn line(&mut self, x1: i32, y1: i32, x2: i32, y2: i32, color: Color)
        requires
            old(self).wf(),
            all_on_screen(
                old(self)@.width,
                old(self)@.height,
                line_points(x1 as int, y1 as int, x2 as int, y2 as int),
            ),
        ensures
            final(self).wf(),
            final(self)@ == (DisplayView {
                frame: painted(
                    old(self)@.frame,
                    old(self)@.width,
                    line_points(x1 as int, y1 as int, x2 as int, y2 as int),
                    color,
                ),
                ..old(self)@
            }),
    {
        self.inner_line(x1, y1, x2, y2, color);
    }

    /// Bresenham's line from `(x1, y1)` to `(x2, y2)`.
    pub fn inner_line(&mut self, x1: i32, y1: i32, x2: i32, y2: i32, color: Color)
        requires
            old(self).wf(),
            all_on_screen(
                old(self)@.width,
                old(self)@.height,
                line_points(x1 as int, y1 as int, x2 as int, y2 as int),
            ),
        ensures
            final(self).wf(),
            final(self)@ == (DisplayView {
                frame: painted(
                    old(self)@.frame,
                    old(self)@.width,
                    line_points(x1 as int, y1 as int, x2 as int, y2 as int),
                    color,
                ),
                ..old(self)@
            }),
    {
        self.draw_line(x1 as i64, y1 as i64, x2 as i64, y2 as i64, color);
    }

    /// Bresenham's line from `(x1, y1)` to `(x2, y2)`, on coordinates wide
    /// enough for the chords of a circle.
    fn draw_line(&mut self, x1: i64, y1: i64, x2: i64, y2: i64, color: Color)
        requires
            old(self).wf(),
            -0x100_0000_0000 <= x1 <= 0x100_0000_0000,
            -0x100_0000_0000 <= y1 <= 0x100_0000_0000,
            -0x100_0000_0000 <= x2 <= 0x100_0000_0000,
            -0x100_0000_0000 <= y2 <= 0x100_0000_0000,
            all_on_screen(
                old(self)@.width,
                old(self)@.height,
                line_points(x1 as int, y1 as int, x2 as int, y2 as int),
            ),
        ensures
            final(self).wf(),
            final(self)@ == (DisplayView {
                frame: painted(
                    old(self)@.frame,
                    old(self)@.width,
                    line_points(x1 as int, y1 as int, x2 as int, y2 as int),
                    color,
                ),
                ..old(self)@
            }),
    {
        let ghost start = self@.frame;
        let ghost w = self@.width;
        let ghost k = line_course(x1 as int, y1 as int, x2 as int, y2 as int);
        let ghost pts = line_points(x1 as int, y1 as int, x2 as int, y2 as int);
        let dx: i64 = if x1 > x2 { x1 - x2 } else { x2 - x1 };
        let dy: i64 = if y1 > y2 { y1 - y2 } else { y2 - y1 };
        let sx: i64 = if x1 < x2 { 1 } else { -1 };
        let sy: i64 = if y1 < y2 { 1 } else { -1 };
        let mut err: i128 = if dx > dy { (dx / 2) as i128 } else { -((dy / 2) as i128) };
        let ghost e0 = err as int;
        let mut x = x1;
        let mut y = y1;
        let ghost mut a: int = 0;
        let ghost mut b: int = 0;
        let ghost mut fuel: nat = (dx + dy + 1) as nat;
        let ghost mut drawn: Set<(int, int)> = Set::empty();
        proof {
            lemma_paint_empty(start, w, color);
            assert(pts.contains((x1 as int, y1 as int)));
        }
        self.paint_point(x, y, color, Ghost(start), Ghost(drawn));
        proof {
            drawn = drawn.insert((x as int, y as int));
            assert(pts =~= drawn.union(line_walk(k, x as int, y as int, err as int, fuel)));
        }
        while x != x2 || y != y2
            invariant
                self.wf(),
                self@.width == old(self)@.width,
                self@.height == old(self)@.height,
                self@.scale == old(self)@.scale,
                self@.font == old(self)@.font,
                w == old(self)@.width,
                start == old(self)@.frame,
                k == line_course(x1 as int, y1 as int, x2 as int, y2 as int),
                pts == line_points(x1 as int, y1 as int, x2 as int, y2 as int),
                all_on_screen(self@.width, self@.height, pts),
                -0x100_0000_0000 <= x1 <= 0x100_0000_0000,
                -0x100_0000_0000 <= y1 <= 0x100_0000_0000,
                -0x100_0000_0000 <= x2 <= 0x100_0000_0000,
                -0x100_0000_0000 <= y2 <= 0x100_0000_0000,
                dx == k.dx,
                dy == k.dy,
                sx == k.sx,
                sy == k.sy,
                e0 == line_start_err(k),
                0 <= a <= dx,
                0 <= b <= dy,
                x == x1 + sx * a,
                y == y1 + sy * b,
                err == e0 - a * dy + b * dx,
                fuel >= (dx - a) + (dy - b) + 1,
                drawn.contains((x as int, y as int)),
                pts == drawn.union(line_walk(k, x as int, y as int, err as int, fuel)),
                self@.frame == painted(start, w, drawn, color),
            decreases (dx - a) + (dy - b),
        {
            proof {
                assert(a < dx || b < dy) by {
                    if a == dx && b == dy {
                        assert(x == x2 && y == y2);
                    }
                }
                lemma_line_step(dx as int, dy as int, a, b, e0, err as int);
                assert(a * dy <= dx * dy) by (nonlinear_arith)
                    requires
                        0 <= a <= dx,
                        0 <= dy,
                ;
                assert(b * dx <= dy * dx) by (nonlinear_arith)
                    requires
                        0 <= b <= dy,
                        0 <= dx,
                ;
                assert(dx * dy <= 0x1000_0000_0000 * 0x1000_0000_0000) by (nonlinear_arith)
                    requires
                        0 <= dx <= 0x1000_0000_0000,
                        0 <= dy <= 0x1000_0000_0000,
                ;
                assert(dy * dx == dx * dy) by (nonlinear_arith);
            }
            let ghost old_walk = line_walk(k, x as int, y as int, err as int, fuel);
            let ghost old_p = (x as int, y as int);
            let e2 = 2 * err;
            if e2 > -(dx as i128) {
                err = err - dy as i128;
                x = x + sx;
                proof {
                    assert((a + 1) * dy == a * dy + dy) by (nonlinear_arith);
                    a = a + 1;
                }
            }
            if e2 < dy as i128 {
                err = err + dx as i128;
                y = y + sy;
                proof {
                    assert((b + 1) * dx == b * dx + dx) by (nonlinear_arith);
                    b = b + 1;
                }
            }
            proof {
                fuel = (fuel - 1) as nat;
                let new_walk = line_walk(k, x as int, y as int, err as int, fuel);
                assert(old_walk == new_walk.insert(old_p));
                assert(pts =~= drawn.union(new_walk));
                assert(new_walk.contains((x as int, y as int)));
            }
            assert(pts.contains((x as int, y as int)));
            self.paint_point(x, y, color, Ghost(start), Ghost(drawn));
            proof {
                drawn = drawn.insert((x as int, y as int));
                assert(pts =~= drawn.union(line_walk(k, x as int, y as int, err as int, fuel)));
            }
        }
        proof {
            assert(line_walk(k, x as int, y as int, err as int, fuel) =~= set![(x as int, y as int)]);
            assert(pts =~= drawn);
        }
    }

    /// Draws the circle of center `(x0, y0)` and radius `radius`, outlined
    /// or filled; a negative radius always fills the inside.
    pub fn circle(&mut self, x0: i32, y0: i32, radius: i32, filled: bool, color: Color)
        requires
            old(self).wf(),
            all_on_screen(
                old(self)@.width,
                old(self)@.height,
                circle_points(x0 as int, y0 as int, radius as int, filled),
            ),
        ensures
            final(self).wf(),
            final(self)@ == (DisplayView {
                frame: painted(
                    old(self)@.frame,
                    old(self)@.width,
                    circle_points(x0 as int, y0 as int, radius as int, filled),
                    color,
                ),
                ..old(self)@
            }),
    {
        self.inner_circle(x0, y0, radius, filled, color);
    }

    /// Draws the line between two points and records its points.
    fn paint_line(
        &mut self,
        x1: i64,
        y1: i64,
        x2: i64,
        y2: i64,
        color: Color,
        Ghost(start): Ghost<Seq<Color>>,
        Ghost(pts): Ghost<Set<(int, int)>>,
    )
        requires
            old(self).wf(),
            -0x100_0000_0000 <= x1 <= 0x100_0000_0000,
            -0x100_0000_0000 <= y1 <= 0x100_0000_0000,
            -0x100_0000_0000 <= x2 <= 0x100_0000_0000,
            -0x100_0000_0000 <= y2 <= 0x100_0000_0000,
            all_on_screen(
                old(self)@.width,
                old(self)@.height,
                line_points(x1 as int, y1 as int, x2 as int, y2 as int),
            ),
            old(self)@.frame == painted(start, old(self)@.width, pts, color),
        ensures
            final(self).wf(),
            final(self)@.frame == painted(
                start,
                old(self)@.width,
                pts.union(line_points(x1 as int, y1 as int, x2 as int, y2 as int)),
                color,
            ),
            final(self)@.width == old(self)@.width,
            final(self)@.height == old(self)@.height,
            final(self)@.scale == old(self)@.scale,
            final(self)@.font == old(self)@.font,
    {
        proof {
            lemma_paint_union(
                start,
                self@.width,
                pts,
                line_points(x1 as int, y1 as int, x2 as int, y2 as int),
                color,
            );
        }
        self.draw_line(x1, y1, x2, y2, color);
    }

    /// Paints the points of one step of the midpoint circle and records them.
    fn paint_ring(
        &mut self,
        cx: i64,
        cy: i64,
        x: i64,
        y: i64,
        filled: bool,
        color: Color,
        Ghost(start): Ghost<Seq<Color>>,
        Ghost(drawn): Ghost<Set<(int, int)>>,
    )
        requires
            old(self).wf(),
            -0x8000_0000 <= cx < 0x8000_0000,
            -0x8000_0000 <= cy < 0x8000_0000,
            -0x1_0000_0000 <= x <= 0x1_0000_0000,
            -0x1_0000_0000 <= y <= 0x1_0000_0000,
            all_on_screen(
                old(self)@.width,
                old(self)@.height,
                circle_ring(cx as int, cy as int, x as int, y as int, filled),
            ),
            old(self)@.frame == painted(start, old(self)@.width, drawn, color),
        ensures
            final(self).wf(),
            final(self)@.frame == painted(
                start,
                old(self)@.width,
                drawn.union(circle_ring(cx as int, cy as int, x as int, y as int, filled)),
                color,
            ),
            final(self)@.width == old(self)@.width,
            final(self)@.height == old(self)@.height,
            final(self)@.scale == old(self)@.scale,
            final(self)@.font == old(self)@.font,
    {
        let ghost w = self@.width;
        let ghost ring = circle_ring(cx as int, cy as int, x as int, y as int, filled);
        let ghost mut drawn = drawn;
        proof {
            if filled {
                lemma_on_screen_subset(w, self@.height, line_points(cx - x, cy + y, cx + x, cy + y), ring);
                lemma_on_screen_subset(w, self@.height, line_points(cx - x, cy - y, cx + x, cy - y), ring);
                lemma_on_screen_subset(w, self@.height, line_points(cx - y, cy + x, cx + y, cy + x), ring);
                lemma_on_screen_subset(w, self@.height, line_points(cx - y, cy - x, cx + y, cy - x), ring);
            }
        }
        let ghost before = drawn;
        if filled {
            proof {
                assert(line_points(cx - x, cy + y, cx + x, cy + y).subset_of(ring));
                assert(line_points(cx - x, cy - y, cx + x, cy - y).subset_of(ring));
                assert(line_points(cx - y, cy + x, cx + y, cy + x).subset_of(ring));
                assert(line_points(cx - y, cy - x, cx + y, cy - x).subset_of(ring));
            }
            self.paint_line(cx - x, cy + y, cx + x, cy + y, color, Ghost(start), Ghost(drawn));
            proof {
                drawn = drawn.union(line_points(cx - x, cy + y, cx + x, cy + y));
            }
            self.paint_line(cx - x, cy - y, cx + x, cy - y, color, Ghost(start), Ghost(drawn));
            proof {
                drawn = drawn.union(line_points(cx - x, cy - y, cx + x, cy - y));
            }
            self.paint_line(cx - y, cy + x, cx + y, cy + x, color, Ghost(start), Ghost(drawn));
            proof {
                drawn = drawn.union(line_points(cx - y, cy + x, cx + y, cy + x));
            }
            self.paint_line(cx - y, cy - x, cx + y, cy - x, color, Ghost(start), Ghost(drawn));
            proof {
                drawn = drawn.union(line_points(cx - y, cy - x, cx + y, cy - x));
                assert(drawn =~= before.union(ring));
            }
        } else {
            assert(ring.contains((cx + x, cy + y)));
            self.paint_point(cx + x, cy + y, color, Ghost(start), Ghost(drawn));
            proof { drawn = drawn.insert((cx + x, cy + y)); }
            assert(ring.contains((cx + x, cy - y)));
            self.paint_point(cx + x, cy - y, color, Ghost(start), Ghost(drawn));
            proof { drawn = drawn.insert((cx + x, cy - y)); }
            assert(ring.contains((cx - x, cy + y)));
            self.paint_point(cx - x, cy + y, color, Ghost(start), Ghost(drawn));
            proof { drawn = drawn.insert((cx - x, cy + y)); }
            assert(ring.contains((cx - x, cy - y)));
            self.paint_point(cx - x, cy - y, color, Ghost(start), Ghost(drawn));
            proof { drawn = drawn.insert((cx - x, cy - y)); }
            assert(ring.contains((cx + y, cy + x)));
            self.paint_point(cx + y, cy + x, color, Ghost(start), Ghost(drawn));
            proof { drawn = drawn.insert((cx + y, cy + x)); }
            assert(ring.contains((cx + y, cy - x)));
            self.paint_point(cx + y, cy - x, color, Ghost(start), Ghost(drawn));
            proof { drawn = drawn.insert((cx + y, cy - x)); }
            assert(ring.contains((cx - y, cy + x)));
            self.paint_point(cx - y, cy + x, color, Ghost(start), Ghost(drawn));
            proof { drawn = drawn.insert((cx - y, cy + x)); }
            assert(ring.contains((cx - y, cy - x)));
            self.paint_point(cx - y, cy - x, color, Ghost(start), Ghost(drawn));
            proof {
                drawn = drawn.insert((cx - y, cy - x));
                assert(drawn =~= before.union(ring));
            }
        }
    }

    /// The midpoint circle algorithm; a negative radius fills the inside.
    pub fn inner_circle(&mut self, x0: i32, y0: i32, radius: i32, filled: bool, color: Color)
        requires
            old(self).wf(),
            all_on_screen(
                old(self)@.width,
                old(self)@.height,
                circle_points(x0 as int, y0 as int, radius as int, filled),
            ),
        ensures
            final(self).wf(),
            final(self)@ == (DisplayView {
                frame: painted(
                    old(self)@.frame,
                    old(self)@.width,
                    circle_points(x0 as int, y0 as int, radius as int, filled),
                    color,
                ),
                ..old(self)@
            }),
    {
        let ghost start = self@.frame;
        let ghost w = self@.width;
        let ghost pts = circle_points(x0 as int, y0 as int, radius as int, filled);
        let fill = filled || radius < 0;
        let cx = x0 as i64;
        let cy = y0 as i64;
        let r = radius as i64;
        let mut x: i64 = 1;
        let mut y: i64 = if r < 0 { -r } else { r };
        let ghost mut drawn: Set<(int, int)> = Set::empty();
        proof {
            lemma_paint_empty(start, w, color);
        }
        let ghost first = circle_start(x0 as int, y0 as int, radius as int, fill);
        proof {
            assert(first.subset_of(pts));
        }
        if fill {
            proof {
                lemma_on_screen_subset(w, self@.height, line_points(cx as int, r + cy, cx as int, -r + cy), pts);
                lemma_on_screen_subset(w, self@.height, line_points(r + cx, cy as int, -r + cx, cy as int), pts);
            }
            self.paint_line(cx, r + cy, cx, -r + cy, color, Ghost(start), Ghost(drawn));
            proof {
                drawn = drawn.union(line_points(cx as int, r + cy, cx as int, -r + cy));
            }
            self.paint_line(r + cx, cy, -r + cx, cy, color, Ghost(start), Ghost(drawn));
            proof {
                drawn = drawn.union(line_points(r + cx, cy as int, -r + cx, cy as int));
            }
        } else {
            assert(pts.contains((cx as int, r + cy)));
            self.paint_point(cx, r + cy, color, Ghost(start), Ghost(drawn));
            proof {
                drawn = drawn.insert((cx as int, r + cy));
            }
            assert(pts.contains((cx as int, -r + cy)));
            self.paint_point(cx, -r + cy, color, Ghost(start), Ghost(drawn));
            proof {
                drawn = drawn.insert((cx as int, -r + cy));
            }
            assert(pts.contains((r + cx, cy as int)));
            self.paint_point(r + cx, cy, color, Ghost(start), Ghost(drawn));
            proof {
                drawn = drawn.insert((r + cx, cy as int));
            }
            assert(pts.contains((-r + cx, cy as int)));
            self.paint_point(-r + cx, cy, color, Ghost(start), Ghost(drawn));
            proof {
                drawn = drawn.insert((-r + cx, cy as int));
            }
        }
        proof {
            assert(drawn =~= first);
        }
        let mut distance: i128 = -(r as i128);
        while x <= y
            invariant
                self.wf(),
                self@.width == old(self)@.width,
                self@.height == old(self)@.height,
                self@.scale == old(self)@.scale,
                self@.font == old(self)@.font,
                w == old(self)@.width,
                start == old(self)@.frame,
                pts == circle_points(x0 as int, y0 as int, radius as int, filled),
                fill == circle_filled(radius as int, filled),
                all_on_screen(self@.width, self@.height, pts),
                cx == x0,
                cy == y0,
                1 <= x <= y + 2,
                y <= 0x8000_0000,
                -0x8000_0000 - x * 0x4_0000_0000 <= distance <= 0x8000_0000 + x * 0x4_0000_0000,
                pts == drawn.union(circle_arc(cx as int, cy as int, x as int, y as int, distance as int, fill)),
                self@.frame == painted(start, w, drawn, color),
            decreases y - x + 2,
        {
            let ghost arc = circle_arc(cx as int, cy as int, x as int, y as int, distance as int, fill);
            let (ny, nd) = circle_step(x, y, distance);
            y = ny;
            distance = nd;
            let ghost ring = circle_ring(cx as int, cy as int, x as int, y as int, fill);
            proof {
                assert(arc =~= ring.union(
                    circle_arc(cx as int, cy as int, x + 1, y as int, distance as int, fill),
                ));
                assert(ring.subset_of(pts));
                lemma_on_screen_subset(w, self@.height, ring, pts);
            }
            self.paint_ring(cx, cy, x, y, fill, color, Ghost(start), Ghost(drawn));
            proof {
                drawn = drawn.union(ring);
            }
            x = x + 1;
            proof {
                assert(pts =~= drawn.union(
                    circle_arc(cx as int, cy as int, x as int, y as int, distance as int, fill),
                ));
            }
        }
        proof {
            assert(pts =~= drawn);
        }
    }

    /// Draws character `c` with its top left corner at `(x, y)`, using the
    /// display's font.
    pub fn char(&mut self, x: i32, y: i32, c: char, color: Color)
        requires
            old(self).wf(),
            all_on_screen(
                old(self)@.width,
                old(self)@.height,
                glyph_points(old(self)@.font, c, x as int, y as int),
            ),
        ensures
            final(self).wf(),
            final(self)@ == (DisplayView {
                frame: painted(
                    old(self)@.frame,
                    old(self)@.width,
                    glyph_points(old(self)@.font, c, x as int, y as int),
                    color,
                ),
                ..old(self)@
            }),
    {
        self.draw_char(x as i64, y as i64, c, color);
    }

    fn draw_char(&mut self, x: i64, y: i64, c: char, color: Color)
        requires
            old(self).wf(),
            -0x1_0000_0000_0000 <= x <= 0x1_0000_0000_0000,
            -0x1_0000_0000_0000 <= y <= 0x1_0000_0000_0000,
            all_on_screen(
                old(self)@.width,
                old(self)@.height,
                glyph_points(old(self)@.font, c, x as int, y as int),
            ),
        ensures
            final(self).wf(),
            final(self)@ == (DisplayView {
                frame: painted(
                    old(self)@.frame,
                    old(self)@.width,
                    glyph_points(old(self)@.font, c, x as int, y as int),
                    color,
                ),
                ..old(self)@
            }),
    {
        let ghost start = self@.frame;
        let ghost font = self@.font;
        let ghost w = self@.width;
        let mut offset: usize = (c as u32 as usize) * 16;
        let mut row: u8 = 0;
        proof {
            lemma_paint_empty(start, w, color);
            assert(glyph_prefix(font, c, x as int, y as int, 0, 0) =~= Set::empty());
        }
        while row < 16
            invariant
                self.wf(),
                self@.width == old(self)@.width,
                self@.height == old(self)@.height,
                self@.scale == old(self)@.scale,
                self@.font == font,
                font == old(self)@.font,
                w == old(self)@.width,
                start == old(self)@.frame,
                -0x1_0000_0000_0000 <= x <= 0x1_0000_0000_0000,
                -0x1_0000_0000_0000 <= y <= 0x1_0000_0000_0000,
                all_on_screen(self@.width, self@.height, glyph_points(font, c, x as int, y as int)),
                row <= 16,
                offset == (c as int) * 16 + row,
                self@.frame == painted(start, w, glyph_prefix(font, c, x as int, y as int, row as int, 0), color),
            decreases 16 - row,
        {
            let row_data: u8 = if offset < self.font.len() {
                self.font[offset]
            } else {
                0
            };
            assert(row_data == font_row(font, c, row as int));
            let mut col: u8 = 0;
            while col < 8
                invariant
                    self.wf(),
                    self@.width == old(self)@.width,
                    self@.height == old(self)@.height,
                    self@.scale == old(self)@.scale,
                    self@.font == font,
                    font == old(self)@.font,
                    w == old(self)@.width,
                    start == old(self)@.frame,
                    -0x1_0000_0000_0000 <= x <= 0x1_0000_0000_0000,
                    -0x1_0000_0000_0000 <= y <= 0x1_0000_0000_0000,
                    all_on_screen(self@.width, self@.height, glyph_points(font, c, x as int, y as int)),
                    row < 16,
                    col <= 8,
                    row_data == font_row(font, c, row as int),
                    self@.frame == painted(
                        start,
                        w,
                        glyph_prefix(font, c, x as int, y as int, row as int, col as int),
                        color,
                    ),
                decreases 8 - col,
            {
                let shift: u8 = 7 - col;
                let pixel = (row_data >> shift) & 1;
                let px = x + col as i64;
                let py = y + row as i64;
                let ghost before = glyph_prefix(font, c, x as int, y as int, row as int, col as int);
                if pixel > 0 {
                    assert(pixel == 1) by (bit_vector)
                        requires
                            pixel == (row_data >> shift) & 1,
                            pixel > 0,
                    ;
                    assert(glyph_points(font, c, x as int, y as int).contains((px as int, py as int)));
                    self.paint_point(px, py, color, Ghost(start), Ghost(before));
                    proof {
                        assert(before.insert((px as int, py as int)) =~= glyph_prefix(
                            font,
                            c,
                            x as int,
                            y as int,
                            row as int,
                            col + 1,
                        ));
                    }
                } else {
                    assert(pixel == 0) by (bit_vector)
                        requires
                            pixel == (row_data >> shift) & 1,
                            !(pixel > 0),
                    ;
                    proof {
                        assert(before =~= glyph_prefix(font, c, x as int, y as int, row as int, col + 1));
                    }
                }
                col = col + 1;
            }
            proof {
                assert(glyph_prefix(font, c, x as int, y as int, row as int, 8) =~= glyph_prefix(
                    font,
                    c,
                    x as int,
                    y as int,
                    row + 1,
                    0,
                ));
            }
            offset = offset + 1;
            row = row + 1;
        }
        proof {
            assert(glyph_prefix(font, c, x as int, y as int, 16, 0) =~= glyph_points(
                font,
                c,
                x as int,
                y as int,
            ));
        }
    }

    /// Fills the part of the rectangle at `(x, y)` of size `w` by `h` that
    /// lies on the screen; a color with alpha 0 draws nothing.
    pub fn rect(&mut self, x: i32, y: i32, w: u32, h: u32, color: Color)
        requires
            old(self).wf(),
        ensures
            final(self).wf(),
            final(self)@ == (DisplayView {
                frame: if alpha(color) == 0 {
                    old(self)@.frame
                } else {
                    painted(
                        old(self)@.frame,
                        old(self)@.width,
                        clipped_rect(
                            old(self)@.width,
                            old(self)@.height,
                            x as int,
                            y as int,
                            (w as i32) as int,
                            (h as i32) as int,
                        ),
                        color,
                    )
                },
                ..old(self)@
            }),
    {
        self.inner_rect(x, y, w, h, color)
    }

    /// Fills the rows and columns of the rectangle that lie on the screen,
    /// row by row; a color with alpha 0 draws nothing.
    pub fn inner_rect(&mut self, x: i32, y: i32, w: u32, h: u32, color: Color)
        requires
            old(self).wf(),
        ensures
            final(self).wf(),
            final(self)@ == (DisplayView {
                frame: if alpha(color) == 0 {
                    old(self)@.frame
                } else {
                    painted(
                        old(self)@.frame,
                        old(self)@.width,
                        clipped_rect(
                            old(self)@.width,
                            old(self)@.height,
                            x as int,
                            y as int,
                            (w as i32) as int,
                            (h as i32) as int,
                        ),
                        color,
                    )
                },
                ..old(self)@
            }),
    {
        let self_w = self.w as i64;
        let self_h = self.h as i64;
        let ww = (#[verifier::truncate] (w as i32)) as i64;
        let hh = (#[verifier::truncate] (h as i32)) as i64;
        let xx = x as i64;
        let yy = y as i64;

        let start_y = i64_max(0, i64_min(self_h - 1, yy));
        let end_y = i64_max(start_y, i64_min(self_h, yy + hh));
        let start_x = i64_max(0, i64_min(self_w - 1, xx));
        let end_x = i64_max(start_x, i64_min(self_w, xx + ww));

        let c = color.0;
        let alpha = (c >> 24) & 0xFF;
        assert((c >> 24) & 0xFF == c / 0x100_0000) by (bit_vector);
        if alpha == 0 {
            return ;
        }
        let ghost start = self@.frame;
        let ghost sw = self@.width;
        let ghost sh = self@.height;
        proof {
            lemma_paint_empty(start, sw, color);
            assert(rect_points(start_x as int, start_y as int, end_x as int, start_y as int) =~= Set::empty());
        }
        let mut row = start_y;
        while row < end_y
            invariant
                self.wf(),
                self@.width == sw,
                self@.height == sh,
                self@.scale == old(self)@.scale,
                self@.font == old(self)@.font,
                sw == self_w,
                sh == self_h,
                0 <= start_x <= end_x <= self_w,
                end_x > start_x ==> end_x <= self_w && start_x < self_w,
                0 <= start_y <= row <= end_y,
                end_y <= self_h || end_y == start_y,
                self@.frame == painted(
                    start,
                    sw,
                    rect_points(start_x as int, start_y as int, end_x as int, row as int),
                    color,
                ),
            decreases end_y - row,
        {
            let mut col = start_x;
            proof {
                assert(rect_points(start_x as int, start_y as int, end_x as int, row as int).union(
                    rect_points(start_x as int, row as int, start_x as int, row + 1),
                ) =~= rect_points(start_x as int, start_y as int, end_x as int, row as int));
            }
            while col < end_x
                invariant
                    self.wf(),
                    self@.width == sw,
                    self@.height == sh,
                    self@.scale == old(self)@.scale,
                    self@.font == old(self)@.font,
                    sw == self_w,
                    sh == self_h,
                    0 <= start_x <= col <= end_x <= self_w,
                    0 <= start_y <= row < end_y <= self_h,
                    self@.frame == painted(
                        start,
                        sw,
                        rect_points(start_x as int, start_y as int, end_x as int, row as int).union(
                            rect_points(start_x as int, row as int, col as int, row + 1),
                        ),
                        color,
                    ),
                decreases end_x - col,
            {
                proof {
                    assert(0 <= pixel_index(sw, col as int, row as int) < sw * sh)
                        by (nonlinear_arith)
                        requires
                            0 <= col < sw,
                            0 <= row < sh,
                    ;
                }
                let ghost before = rect_points(start_x as int, start_y as int, end_x as int, row as int).union(
                    rect_points(start_x as int, row as int, col as int, row + 1),
                );
                self.paint_point(col, row, color, Ghost(start), Ghost(before));
                proof {
                    assert(before.insert((col as int, row as int)) =~= rect_points(
                        start_x as int,
                        start_y as int,
                        end_x as int,
                        row as int,
                    ).union(rect_points(start_x as int, row as int, col + 1, row + 1)));
                }
                col = col + 1;
            }
            proof {
                assert(rect_points(start_x as int, start_y as int, end_x as int, row as int).union(
                    rect_points(start_x as int, row as int, end_x as int, row + 1),
                ) =~= rect_points(start_x as int, start_y as int, end_x as int, row + 1));
            }
            row = row + 1;
        }
        proof {
            assert(rect_points(start_x as int, start_y as int, end_x as int, end_y as int)
                =~= clipped_rect(sw, sh, x as int, y as int, (w as i32) as int, (h as i32) as int));
        }
    }
}

fn i64_min(a: i64, b: i64) -> (r: i64)
    ensures
        r == min(a as int, b as int),
{
    if a < b {
        a
    } else {
        b
    }
}

fn i64_max(a: i64, b: i64) -> (r: i64)
    ensures
        r == max(a as int, b as int),
{
    if a < b {
        b
    } else {
        a
    }
}

} // verus!
