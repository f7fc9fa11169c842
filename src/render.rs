use vstd::prelude::*;
use crate::data_types::{BBox, Linedef, Node, Vertex};

verus! {

/// Width and height of the target image, in pixels.
pub const WIDTH: i64 = 640;
pub const HEIGHT: i64 = 480;

/// Map units per pixel.
pub const SCALE: i64 = 8;

/// Where map-space origin lands on screen: `OFFSET_X` columns from the left,
/// `-OFFSET_Y` rows from the top.
pub const OFFSET_X: i64 = 160;
pub const OFFSET_Y: i64 = 250;

/// How map space lands on the image: map units per pixel, the column and
/// (negated) row onto which the map origin projects, and the image's size in
/// pixels.
#[derive(Clone, Copy, Debug, PartialEq, Eq, Structural)]
pub struct Viewport {
    pub scale: i64,
    pub offset_x: i64,
    pub offset_y: i64,
    pub width: i64,
    pub height: i64,
}

/// The viewport of a 640 by 480 image at eight map units per pixel.
pub open spec fn standard_view() -> Viewport {
    Viewport { scale: SCALE, offset_x: OFFSET_X, offset_y: OFFSET_Y, width: WIDTH, height: HEIGHT }
}

impl Viewport {
    /// Scale, offsets and size are within the bounds the projection supports.
    pub open spec fn wf(&self) -> bool {
        &&& 1 <= self.scale <= 0x1_0000
        &&& -0x1_0000 <= self.offset_x <= 0x1_0000
        &&& -0x1_0000 <= self.offset_y <= 0x1_0000
        &&& 1 <= self.width <= 0x1_0000
        &&& 1 <= self.height <= 0x1_0000
    }

    pub fn standard() -> (r: Viewport)
        ensures
            r == standard_view(),
            r.wf(),
    {
        Viewport { scale: SCALE, offset_x: OFFSET_X, offset_y: OFFSET_Y, width: WIDTH, height: HEIGHT }
    }

    pub fn is_valid(&self) -> (r: bool)
        ensures
            r == self.wf(),
    {
        1 <= self.scale && self.scale <= 0x1_0000 && -0x1_0000 <= self.offset_x && self.offset_x
            <= 0x1_0000 && -0x1_0000 <= self.offset_y && self.offset_y <= 0x1_0000 && 1
            <= self.width && self.width <= 0x1_0000 && 1 <= self.height && self.height <= 0x1_0000
    }
}

/// Division that truncates toward zero, as Rust's `/` does.
pub open spec fn trunc_div(x: int, d: int) -> int {
    if x >= 0 {
        x / d
    } else {
        -((-x) / d)
    }
}

pub open spec fn screen_x(v: Viewport, x: int) -> int {
    trunc_div(x, v.scale as int) + v.offset_x
}

pub open spec fn screen_y(v: Viewport, y: int) -> int {
    -v.offset_y - trunc_div(y, v.scale as int)
}

/// Byte offset of the RGBA pixel onto which map point `(x, y)` projects.
pub open spec fn pixel_offset(v: Viewport, x: int, y: int) -> int {
    4 * screen_x(v, x) + 4 * v.width * screen_y(v, y)
}

/// The frame after painting map point `(x, y)` with `col`: the pixel's four
/// bytes when they lie wholly inside the frame, nothing otherwise.
pub open spec fn put(v: Viewport, f: Seq<u8>, x: int, y: int, col: (u8, u8, u8)) -> Seq<u8> {
    let p = pixel_offset(v, x, y);
    if 0 <= p && p + 4 <= f.len() {
        f.update(p, col.0).update(p + 1, col.1).update(p + 2, col.2).update(p + 3, 255u8)
    } else {
        f
    }
}

/// Painting any point writes, if at all, only the four bytes at an offset
/// between zero and the frame's length less four.
pub proof fn lemma_put_in_bounds(v: Viewport, f: Seq<u8>, x: int, y: int, col: (u8, u8, u8))
    ensures
        put(v, f, x, y, col).len() == f.len(),
        forall|i: int|
            0 <= i < f.len() && put(v, f, x, y, col)[i] != f[i] ==> {
                &&& 0 <= pixel_offset(v, x, y) <= f.len() - 4
                &&& pixel_offset(v, x, y) <= i < pixel_offset(v, x, y) + 4
            },
{
}

/// The frame after painting each point of `pts` in order.
pub open spec fn put_all(v: Viewport, f: Seq<u8>, pts: Seq<(i32, i32)>, col: (u8, u8, u8)) -> Seq<u8>
    decreases pts.len(),
{
    if pts.len() == 0 {
        f
    } else {
        put(v, put_all(v, f, pts.drop_last(), col), pts.last().0 as int, pts.last().1 as int, col)
    }
}

/// A blank frame of `n` bytes: black, fully opaque.
pub open spec fn cleared(n: nat) -> Seq<u8> {
    Seq::new(n, |i: int| if i % 4 == 3 { 255u8 } else { 0u8 })
}

fn trunc_div_by(x: i64, d: i64) -> (r: i64)
    requires
        -0x1000_0000 <= x <= 0x1000_0000,
        1 <= d,
    ensures
        r == trunc_div(x as int, d as int),
        -0x1000_0000 <= r <= 0x1000_0000,
{
    if x >= 0 {
        assert(0 <= x / d <= x) by (nonlinear_arith)
            requires
                x >= 0,
                d >= 1,
        ;
        x / d
    } else {
        let m: i64 = -x;
        assert(0 <= m / d <= m) by (nonlinear_arith)
            requires
                m >= 0,
                d >= 1,
        ;
        -(m / d)
    }
}

fn plot_at(view: &Viewport, x: i32, y: i32, frame: &mut [u8], col: (u8, u8, u8))
    requires
        view.wf(),
        -0x1000_0000 <= x <= 0x1000_0000,
        -0x1000_0000 <= y <= 0x1000_0000,
    ensures
        final(frame)@ == put(*view, old(frame)@, x as int, y as int, col),
{
    let sx: i64 = trunc_div_by(x as i64, view.scale) + view.offset_x;
    let sy: i64 = -view.offset_y - trunc_div_by(y as i64, view.scale);
    let w: i64 = view.width;
    assert(-0x2000_0000 <= sy <= 0x2000_0000 && 1 <= w <= 0x1_0000 ==> -0x2000_0000_0000 <= sy * w
        <= 0x2000_0000_0000) by (nonlinear_arith);
    let p: i64 = sx * 4 + sy * w * 4;
    assert(p == 4 * sx + 4 * w * sy) by (nonlinear_arith)
        requires
            p == sx * 4 + sy * w * 4,
    ;
    let n: usize = frame.len();
    if p >= 0 && (p as u64) < n as u64 && (n as u64) - (p as u64) >= 4 {
        let q: usize = p as usize;
        frame[q] = col.0;
        frame[q + 1] = col.1;
        frame[q + 2] = col.2;
        frame[q + 3] = 255;
    }
}

/// Paints map point `(x, y)` in `col`, skipping it when its pixel falls
/// outside the frame, on the standard viewport.
pub fn plot(x: i16, y: i16, frame: &mut [u8], col: (u8, u8, u8))
    ensures
        final(frame)@ == put(standard_view(), old(frame)@, x as int, y as int, col),
{
    plot_at(&Viewport::standard(), x as i32, y as i32, frame, col);
}

/// Fills the frame with opaque black.
pub fn clear(screen: &mut [u8])
    ensures
        final(screen)@ == cleared(old(screen)@.len()),
{
    let n: usize = screen.len();
    let mut i: usize = 0;
    while i < n
        invariant
            n == screen@.len(),
            i <= n,
            forall|k: int| 0 <= k < i ==> screen@[k] == cleared(n as nat)[k],
        decreases n - i,
    {
        screen[i] = if i % 4 == 3 { 255 } else { 0 };
        i = i + 1;
    }
    assert(screen@ =~= cleared(n as nat));
}

/// The points that Bresenham's algorithm visits from `(x0, y0)` to `(x1, y1)`.
pub uninterp spec fn bresenham_line(x0: i16, y0: i16, x1: i16, y1: i16) -> Seq<(i32, i32)>;

/// The points of the circle of `radius` around `(cx, cy)`, as Bresenham's
/// circle algorithm yields them.
pub uninterp spec fn bresenham_circle(cx: i16, cy: i16, radius: i16) -> Seq<(i32, i32)>;

/// Relies on `line_drawing::Bresenham`: the points of the line, in the order
/// the iterator yields them; widened to `i32` so no step overflows.
#[verifier::external_body]
fn line_points(x0: i16, y0: i16, x1: i16, y1: i16) -> (r: Vec<(i32, i32)>)
    ensures
        r@ == bresenham_line(x0, y0, x1, y1),
{
    line_drawing::Bresenham::new((x0 as i32, y0 as i32), (x1 as i32, y1 as i32)).collect()
}

/// Relies on `line_drawing::BresenhamCircle`: the points of the circle, in the
/// order the iterator yields them; widened to `i32` so no step overflows.
#[verifier::external_body]
fn circle_points(cx: i16, cy: i16, radius: i16) -> (r: Vec<(i32, i32)>)
    ensures
        r@ == bresenham_circle(cx, cy, radius),
{
    line_drawing::BresenhamCircle::new(cx as i32, cy as i32, radius as i32).collect()
}

/// Paints each of `pts` in order.
pub fn plot_points(view: &Viewport, pts: &Vec<(i32, i32)>, frame: &mut [u8], col: (u8, u8, u8))
    requires
        view.wf(),
        forall|i: int|
            0 <= i < pts@.len() ==> -0x1000_0000 <= (#[trigger] pts@[i]).0 <= 0x1000_0000
                && -0x1000_0000 <= pts@[i].1 <= 0x1000_0000,
    ensures
        final(frame)@ == put_all(*view, old(frame)@, pts@, col),
{
    let mut i: usize = 0;
    while i < pts.len()
        invariant
            i <= pts@.len(),
            forall|k: int|
                0 <= k < pts@.len() ==> -0x1000_0000 <= (#[trigger] pts@[k]).0 <= 0x1000_0000
                    && -0x1000_0000 <= pts@[k].1 <= 0x1000_0000,
            view.wf(),
            frame@ == put_all(*view, old(frame)@, pts@.subrange(0, i as int), col),
        decreases pts@.len() - i,
    {
        let (x, y) = pts[i];
        assert(pts@.subrange(0, i + 1).drop_last() =~= pts@.subrange(0, i as int));
        plot_at(view, x, y, frame, col);
        i = i + 1;
    }
    assert(pts@.subrange(0, pts@.len() as int) =~= pts@);
}

/// Every point of `pts` lies in the 16-bit range widened by `r`.
pub open spec fn points_near_i16(pts: Seq<(i32, i32)>, r: int) -> bool {
    forall|i: int|
        0 <= i < pts.len() ==> -32768 - r <= (#[trigger] pts[i]).0 <= 32767 + r && -32768 - r
            <= pts[i].1 <= 32767 + r
}

/// The frame after drawing the line from `(x0, y0)` to `(x1, y1)`. A line's
/// points lie within its endpoints' box; one that strays is left undrawn.
pub open spec fn line_drawn(v: Viewport, f: Seq<u8>, x0: i16, y0: i16, x1: i16, y1: i16, col: (u8, u8, u8)) -> Seq<u8> {
    if points_near_i16(bresenham_line(x0, y0, x1, y1), 0) {
        put_all(v, f, bresenham_line(x0, y0, x1, y1), col)
    } else {
        f
    }
}

/// Draws the line from `(x0, y0)` to `(x1, y1)`.
pub fn draw_line(
    view: &Viewport,
    x0: i16,
    y0: i16,
    x1: i16,
    y1: i16,
    frame: &mut [u8],
    col: (u8, u8, u8),
)
    requires
        view.wf(),
    ensures
        final(frame)@ == line_drawn(*view, old(frame)@, x0, y0, x1, y1, col),
{
    let pts = line_points(x0, y0, x1, y1);
    if points_fit(&pts, 0) {
        plot_points(view, &pts, frame, col);
    }
}

/// The frame after drawing the four edges of `b`.
pub open spec fn box_drawn(v: Viewport, f: Seq<u8>, b: BBox, col: (u8, u8, u8)) -> Seq<u8> {
    let f1 = line_drawn(v, f, b.left, b.top, b.right, b.top, col);
    let f2 = line_drawn(v, f1, b.right, b.top, b.right, b.bottom, col);
    let f3 = line_drawn(v, f2, b.right, b.bottom, b.left, b.bottom, col);
    line_drawn(v, f3, b.left, b.bottom, b.left, b.top, col)
}

/// Draws the four edges of a bounding box.
pub fn draw_box(view: &Viewport, b: &BBox, frame: &mut [u8], col: (u8, u8, u8))
    requires
        view.wf(),
    ensures
        final(frame)@ == box_drawn(*view, old(frame)@, *b, col),
{
    draw_line(view, b.left, b.top, b.right, b.top, frame, col);
    draw_line(view, b.right, b.top, b.right, b.bottom, frame, col);
    draw_line(view, b.right, b.bottom, b.left, b.bottom, frame, col);
    draw_line(view, b.left, b.bottom, b.left, b.top, frame, col);
}

/// The frame after drawing, in order, each linedef whose two vertex indices
/// are in range; a linedef with a stray index is skipped.
pub open spec fn lines_drawn(v: Viewport, f: Seq<u8>, lines: Seq<Linedef>, verts: Seq<Vertex>) -> Seq<u8>
    decreases lines.len(),
{
    if lines.len() == 0 {
        f
    } else {
        let g = lines_drawn(v, f, lines.drop_last(), verts);
        let l = lines.last();
        if l.start_vertex_id < verts.len() && l.end_vertex_id < verts.len() {
            let a = verts[l.start_vertex_id as int];
            let b = verts[l.end_vertex_id as int];
            line_drawn(v, g, a.x, a.y, b.x, b.y, LINE_COLOR)
        } else {
            g
        }
    }
}

/// Colours of the wall lines, the viewpoint marker, and the root node's
/// front and back boxes.
pub const LINE_COLOR: (u8, u8, u8) = (255, 255, 255);
pub const PLAYER_COLOR: (u8, u8, u8) = (255, 0, 255);
pub const FRONT_BOX_COLOR: (u8, u8, u8) = (255, 0, 255);
pub const BACK_BOX_COLOR: (u8, u8, u8) = (128, 128, 0);

/// Radius of the viewpoint marker, in map units.
pub const PLAYER_RADIUS: i16 = 32;

/// Draws every linedef of the map whose vertices exist.
pub fn draw_lines(view: &Viewport, linedefs: &Vec<Linedef>, vertexes: &Vec<Vertex>, frame: &mut [u8])
    requires
        view.wf(),
    ensures
        final(frame)@ == lines_drawn(*view, old(frame)@, linedefs@, vertexes@),
{
    let mut i: usize = 0;
    while i < linedefs.len()
        invariant
            view.wf(),
            i <= linedefs@.len(),
            frame@ == lines_drawn(*view, old(frame)@, linedefs@.subrange(0, i as int), vertexes@),
        decreases linedefs@.len() - i,
    {
        let l = &linedefs[i];
        assert(linedefs@.subrange(0, i + 1).drop_last() =~= linedefs@.subrange(0, i as int));
        let v1 = l.start_vertex_id as usize;
        let v2 = l.end_vertex_id as usize;
        if v1 < vertexes.len() && v2 < vertexes.len() {
            let a = &vertexes[v1];
            let b = &vertexes[v2];
            draw_line(view, a.x, a.y, b.x, b.y, frame, LINE_COLOR);
        }
        i = i + 1;
    }
    assert(linedefs@.subrange(0, linedefs@.len() as int) =~= linedefs@);
}

/// The frame after drawing the viewpoint marker around `pos`.
pub open spec fn marker_drawn(v: Viewport, f: Seq<u8>, pos: (i16, i16)) -> Seq<u8> {
    let pts = bresenham_circle(pos.0, pos.1, PLAYER_RADIUS);
    if points_near_i16(pts, PLAYER_RADIUS as int) {
        put_all(v, f, pts, PLAYER_COLOR)
    } else {
        f
    }
}

/// Draws a circle marking the viewpoint.
pub fn draw_player(view: &Viewport, pos: (i16, i16), frame: &mut [u8])
    requires
        view.wf(),
    ensures
        final(frame)@ == marker_drawn(*view, old(frame)@, pos),
{
    let pts = circle_points(pos.0, pos.1, PLAYER_RADIUS);
    if points_fit(&pts, PLAYER_RADIUS as i32) {
        plot_points(view, &pts, frame, PLAYER_COLOR);
    }
}

/// The frame after drawing the front and back boxes of the root node, the
/// last of `nodes`; an empty collection draws nothing.
pub open spec fn root_boxes_drawn(v: Viewport, f: Seq<u8>, nodes: Seq<Node>) -> Seq<u8> {
    if nodes.len() == 0 {
        f
    } else {
        let n = nodes.last();
        box_drawn(v, box_drawn(v, f, n.bbox_front, FRONT_BOX_COLOR), n.bbox_back, BACK_BOX_COLOR)
    }
}

/// Draws the bounding boxes of the root node.
pub fn draw_nodes(view: &Viewport, nodes: &Vec<Node>, frame: &mut [u8])
    requires
        view.wf(),
    ensures
        final(frame)@ == root_boxes_drawn(*view, old(frame)@, nodes@),
{
    if nodes.len() > 0 {
        let n = &nodes[nodes.len() - 1];
        draw_box(view, &n.bbox_front, frame, FRONT_BOX_COLOR);
        draw_box(view, &n.bbox_back, frame, BACK_BOX_COLOR);
    }
}

/// Whether every point lies in the 16-bit range widened by `r`.
fn points_fit(pts: &Vec<(i32, i32)>, r: i32) -> (ok: bool)
    requires
        0 <= r <= 0x100_0000,
    ensures
        ok == points_near_i16(pts@, r as int),
{
    let mut i: usize = 0;
    while i < pts.len()
        invariant
            0 <= r <= 0x100_0000,
            i <= pts@.len(),
            points_near_i16(pts@.subrange(0, i as int), r as int),
        decreases pts@.len() - i,
    {
        let (x, y) = pts[i];
        if x < -32768 - r || x > 32767 + r || y < -32768 - r || y > 32767 + r {
            assert(pts@.subrange(0, i + 1)[i as int] == pts@[i as int]);
            return false;
        }
        assert forall|k: int| 0 <= k < i + 1 implies {
            let q = #[trigger] pts@.subrange(0, i + 1)[k];
            -32768 - r <= q.0 <= 32767 + r && -32768 - r <= q.1 <= 32767 + r
        } by {
            if k < i {
                assert(pts@.subrange(0, i + 1)[k] == pts@.subrange(0, i as int)[k]);
            }
        }
        i = i + 1;
    }
    assert(pts@.subrange(0, pts@.len() as int) =~= pts@);
    true
}

} // verus!
