//! Pixel canvases for the status icons: a square RGBA image, four bytes per
//! pixel, row after row.
use vstd::prelude::*;

verus! {

/// Width and height of an icon, in pixels.
pub const ICON_SIZE: usize = 44;

/// Bytes in a canvas.
pub const CANVAS_BYTES: usize = ICON_SIZE * ICON_SIZE * 4;

/// Largest coordinate or radius that the drawing functions take.
pub const MAX_COORD: i32 = 10_000;

/// Whether `(x, y)` lies on the canvas.
pub open spec fn on_canvas(x: int, y: int) -> bool {
    0 <= x < ICON_SIZE && 0 <= y < ICON_SIZE
}

/// The pixel number of `(x, y)`, row after row.
pub open spec fn pixel_number(x: int, y: int) -> int {
    y * ICON_SIZE + x
}

/// Whether byte `i` belongs to pixel `(x, y)` of the canvas.
pub open spec fn byte_of_pixel(i: int, x: int, y: int) -> bool {
    on_canvas(x, y) && i / 4 == pixel_number(x, y)
}

/// Column of the pixel that byte `i` belongs to.
pub open spec fn byte_x(i: int) -> int {
    (i / 4) % (ICON_SIZE as int)
}

/// Row of the pixel that byte `i` belongs to.
pub open spec fn byte_y(i: int) -> int {
    (i / 4) / (ICON_SIZE as int)
}

/// Whether `(x, y)` lies in the disk of radius `r` around `(cx, cy)`.
pub open spec fn in_disk(x: int, y: int, cx: int, cy: int, r: int) -> bool {
    (x - cx) * (x - cx) + (y - cy) * (y - cy) <= r * r
}

/// Whether `(x, y)` lies in the ring between radii `r_inner` and `r_outer`.
pub open spec fn in_ring(x: int, y: int, cx: int, cy: int, r_outer: int, r_inner: int) -> bool {
    let d = (x - cx) * (x - cx) + (y - cy) * (y - cy);
    d <= r_outer * r_outer && d >= r_inner * r_inner
}

/// Colours of the idle microphone icon.
#[derive(Debug, Clone, Copy)]
pub struct IdlePalette {
    pub body: [u8; 4],
    pub arm: [u8; 4],
    pub highlight: [u8; 4],
    pub grille: [u8; 4],
}

impl IdlePalette {
    /// White microphone, for dark menu bars.
    pub fn light() -> (r: Self)
        ensures
            r.body@ == seq![255u8, 255, 255, 255],
            r.arm@ == seq![220u8, 220, 220, 255],
            r.highlight@ == seq![0u8, 0, 0, 25],
            r.grille@ == seq![0u8, 0, 0, 80],
    {
        let r = IdlePalette {
            body: [255, 255, 255, 255],
            arm: [220, 220, 220, 255],
            highlight: [0, 0, 0, 25],
            grille: [0, 0, 0, 80],
        };
        assert(r.body@ =~= seq![255u8, 255, 255, 255]);
        assert(r.arm@ =~= seq![220u8, 220, 220, 255]);
        assert(r.highlight@ =~= seq![0u8, 0, 0, 25]);
        assert(r.grille@ =~= seq![0u8, 0, 0, 80]);
        r
    }

    /// Black microphone, for light menu bars.
    pub fn dark() -> (r: Self)
        ensures
            r.body@ == seq![0u8, 0, 0, 255],
            r.arm@ == seq![40u8, 40, 40, 255],
            r.highlight@ == seq![255u8, 255, 255, 35],
            r.grille@ == seq![255u8, 255, 255, 90],
    {
        let r = IdlePalette {
            body: [0, 0, 0, 255],
            arm: [40, 40, 40, 255],
            highlight: [255, 255, 255, 35],
            grille: [255, 255, 255, 90],
        };
        assert(r.body@ =~= seq![0u8, 0, 0, 255]);
        assert(r.arm@ =~= seq![40u8, 40, 40, 255]);
        assert(r.highlight@ =~= seq![255u8, 255, 255, 35]);
        assert(r.grille@ =~= seq![255u8, 255, 255, 90]);
        r
    }
}

/// A fully transparent canvas.
pub fn empty_canvas() -> (r: Vec<u8>)
    ensures
        r@.len() == CANVAS_BYTES,
        forall|i: int| 0 <= i < r@.len() ==> r@[i] == 0,
{
    let mut v: Vec<u8> = Vec::new();
    let mut i: usize = 0;
    while i < CANVAS_BYTES
        invariant
            i <= CANVAS_BYTES,
            v@.len() == i,
            forall|j: int| 0 <= j < i ==> v@[j] == 0,
        decreases CANVAS_BYTES - i,
    {
        v.push(0);
        i = i + 1;
    }
    v
}

proof fn lemma_pixel_bytes(x: int, y: int, i: int)
    requires
        on_canvas(x, y),
    ensures
        (pixel_number(x, y) * 4 <= i < pixel_number(x, y) * 4 + 4) <==> i / 4 == pixel_number(x, y),
        pixel_number(x, y) * 4 + 4 <= CANVAS_BYTES,
        i / 4 == pixel_number(x, y) ==> byte_x(i) == x && byte_y(i) == y,
{
    let p = pixel_number(x, y);
    assert(0 <= p < 1936) by (nonlinear_arith)
        requires
            0 <= x < 44,
            0 <= y < 44,
            p == y * 44 + x,
    ;
    if p * 4 <= i < p * 4 + 4 {
        assert(i / 4 == p) by (nonlinear_arith)
            requires
                p * 4 <= i < p * 4 + 4,
        ;
    }
    if i / 4 == p {
        assert(p * 4 <= i < p * 4 + 4) by (nonlinear_arith)
            requires
                i / 4 == p,
        ;
        assert(p % 44 == x && p / 44 == y) by (nonlinear_arith)
            requires
                p == y * 44 + x,
                0 <= x < 44,
                0 <= y,
        ;
    }
}

/// Sets pixel `(x, y)` to `color`; a pixel off the canvas is ignored.
pub fn set_pixel(canvas: &mut Vec<u8>, x: i32, y: i32, color: [u8; 4])
    requires
        old(canvas)@.len() == CANVAS_BYTES,
    ensures
        final(canvas)@.len() == CANVAS_BYTES,
        forall|i: int| 0 <= i < CANVAS_BYTES ==> #[trigger] final(canvas)@[i] == if byte_of_pixel(
            i,
            x as int,
            y as int,
        ) {
            color@[i % 4]
        } else {
            old(canvas)@[i]
        },
{
    if x < 0 || y < 0 || x >= ICON_SIZE as i32 || y >= ICON_SIZE as i32 {
        return;
    }
    let ghost before = canvas@;
    proof {
        lemma_pixel_bytes(x as int, y as int, 0);
    }
    let idx = ((y as usize) * ICON_SIZE + (x as usize)) * 4;
    canvas.set(idx, color[0]);
    canvas.set(idx + 1, color[1]);
    canvas.set(idx + 2, color[2]);
    canvas.set(idx + 3, color[3]);
    assert forall|i: int| 0 <= i < CANVAS_BYTES implies #[trigger] canvas@[i] == if byte_of_pixel(
        i,
        x as int,
        y as int,
    ) {
        color@[i % 4]
    } else {
        before[i]
    } by {
        lemma_pixel_bytes(x as int, y as int, i);
        if idx <= i < idx + 4 {
            assert(i % 4 == i - idx) by (nonlinear_arith)
                requires
                    idx <= i < idx + 4,
                    idx % 4 == 0,
            ;
        }
    }
}

/// Whether `(x, y)` lies in the square of half-width `r` around `(cx, cy)`.
pub open spec fn in_box(x: int, y: int, cx: int, cy: int, r: int) -> bool {
    cx - r <= x <= cx + r && cy - r <= y <= cy + r
}

/// The pixels that [`draw_circle`] (`ring` false) or [`draw_ring`] (`ring`
/// true) paints.
pub open spec fn in_shape(x: int, y: int, cx: int, cy: int, r: int, r_inner: int, ring: bool) -> bool {
    in_box(x, y, cx, cy, r) && if ring {
        in_ring(x, y, cx, cy, r, r_inner)
    } else {
        in_disk(x, y, cx, cy, r)
    }
}

/// The canvas `before` with every pixel of a shape set to `color`.
pub open spec fn painted(before: Seq<u8>, cx: int, cy: int, r: int, r_inner: int, ring: bool, color: [u8; 4]) -> Seq<u8> {
    Seq::new(
        before.len(),
        |i: int|
            if in_shape(byte_x(i), byte_y(i), cx, cy, r, r_inner, ring) {
                color@[i % 4]
            } else {
                before[i]
            },
    )
}

proof fn lemma_byte_pixel(i: int)
    requires
        0 <= i < CANVAS_BYTES,
    ensures
        on_canvas(byte_x(i), byte_y(i)),
        i / 4 == pixel_number(byte_x(i), byte_y(i)),
{
    let p = i / 4;
    assert(0 <= p < 1936) by (nonlinear_arith)
        requires
            0 <= i < 7744,
            p == i / 4,
    ;
    assert(p == (p / 44) * 44 + p % 44 && 0 <= p % 44 < 44 && 0 <= p / 44 < 44) by (nonlinear_arith)
        requires
            0 <= p < 1936,
    ;
}

/// Paints every pixel of the shape, scanning the square of half-width `r`
/// row by row.
fn fill_shape(canvas: &mut Vec<u8>, cx: i32, cy: i32, r: i32, r_inner: i32, ring: bool, color: [u8; 4])
    requires
        old(canvas)@.len() == CANVAS_BYTES,
        -MAX_COORD <= cx <= MAX_COORD,
        -MAX_COORD <= cy <= MAX_COORD,
        -MAX_COORD <= r <= MAX_COORD,
        -MAX_COORD <= r_inner <= MAX_COORD,
    ensures
        final(canvas)@ == painted(old(canvas)@, cx as int, cy as int, r as int, r_inner as int, ring, color),
{
    let ghost before = canvas@;
    let ghost (gcx, gcy, gr, gri) = (cx as int, cy as int, r as int, r_inner as int);
    assert(0 <= r * r <= 100_000_000 && 0 <= r_inner * r_inner <= 100_000_000) by (nonlinear_arith)
        requires
            -10_000 <= r <= 10_000,
            -10_000 <= r_inner <= 10_000,
    ;
    let r2 = r * r;
    let ri2 = r_inner * r_inner;
    let mut y: i32 = cy - r;
    while y <= cy + r
        invariant
            canvas@.len() == CANVAS_BYTES,
            -MAX_COORD <= cx <= MAX_COORD,
            -MAX_COORD <= cy <= MAX_COORD,
            -MAX_COORD <= r <= MAX_COORD,
            -MAX_COORD <= r_inner <= MAX_COORD,
            r2 == r * r,
            ri2 == r_inner * r_inner,
            gcx == cx,
            gcy == cy,
            gr == r,
            gri == r_inner,
            cy - r <= y <= cy + r + 1 || r < 0,
            y == cy - r || cy - r <= y,
            forall|i: int| 0 <= i < CANVAS_BYTES ==> #[trigger] canvas@[i] == if in_shape(byte_x(i), byte_y(i), gcx, gcy, gr, gri, ring) && byte_y(i) < y {
                color@[i % 4]
            } else {
                before[i]
            },
        decreases cy + r + 1 - y,
    {
        let mut x: i32 = cx - r;
        while x <= cx + r
            invariant
                canvas@.len() == CANVAS_BYTES,
                -MAX_COORD <= cx <= MAX_COORD,
                -MAX_COORD <= cy <= MAX_COORD,
                -MAX_COORD <= r <= MAX_COORD,
                -MAX_COORD <= r_inner <= MAX_COORD,
                r2 == r * r,
                ri2 == r_inner * r_inner,
                gcx == cx,
                gcy == cy,
                gr == r,
                gri == r_inner,
                cy - r <= y <= cy + r,
                cx - r <= x <= cx + r + 1,
                forall|i: int| 0 <= i < CANVAS_BYTES ==> #[trigger] canvas@[i] == if in_shape(byte_x(i), byte_y(i), gcx, gcy, gr, gri, ring) && (byte_y(i) < y || (byte_y(i) == y && byte_x(i) < x)) {
                    color@[i % 4]
                } else {
                    before[i]
                },
            decreases cx + r + 1 - x,
        {
            let dx = x - cx;
            let dy = y - cy;
            assert(0 <= dx * dx <= 400_000_000 && 0 <= dy * dy <= 400_000_000) by (nonlinear_arith)
                requires
                    -20_000 <= dx <= 20_000,
                    -20_000 <= dy <= 20_000,
            ;
            assert(0 <= r * r <= 100_000_000 && 0 <= r_inner * r_inner <= 100_000_000) by (nonlinear_arith)
                requires
                    -10_000 <= r <= 10_000,
                    -10_000 <= r_inner <= 10_000,
            ;
            let d = dx * dx + dy * dy;
            let inside = if ring {
                d <= r2 && d >= ri2
            } else {
                d <= r2
            };
            let ghost mid = canvas@;
            if inside {
                set_pixel(canvas, x, y, color);
            }
            assert forall|i: int| 0 <= i < CANVAS_BYTES implies #[trigger] canvas@[i] == if in_shape(byte_x(i), byte_y(i), gcx, gcy, gr, gri, ring) && (byte_y(i) < y || (byte_y(i) == y && byte_x(i) < x + 1)) {
                color@[i % 4]
            } else {
                before[i]
            } by {
                lemma_byte_pixel(i);
                if on_canvas(x as int, y as int) {
                    lemma_pixel_bytes(x as int, y as int, i);
                }
                assert(inside == in_shape(x as int, y as int, gcx, gcy, gr, gri, ring));
            }
            x = x + 1;
        }
        assert forall|i: int| 0 <= i < CANVAS_BYTES implies #[trigger] canvas@[i] == if in_shape(byte_x(i), byte_y(i), gcx, gcy, gr, gri, ring) && byte_y(i) < y + 1 {
            color@[i % 4]
        } else {
            before[i]
        } by {
            lemma_byte_pixel(i);
        }
        y = y + 1;
    }
    assert(canvas@ =~= painted(before, gcx, gcy, gr, gri, ring, color)) by {
        assert forall|i: int| 0 <= i < CANVAS_BYTES implies canvas@[i] == painted(before, gcx, gcy, gr, gri, ring, color)[i] by {
            lemma_byte_pixel(i);
        }
    }
}

/// Paints the disk of radius `r` around `(cx, cy)`.
pub fn draw_circle(canvas: &mut Vec<u8>, cx: i32, cy: i32, r: i32, color: [u8; 4])
    requires
        old(canvas)@.len() == CANVAS_BYTES,
        -MAX_COORD <= cx <= MAX_COORD,
        -MAX_COORD <= cy <= MAX_COORD,
        -MAX_COORD <= r <= MAX_COORD,
    ensures
        final(canvas)@ == painted(old(canvas)@, cx as int, cy as int, r as int, 0, false, color),
{
    fill_shape(canvas, cx, cy, r, 0, false, color);
}

/// Paints the ring between radii `r_inner` and `r_outer` around `(cx, cy)`.
pub fn draw_ring(canvas: &mut Vec<u8>, cx: i32, cy: i32, r_outer: i32, r_inner: i32, color: [u8; 4])
    requires
        old(canvas)@.len() == CANVAS_BYTES,
        -MAX_COORD <= cx <= MAX_COORD,
        -MAX_COORD <= cy <= MAX_COORD,
        -MAX_COORD <= r_outer <= MAX_COORD,
        -MAX_COORD <= r_inner <= MAX_COORD,
    ensures
        final(canvas)@ == painted(old(canvas)@, cx as int, cy as int, r_outer as int, r_inner as int, true, color),
{
    fill_shape(canvas, cx, cy, r_outer, r_inner, true, color);
}

} // verus!
