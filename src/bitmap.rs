use vstd::arithmetic::div_mod::lemma_fundamental_div_mod_converse;
use vstd::prelude::*;

use crate::cell::Cell;
use crate::color::{color_ok, pack_rgba, describes_failure, parse_color, parsed_color, strip_hash, ColorError};
use crate::universe::Universe;

verus! {

/// The colour of pixel `(y, x)` when each grid cell of a grid `uw` cells wide
/// is drawn as a `cs` by `cs` block.
pub open spec fn pixel_color(
    cells: Seq<Cell>,
    uw: int,
    cs: int,
    live: u32,
    dead: u32,
    y: int,
    x: int,
) -> u32 {
    if cells[(y / cs) * uw + x / cs] == Cell::Alive {
        live
    } else {
        dead
    }
}

/// The full raster, row-major, `uw * cs` pixels wide and `uh * cs` pixels high.
pub open spec fn composed(
    cells: Seq<Cell>,
    uw: int,
    uh: int,
    cs: int,
    live: u32,
    dead: u32,
) -> Seq<u32> {
    Seq::new(
        ((uw * cs) * (uh * cs)) as nat,
        |i: int| pixel_color(cells, uw, cs, live, dead, i / (uw * cs), i % (uw * cs)),
    )
}

/// Byte `k` (0 to 3) of the packed pixel `p` as it lies in memory, least
/// significant byte first.
pub open spec fn pixel_byte(p: u32, k: int) -> u8 {
    if k == 0 {
        (p % 0x100) as u8
    } else if k == 1 {
        ((p / 0x100) % 0x100) as u8
    } else if k == 2 {
        ((p / 0x1_0000) % 0x100) as u8
    } else {
        (p / 0x100_0000) as u8
    }
}

/// The abstract state of a compositor.
pub struct PixelView {
    pub width: nat,
    pub height: nat,
    pub cell_size: nat,
    pub live_color: u32,
    pub dead_color: u32,
    pub pixels: Seq<u32>,
}

/// A pixel buffer that draws a grid, each cell as a square block of one colour.
pub struct RenderPixels {
    pixel_buffer: Vec<u32>,
    width: usize,
    height: usize,
    live_color: u32,
    dead_color: u32,
    cell_size: u32,
}

impl View for RenderPixels {
    type V = PixelView;

    closed spec fn view(&self) -> PixelView {
        PixelView {
            width: self.width as nat,
            height: self.height as nat,
            cell_size: self.cell_size as nat,
            live_color: self.live_color,
            dead_color: self.dead_color,
            pixels: self.pixel_buffer@,
        }
    }
}

/// Proves that `a * B + b` indexes inside an `A` by `B` row-major array.
proof fn lemma_mul_lt(a: int, b: int, aa: int, bb: int)
    requires
        0 <= a < aa,
        0 <= b < bb,
    ensures
        0 <= a * bb,
        0 <= a * bb + b < aa * bb,
        a * bb + bb <= aa * bb,
        aa * bb == bb * aa,
{
    assert(0 <= a * bb && a * bb + b < aa * bb && a * bb + bb <= aa * bb && aa * bb == bb * aa)
        by (nonlinear_arith)
        requires
            0 <= a < aa,
            0 <= b < bb,
    ;
}

/// Proves that entry `y * (uw * cs) + x` of the raster is pixel `(y, x)`.
proof fn lemma_pixel_at(
    cells: Seq<Cell>,
    uw: int,
    uh: int,
    cs: int,
    live: u32,
    dead: u32,
    y: int,
    x: int,
)
    requires
        0 <= y < uh * cs,
        0 <= x < uw * cs,
    ensures
        0 <= y * (uw * cs) + x < (uw * cs) * (uh * cs),
        composed(cells, uw, uh, cs, live, dead)[y * (uw * cs) + x] == pixel_color(
            cells,
            uw,
            cs,
            live,
            dead,
            y,
            x,
        ),
{
    lemma_mul_lt(y, x, uh * cs, uw * cs);
    lemma_fundamental_div_mod_converse(y * (uw * cs) + x, uw * cs, y, x);
}

/// A colour packed from bytes `r`, `g`, `b`, `a` lies in memory as those
/// four bytes in that order, which is the layout a raster surface reads.
pub proof fn lemma_packed_bytes_are_rgba(r: int, g: int, b: int, a: int)
    requires
        0 <= r < 256,
        0 <= g < 256,
        0 <= b < 256,
        0 <= a < 256,
    ensures
        0 <= pack_rgba(r, g, b, a) <= u32::MAX,
        pixel_byte(pack_rgba(r, g, b, a) as u32, 0) == r,
        pixel_byte(pack_rgba(r, g, b, a) as u32, 1) == g,
        pixel_byte(pack_rgba(r, g, b, a) as u32, 2) == b,
        pixel_byte(pack_rgba(r, g, b, a) as u32, 3) == a,
{
    let p = pack_rgba(r, g, b, a);
    lemma_fundamental_div_mod_converse(p, 0x100, g + b * 0x100 + a * 0x1_0000, r);
    lemma_fundamental_div_mod_converse(p, 0x1_0000, b + a * 0x100, r + g * 0x100);
    lemma_fundamental_div_mod_converse(p, 0x100_0000, a, r + g * 0x100 + b * 0x1_0000);
    let q1 = g + b * 0x100 + a * 0x1_0000;
    lemma_fundamental_div_mod_converse(q1, 0x100, b + a * 0x100, g);
    let q2 = b + a * 0x100;
    lemma_fundamental_div_mod_converse(q2, 0x100, a, b);
}

fn zeroed(n: usize) -> (r: Vec<u32>)
    ensures
        r@ == Seq::new(n as nat, |_i: int| 0u32),
{
    let mut v: Vec<u32> = Vec::with_capacity(n);
    let mut i: usize = 0;
    while i < n
        invariant
            i <= n,
            v@ == Seq::new(i as nat, |_i: int| 0u32),
        decreases n - i,
    {
        v.push(0);
        i += 1;
        assert(v@ =~= Seq::new(i as nat, |_i: int| 0u32));
    }
    v
}

impl RenderPixels {
    /// The buffer holds one pixel per position and its bytes fit in memory.
    pub open spec fn wf(&self) -> bool {
        &&& self@.cell_size >= 1
        &&& self@.pixels.len() == self@.width * self@.height
        &&& self@.width * self@.height * 4 <= usize::MAX
    }

    /// A compositor for `universe` with square cells of `cell_size` pixels;
    /// fails when either colour is malformed, the live colour first.
    pub fn new_from(universe: &Universe, cell_size: u32, live_color: &str, dead_color: &str) -> (r:
        Result<RenderPixels, ColorError>)
        requires
            universe.wf(),
            cell_size >= 1,
            (universe@.width * cell_size) * (universe@.height * cell_size) * 4 <= usize::MAX,
        ensures
            r is Ok <==> color_ok(live_color@) && color_ok(dead_color@),
            !color_ok(live_color@) ==> (r matches Err(e) && describes_failure(e, live_color@)),
            color_ok(live_color@) && !color_ok(dead_color@) ==> (r matches Err(e)
                && describes_failure(e, dead_color@)),
            r matches Ok(p) ==> p.wf() && p@ == (PixelView {
                width: universe@.width * cell_size as nat,
                height: universe@.height * cell_size as nat,
                cell_size: cell_size as nat,
                live_color: parsed_color(strip_hash(live_color@)) as u32,
                dead_color: parsed_color(strip_hash(dead_color@)) as u32,
                pixels: Seq::new(
                    ((universe@.width * cell_size) * (universe@.height * cell_size)) as nat,
                    |_i: int| 0u32,
                ),
            }),
    {
        let live_color = match parse_color(live_color) {
            Ok(c) => c,
            Err(e) => return Err(e),
        };
        let dead_color = match parse_color(dead_color) {
            Ok(c) => c,
            Err(e) => return Err(e),
        };
        let ghost a = universe@.width * cell_size;
        let ghost b = universe@.height * cell_size;
        proof {
            assert(a >= 1 && b >= 1) by (nonlinear_arith)
                requires
                    a == universe@.width * cell_size,
                    b == universe@.height * cell_size,
                    universe@.width >= 1,
                    universe@.height >= 1,
                    cell_size >= 1,
            ;
            assert(a <= usize::MAX && b <= usize::MAX && a * b <= usize::MAX) by (nonlinear_arith)
                requires
                    a * b * 4 <= usize::MAX,
                    a >= 1,
                    b >= 1,
            ;
        }
        let width = universe.width() as usize * cell_size as usize;
        let height = universe.height() as usize * cell_size as usize;
        let length = width * height;
        let pixel_buffer = zeroed(length);
        Ok(RenderPixels { pixel_buffer, width, height, live_color, dead_color, cell_size })
    }

    /// Draws the current cells of `universe`: each cell becomes a
    /// `cell_size` by `cell_size` block of the live or the dead colour. The
    /// first scanline of each row of cells is filled cell by cell, then
    /// copied over the remaining scanlines of that row.
    pub fn compose(&mut self, universe: &Universe)
        requires
            old(self).wf(),
            universe.wf(),
            old(self)@.width == universe@.width * old(self)@.cell_size,
            old(self)@.height == universe@.height * old(self)@.cell_size,
        ensures
            final(self).wf(),
            final(self)@ == (PixelView {
                pixels: composed(
                    universe@.cells,
                    universe@.width as int,
                    universe@.height as int,
                    old(self)@.cell_size as int,
                    old(self)@.live_color,
                    old(self)@.dead_color,
                ),
                ..old(self)@
            }),
    {
        let cells = universe.cells();
        let uw = universe.width() as usize;
        let uh = universe.height() as usize;
        let cs = self.cell_size as usize;
        let wpx = self.width;
        let live = self.live_color;
        let dead = self.dead_color;
        let ghost hpx = self.height as int;
        let ghost target = composed(cells@, uw as int, uh as int, cs as int, live, dead);
        proof {
            assert(wpx >= 1 && (0 * cs) * wpx == 0) by (nonlinear_arith)
                requires
                    wpx == uw * cs,
                    uw >= 1,
                    cs >= 1,
            ;
        }
        let mut r: usize = 0;
        while r < uh
            invariant
                self.wf(),
                self.width == wpx,
                self.height == hpx,
                self.cell_size == cs,
                self.live_color == live,
                self.dead_color == dead,
                wpx == uw * cs,
                wpx >= 1,
                uw * uh <= u32::MAX,
                hpx == uh * cs,
                uw >= 1,
                uh >= 1,
                cs >= 1,
                cells@ == universe@.cells,
                cells@.len() == uw * uh,
                target == composed(cells@, uw as int, uh as int, cs as int, live, dead),
                target.len() == wpx * hpx,
                r <= uh,
                forall|i: int|
                    0 <= i < (r * cs) * wpx ==> #[trigger] self.pixel_buffer@[i] == target[i],
            decreases uh - r,
        {
            proof {
                lemma_mul_lt(r as int, 0, uh as int, cs as int);
                lemma_mul_lt((r * cs) as int, 0, hpx, wpx as int);
            }
            let y0 = r * cs;
            let base = y0 * wpx;

            // first scanline of this row of cells
            let mut c: usize = 0;
            while c < uw
                invariant
                    self.wf(),
                    self.width == wpx,
                    self.height == hpx,
                    self.cell_size == cs,
                    self.live_color == live,
                    self.dead_color == dead,
                    wpx == uw * cs,
                    wpx >= 1,
                    uw * uh <= u32::MAX,
                    hpx == uh * cs,
                    uw >= 1,
                    uh >= 1,
                    cs >= 1,
                    cells@ == universe@.cells,
                    cells@.len() == uw * uh,
                    target == composed(cells@, uw as int, uh as int, cs as int, live, dead),
                    target.len() == wpx * hpx,
                    r < uh,
                    y0 == r * cs,
                    y0 < hpx,
                    base == y0 * wpx,
                    base + wpx <= wpx * hpx,
                    c <= uw,
                    forall|i: int|
                        0 <= i < base + c * cs ==> #[trigger] self.pixel_buffer@[i] == target[i],
                decreases uw - c,
            {
                proof {
                    lemma_mul_lt(r as int, c as int, uh as int, uw as int);
                    lemma_mul_lt(c as int, 0, uw as int, cs as int);
                }
                let color = if cells[r * uw + c] == Cell::Alive {
                    live
                } else {
                    dead
                };
                let start = base + c * cs;
                let mut k: usize = 0;
                while k < cs
                    invariant
                        self.wf(),
                        self.width == wpx,
                        self.height == hpx,
                        self.cell_size == cs,
                        self.live_color == live,
                        self.dead_color == dead,
                        wpx == uw * cs,
                        wpx >= 1,
                        uw * uh <= u32::MAX,
                        hpx == uh * cs,
                        uw >= 1,
                        cs >= 1,
                        cells@.len() == uw * uh,
                        target == composed(cells@, uw as int, uh as int, cs as int, live, dead),
                        target.len() == wpx * hpx,
                        r < uh,
                        c < uw,
                        y0 == r * cs,
                        y0 < hpx,
                        base == y0 * wpx,
                        start == base + c * cs,
                        color == (if cells@[r * uw + c] == Cell::Alive {
                            live
                        } else {
                            dead
                        }),
                        k <= cs,
                        forall|i: int|
                            0 <= i < start + k ==> #[trigger] self.pixel_buffer@[i] == target[i],
                    decreases cs - k,
                {
                    proof {
                        let x = c * cs + k;
                        lemma_mul_lt(c as int, k as int, uw as int, cs as int);
                        lemma_pixel_at(cells@, uw as int, uh as int, cs as int, live, dead, y0 as int, x);
                        lemma_fundamental_div_mod_converse(y0 as int, cs as int, r as int, 0);
                        lemma_fundamental_div_mod_converse(x, cs as int, c as int, k as int);
                    }
                    self.pixel_buffer.set(start + k, color);
                    k += 1;
                }
                proof {
                    assert(c * cs + cs == (c + 1) * cs) by (nonlinear_arith);
                }
                c += 1;
            }

            // the other scanlines repeat the first
            let mut line: usize = 1;
            while line < cs
                invariant
                    self.wf(),
                    self.width == wpx,
                    self.height == hpx,
                    self.cell_size == cs,
                    self.live_color == live,
                    self.dead_color == dead,
                    wpx == uw * cs,
                    wpx >= 1,
                    uw * uh <= u32::MAX,
                    hpx == uh * cs,
                    uw >= 1,
                    uh >= 1,
                    cs >= 1,
                    cells@ == universe@.cells,
                    cells@.len() == uw * uh,
                    target == composed(cells@, uw as int, uh as int, cs as int, live, dead),
                    target.len() == wpx * hpx,
                    r < uh,
                    y0 == r * cs,
                    y0 + cs <= hpx,
                    base == y0 * wpx,
                    1 <= line <= cs,
                    forall|i: int|
                        0 <= i < base + line * wpx ==> #[trigger] self.pixel_buffer@[i]
                            == target[i],
                decreases cs - line,
            {
                proof {
                    lemma_mul_lt((y0 + line) as int, 0, hpx, wpx as int);
                    assert(base + line * wpx == (y0 + line) * wpx && base + wpx <= base + line
                        * wpx && base + line * wpx + wpx == base + (line + 1) * wpx)
                        by (nonlinear_arith)
                        requires
                            base == y0 * wpx,
                            line >= 1,
                            wpx >= 1,
                    ;
                }
                let dst = base + line * wpx;
                let mut x: usize = 0;
                while x < wpx
                    invariant
                        self.wf(),
                        self.width == wpx,
                        self.height == hpx,
                        self.cell_size == cs,
                        self.live_color == live,
                        self.dead_color == dead,
                        wpx == uw * cs,
                        wpx >= 1,
                        uw * uh <= u32::MAX,
                        hpx == uh * cs,
                        uw >= 1,
                        cs >= 1,
                        target == composed(cells@, uw as int, uh as int, cs as int, live, dead),
                        target.len() == wpx * hpx,
                        r < uh,
                        y0 == r * cs,
                        y0 + cs <= hpx,
                        base == y0 * wpx,
                        1 <= line < cs,
                        dst == (y0 + line) * wpx,
                        dst == base + line * wpx,
                        dst + wpx == base + (line + 1) * wpx,
                        base + wpx <= dst,
                        x <= wpx,
                        forall|i: int|
                            0 <= i < dst + x ==> #[trigger] self.pixel_buffer@[i] == target[i],
                    decreases wpx - x,
                {
                    proof {
                        lemma_mul_lt((y0 + line) as int, x as int, hpx, wpx as int);
                        lemma_pixel_at(cells@, uw as int, uh as int, cs as int, live, dead, y0 as int, x as int);
                        lemma_pixel_at(
                            cells@,
                            uw as int,
                            uh as int,
                            cs as int,
                            live,
                            dead,
                            (y0 + line) as int,
                            x as int,
                        );
                        lemma_fundamental_div_mod_converse(y0 as int, cs as int, r as int, 0);
                        lemma_fundamental_div_mod_converse(
                            (y0 + line) as int,
                            cs as int,
                            r as int,
                            line as int,
                        );
                        assert(self.pixel_buffer@[base + x] == target[base + x]);
                    }
                    let p = self.pixel_buffer[base + x];
                    self.pixel_buffer.set(dst + x, p);
                    x += 1;
                }
                line += 1;
            }
            proof {
                assert(base + cs * wpx == ((r + 1) * cs) * wpx) by (nonlinear_arith)
                    requires
                        base == y0 * wpx,
                        y0 == r * cs,
                ;
            }
            r += 1;
        }
        proof {
            assert(self.pixel_buffer@ =~= target);
        }
    }

    /// The pixels as bytes, four per pixel, each pixel least significant
    /// byte first: for a colour built by `parse_color` that is red, green,
    /// blue, alpha.
    pub fn pixel_bytes(&self) -> (r: Vec<u8>)
        requires
            self.wf(),
        ensures
            r@.len() == 4 * self@.pixels.len(),
            forall|j: int|
                0 <= j < r@.len() ==> #[trigger] r@[j] == pixel_byte(self@.pixels[j / 4], j % 4),
    {
        let n = self.pixel_buffer.len();
        let mut out: Vec<u8> = Vec::with_capacity(4 * n);
        let mut i: usize = 0;
        while i < n
            invariant
                self.wf(),
                n == self@.pixels.len(),
                i <= n,
                out@.len() == 4 * i,
                forall|j: int|
                    0 <= j < out@.len() ==> #[trigger] out@[j] == pixel_byte(
                        self@.pixels[j / 4],
                        j % 4,
                    ),
            decreases n - i,
        {
            let p = self.pixel_buffer[i];
            out.push((p % 0x100) as u8);
            out.push(((p / 0x100) % 0x100) as u8);
            out.push(((p / 0x1_0000) % 0x100) as u8);
            out.push((p / 0x100_0000) as u8);
            proof {
                let b = 4 * i as int;
                lemma_fundamental_div_mod_converse(b, 4, i as int, 0);
                lemma_fundamental_div_mod_converse(b + 1, 4, i as int, 1);
                lemma_fundamental_div_mod_converse(b + 2, 4, i as int, 2);
                lemma_fundamental_div_mod_converse(b + 3, 4, i as int, 3);
            }
            i += 1;
        }
        out
    }

    /// Width of the raster in pixels.
    pub fn width(&self) -> (r: usize)
        ensures
            r == self@.width,
    {
        self.width
    }

    /// Height of the raster in pixels.
    pub fn height(&self) -> (r: usize)
        ensures
            r == self@.height,
    {
        self.height
    }

    /// Side of the square block that each grid cell is drawn as, in pixels.
    pub fn cell_size(&self) -> (r: u32)
        ensures
            r == self@.cell_size,
    {
        self.cell_size
    }

    /// The packed pixels, row-major.
    pub fn pixels(&self) -> (r: &[u32])
        ensures
            r@ == self@.pixels,
    {
        self.pixel_buffer.as_slice()
    }
}

} // verus!
