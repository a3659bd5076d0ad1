use vstd::arithmetic::div_mod::lemma_fundamental_div_mod;
use vstd::prelude::*;
use vstd::slice::slice_subrange;

use crate::pixel::Pixel;
use crate::slice::PlaneMutSlice;
use crate::slice::PlaneSlice;

verus! {

/// Samples between consecutive aligned row starts: 16 bytes' worth of samples.
pub open spec fn spec_unit(bytes: int) -> int {
    16int / bytes
}

/// Alignment of the visible origin inside a row: half the row alignment.
pub open spec fn spec_half_unit(bytes: int) -> int {
    8int / bytes
}

/// `x` rounded up to the next multiple of `a`.
pub open spec fn spec_align_up(x: int, a: int) -> int
    recommends
        1 <= a,
{
    ((x + a - 1) / a) * a
}

pub proof fn lemma_align_up(x: int, a: int)
    requires
        0 <= x,
        1 <= a,
    ensures
        spec_align_up(x, a) % a == 0,
        x <= spec_align_up(x, a) < x + a,
{
    lemma_fundamental_div_mod(x + a - 1, a);
    let q = (x + a - 1) / a;
    let r = (x + a - 1) % a;
    assert(q * a == x + a - 1 - r) by (nonlinear_arith)
        requires
            x + a - 1 == a * q + r,
    ;
    assert((q * a) % a == 0) by (nonlinear_arith)
        requires
            1 <= a,
    ;
}

fn align_up(x: usize, a: usize) -> (r: usize)
    requires
        1 <= a,
        x + a <= usize::MAX,
    ensures
        r as int == spec_align_up(x as int, a as int),
{
    proof {
        lemma_align_up(x as int, a as int);
    }
    ((x + a - 1) / a) * a
}

/// Geometry of one plane: row stride, allocated rows, visible size,
/// subsampling shifts, border sizes, and the offset of the visible origin.
#[derive(Debug, Clone)]
pub struct PlaneConfig {
    pub stride: usize,
    pub alloc_height: usize,
    pub width: usize,
    pub height: usize,
    pub xdec: usize,
    pub ydec: usize,
    pub xpad: usize,
    pub ypad: usize,
    pub xorigin: usize,
    pub yorigin: usize,
}

impl PlaneConfig {
    /// The geometry invariant, for a plane whose samples are `bytes` wide:
    /// the stride is aligned to a full unit and leaves room for the visible
    /// row plus both horizontal borders, the visible origin is aligned to a
    /// half unit and leaves room for the left border, and the allocation
    /// holds exactly the visible rows plus both vertical borders.
    pub open spec fn wf(self, bytes: int) -> bool {
        &&& (bytes == 1 || bytes == 2)
        &&& self.stride as int % spec_unit(bytes) == 0
        &&& self.xorigin as int % spec_half_unit(bytes) == 0
        &&& self.xpad <= self.xorigin
        &&& self.xorigin + self.width + self.xpad <= self.stride
        &&& self.yorigin == self.ypad
        &&& self.alloc_height == self.yorigin + self.height + self.ypad
        &&& self.stride * self.alloc_height <= usize::MAX
        &&& self.stride <= isize::MAX
        &&& self.alloc_height <= isize::MAX
    }

    /// Buffer index of the sample at coordinate (x, y), where (0, 0) is the
    /// first visible sample and negative coordinates address the border.
    pub open spec fn pos(self, x: int, y: int) -> int {
        (y + self.yorigin) * self.stride + (x + self.xorigin)
    }

    /// Whether coordinate (x, y) falls inside the allocated buffer.
    pub open spec fn in_buffer(self, x: int, y: int) -> bool {
        &&& -(self.xorigin as int) <= x < self.stride - self.xorigin
        &&& -(self.yorigin as int) <= y < self.alloc_height - self.yorigin
    }
}

/// Every coordinate inside the buffer resolves to an index inside the
/// allocation.
pub proof fn lemma_pos_in_bounds(c: PlaneConfig, x: int, y: int)
    requires
        c.in_buffer(x, y),
    ensures
        0 <= c.pos(x, y) < c.stride * c.alloc_height,
{
    let r = y + c.yorigin;
    let col = x + c.xorigin;
    assert(0 <= r * c.stride && r * c.stride + col < c.stride * c.alloc_height) by (nonlinear_arith)
        requires
            0 <= r < c.alloc_height,
            0 <= col < c.stride,
    ;
}

/// Distinct coordinates inside the buffer resolve to distinct indices.
pub proof fn lemma_pos_unique(c: PlaneConfig, x1: int, y1: int, x2: int, y2: int)
    requires
        c.in_buffer(x1, y1),
        c.in_buffer(x2, y2),
        c.pos(x1, y1) == c.pos(x2, y2),
    ensures
        x1 == x2,
        y1 == y2,
{
    let r1 = y1 + c.yorigin;
    let c1 = x1 + c.xorigin;
    let r2 = y2 + c.yorigin;
    let c2 = x2 + c.xorigin;
    assert(r1 == r2 && c1 == c2) by (nonlinear_arith)
        requires
            0 <= c1 < c.stride,
            0 <= c2 < c.stride,
            r1 * c.stride + c1 == r2 * c.stride + c2,
    ;
}

/// The sample value encoded at (x, y) in a row-major byte buffer whose rows
/// are `source_stride` bytes apart: one byte per sample for bytewidth 1, two
/// little-endian bytes per sample for bytewidth 2.
pub open spec fn raw_val(
    source: Seq<u8>,
    source_stride: int,
    bytewidth: int,
    x: int,
    y: int,
) -> int
    recommends
        bytewidth == 1 || bytewidth == 2,
{
    if bytewidth == 1 {
        source[y * source_stride + x] as int
    } else {
        source[y * source_stride + 2 * x] + 256 * source[y * source_stride + 2 * x + 1]
    }
}

/// `v` clamped into `[lo, hi]`.
pub open spec fn clamp_i(v: int, lo: int, hi: int) -> int {
    if v < lo {
        lo
    } else if v > hi {
        hi
    } else {
        v
    }
}

/// A signed pixel offset relative to the visible origin; negative values
/// address the border region.
#[derive(Debug, Clone, Copy)]
pub struct PlaneOffset {
    pub x: isize,
    pub y: isize,
}

/// One color or luma component of a frame: a contiguous sample buffer that
/// holds the visible picture plus a replicated border on all four sides.
#[derive(Clone)]
pub struct Plane<T: Pixel> {
    pub data: Vec<T>,
    pub cfg: PlaneConfig,
}

impl<T: Pixel> Plane<T> {
    /// The plane invariant: valid geometry for this sample width, and a
    /// buffer of exactly `stride * alloc_height` samples.
    pub open spec fn wf(self) -> bool {
        &&& self.cfg.wf(T::spec_bytes())
        &&& self.data.len() == self.cfg.stride * self.cfg.alloc_height
    }

    /// The value of the sample at coordinate (x, y); negative coordinates
    /// address the border.
    pub open spec fn spec_p(self, x: int, y: int) -> int {
        self.data@[self.cfg.pos(x, y)].spec_val()
    }

    /// The value border padding leaves at (x, y): the visible sample nearest
    /// to (x, y).
    pub open spec fn padded_val(self, x: int, y: int) -> int {
        self.spec_p(
            clamp_i(x, 0, self.cfg.width - 1),
            clamp_i(y, 0, self.cfg.height - 1),
        )
    }

    /// Every left-border sample of a visible row equals that row's first
    /// visible sample.
    pub open spec fn left_padded(self) -> bool {
        forall|x: int, y: int|
            0 <= y < self.cfg.height && -(self.cfg.xorigin as int) <= x < 0
                ==> #[trigger] self.spec_p(x, y) == self.spec_p(0, y)
    }

    /// Every sample of a visible row from the end of the visible region to
    /// the end of the stride equals that row's last visible sample.
    pub open spec fn right_padded(self) -> bool {
        forall|x: int, y: int|
            0 <= y < self.cfg.height && self.cfg.width <= x
                < self.cfg.stride - self.cfg.xorigin
                ==> #[trigger] self.spec_p(x, y) == self.spec_p(self.cfg.width - 1, y)
    }

    /// Every buffer row above the visible region equals the first visible
    /// row, over the whole stride.
    pub open spec fn top_padded(self) -> bool {
        forall|x: int, y: int|
            -(self.cfg.yorigin as int) <= y < 0 && -(self.cfg.xorigin as int) <= x
                < self.cfg.stride - self.cfg.xorigin
                ==> #[trigger] self.spec_p(x, y) == self.spec_p(x, 0)
    }

    /// Every buffer row below the visible region equals the last visible
    /// row, over the whole stride.
    pub open spec fn bottom_padded(self) -> bool {
        forall|x: int, y: int|
            self.cfg.height <= y < self.cfg.alloc_height - self.cfg.yorigin
                && -(self.cfg.xorigin as int) <= x < self.cfg.stride - self.cfg.xorigin
                ==> #[trigger] self.spec_p(x, y) == self.spec_p(x, self.cfg.height - 1)
    }

    /// Same geometry and the same visible samples as `o`.
    pub open spec fn same_visible(self, o: Plane<T>) -> bool {
        forall|x: int, y: int|
            0 <= x < self.cfg.width && 0 <= y < self.cfg.height
                ==> #[trigger] self.spec_p(x, y) == o.spec_p(x, y)
    }

    /// A plane whose every buffer sample is the nearest visible sample of
    /// `o` replicates `o`'s visible edges outward: its left, right, top and
    /// bottom borders repeat the nearest visible column or row, and its
    /// visible region is that of `o`.
    pub proof fn lemma_pad_borders(self, p: Plane<T>)
        requires
            self.wf(),
            p.cfg == self.cfg,
            1 <= self.cfg.width,
            1 <= self.cfg.height,
            forall|x: int, y: int|
                self.cfg.in_buffer(x, y) ==> #[trigger] p.spec_p(x, y) == self.padded_val(x, y),
        ensures
            p.left_padded(),
            p.right_padded(),
            p.top_padded(),
            p.bottom_padded(),
            p.same_visible(self),
    {
        let c = self.cfg;
        assert forall|x: int, y: int|
            0 <= x < c.width && 0 <= y < c.height implies #[trigger] p.spec_p(x, y)
            == self.spec_p(x, y) by {
            assert(c.in_buffer(x, y));
        }
        assert forall|x: int, y: int|
            0 <= y < c.height && -(c.xorigin as int) <= x < 0 implies #[trigger] p.spec_p(x, y)
            == p.spec_p(0, y) by {
            assert(c.in_buffer(x, y));
            assert(c.in_buffer(0, y));
        }
        assert forall|x: int, y: int|
            0 <= y < c.height && c.width <= x < c.stride - c.xorigin implies #[trigger] p.spec_p(
                x,
                y,
            ) == p.spec_p(c.width - 1, y) by {
            assert(c.in_buffer(x, y));
            assert(c.in_buffer(c.width - 1, y));
        }
        assert forall|x: int, y: int|
            -(c.yorigin as int) <= y < 0 && -(c.xorigin as int) <= x < c.stride
                - c.xorigin implies #[trigger] p.spec_p(x, y) == p.spec_p(x, 0) by {
            assert(c.in_buffer(x, y));
            assert(c.in_buffer(x, 0));
        }
        assert forall|x: int, y: int|
            c.height <= y < c.alloc_height - c.yorigin && -(c.xorigin as int) <= x < c.stride
                - c.xorigin implies #[trigger] p.spec_p(x, y) == p.spec_p(x, c.height - 1) by {
            assert(c.in_buffer(x, y));
            assert(c.in_buffer(x, c.height - 1));
        }
    }

    pub fn new(
        width: usize,
        height: usize,
        xdec: usize,
        ydec: usize,
        xpad: usize,
        ypad: usize,
    ) -> (r: Plane<T>)
        requires
            xpad + 8 + width + xpad + 16 <= isize::MAX,
            ypad + height + ypad <= isize::MAX,
            (xpad + 8 + width + xpad + 16) * (ypad + height + ypad) <= usize::MAX,
        ensures
            r.wf(),
            r.cfg.width == width,
            r.cfg.height == height,
            r.cfg.xdec == xdec,
            r.cfg.ydec == ydec,
            r.cfg.xpad == xpad,
            r.cfg.ypad == ypad,
            r.cfg.yorigin == ypad,
            r.cfg.xorigin as int == spec_align_up(xpad as int, spec_half_unit(T::spec_bytes())),
            r.cfg.stride as int == spec_align_up(
                r.cfg.xorigin + width + xpad,
                spec_unit(T::spec_bytes()),
            ),
            r.cfg.alloc_height == ypad + height + ypad,
            r.data@.len() == r.cfg.stride * r.cfg.alloc_height,
            forall|i: int| 0 <= i < r.data@.len() ==> (#[trigger] r.data@[i]).spec_val() == 128,
    {
        proof {
            T::lemma_width();
        }
        let b: usize = T::bytes();
        let half: usize = 8 / b;
        let unit: usize = 16 / b;
        let xorigin: usize = align_up(xpad, half);
        let yorigin: usize = ypad;
        proof {
            lemma_align_up(xpad as int, half as int);
            lemma_align_up(xorigin + width + xpad, unit as int);
        }
        let stride: usize = align_up(xorigin + width + xpad, unit);
        let alloc_height: usize = yorigin + height + ypad;
        proof {
            let b1 = xpad + 8 + width + xpad + 16;
            let a1 = ypad + height + ypad;
            assert(stride * alloc_height <= b1 * a1) by (nonlinear_arith)
                requires
                    0 <= stride as int <= b1,
                    0 <= alloc_height as int <= a1,
            ;
        }
        let n: usize = stride * alloc_height;
        let gray: T = T::from_u32(128);
        let mut data: Vec<T> = Vec::new();
        while data.len() < n
            invariant
                data.len() <= n,
                gray.spec_val() == 128,
                forall|i: int| 0 <= i < data.len() ==> (#[trigger] data@[i]).spec_val() == 128,
            decreases n - data.len(),
        {
            data.push(gray);
        }
        Plane {
            data,
            cfg: PlaneConfig {
                stride,
                alloc_height,
                width,
                height,
                xdec,
                ydec,
                xpad,
                ypad,
                xorigin,
                yorigin,
            },
        }
    }

    /// Buffer index of the visible coordinate (x, y).
    fn index(&self, x: usize, y: usize) -> (r: usize)
        requires
            self.wf(),
            x + self.cfg.xorigin < self.cfg.stride,
            y + self.cfg.yorigin < self.cfg.alloc_height,
        ensures
            r as int == self.cfg.pos(x as int, y as int),
            r < self.data.len(),
    {
        proof {
            lemma_pos_in_bounds(self.cfg, x as int, y as int);
        }
        (y + self.cfg.yorigin) * self.cfg.stride + (x + self.cfg.xorigin)
    }

    /// The sample at coordinate (x, y); negative coordinates address the
    /// border.
    pub(crate) fn pget(&self, x: isize, y: isize) -> (r: T)
        requires
            self.wf(),
            self.cfg.in_buffer(x as int, y as int),
        ensures
            r == self.data@[self.cfg.pos(x as int, y as int)],
            r.spec_val() == self.spec_p(x as int, y as int),
    {
        proof {
            lemma_pos_in_bounds(self.cfg, x as int, y as int);
        }
        let r: usize = (y + self.cfg.yorigin as isize) as usize;
        let c: usize = (x + self.cfg.xorigin as isize) as usize;
        let i: usize = r * self.cfg.stride + c;
        self.data[i]
    }

    /// Stores `v` at coordinate (x, y); negative coordinates address the
    /// border.
    pub(crate) fn pset(&mut self, x: isize, y: isize, v: T)
        requires
            old(self).wf(),
            old(self).cfg.in_buffer(x as int, y as int),
        ensures
            final(self).cfg == old(self).cfg,
            final(self).wf(),
            final(self).data@ == old(self).data@.update(
                old(self).cfg.pos(x as int, y as int),
                v,
            ),
    {
        proof {
            lemma_pos_in_bounds(self.cfg, x as int, y as int);
        }
        let r: usize = (y + self.cfg.yorigin as isize) as usize;
        let c: usize = (x + self.cfg.xorigin as isize) as usize;
        let i: usize = r * self.cfg.stride + c;
        self.data[i] = v;
    }

    /// Stores `v` in the cells `[x0, x1)` of row `y` and changes nothing
    /// else.
    fn fill_row_range(&mut self, y: isize, x0: isize, x1: isize, v: T)
        requires
            old(self).wf(),
            -(old(self).cfg.yorigin as int) <= y as int,
            y as int + old(self).cfg.yorigin < old(self).cfg.alloc_height,
            -(old(self).cfg.xorigin as int) <= x0 as int,
            x0 as int <= x1 as int,
            x1 as int <= old(self).cfg.stride - old(self).cfg.xorigin,
        ensures
            final(self).cfg == old(self).cfg,
            final(self).wf(),
            forall|x: int|
                x0 <= x < x1 ==> #[trigger] final(self).spec_p(x, y as int) == v.spec_val(),
            forall|x: int, y2: int|
                old(self).cfg.in_buffer(x, y2) && !(y2 == y as int && x0 <= x < x1)
                    ==> #[trigger] final(self).spec_p(x, y2) == old(self).spec_p(x, y2),
    {
        let ghost c = old(self).cfg;
        let mut xi: isize = x0;
        while xi < x1
            invariant
                self.wf(),
                self.cfg == c,
                old(self).cfg == c,
                x0 <= xi <= x1,
                -(c.yorigin as int) <= y as int,
                y as int + c.yorigin < c.alloc_height,
                -(c.xorigin as int) <= x0 as int,
                x1 as int <= c.stride - c.xorigin,
                forall|x: int|
                    x0 <= x < xi ==> #[trigger] self.spec_p(x, y as int) == v.spec_val(),
                forall|x: int, y2: int|
                    c.in_buffer(x, y2) && !(y2 == y as int && x0 <= x < xi)
                        ==> #[trigger] self.spec_p(x, y2) == old(self).spec_p(x, y2),
            decreases x1 - xi,
        {
            let ghost pre = *self;
            self.pset(xi, y, v);
            proof {
                assert forall|x: int, y2: int|
                    c.in_buffer(x, y2) && !(y2 == y as int && x0 <= x < xi + 1) implies #[trigger]
                    self.spec_p(x, y2) == old(self).spec_p(x, y2) by {
                    lemma_pos_in_bounds(c, x, y2);
                    lemma_pos_in_bounds(c, xi as int, y as int);
                    if c.pos(x, y2) == c.pos(xi as int, y as int) {
                        lemma_pos_unique(c, x, y2, xi as int, y as int);
                    }
                    assert(self.spec_p(x, y2) == pre.spec_p(x, y2));
                    assert(pre.spec_p(x, y2) == old(self).spec_p(x, y2));
                }
                assert forall|x: int| x0 <= x < xi + 1 implies #[trigger] self.spec_p(
                    x,
                    y as int,
                ) == v.spec_val() by {
                    lemma_pos_in_bounds(c, x, y as int);
                    lemma_pos_in_bounds(c, xi as int, y as int);
                    if x != xi as int {
                        if c.pos(x, y as int) == c.pos(xi as int, y as int) {
                            lemma_pos_unique(c, x, y as int, xi as int, y as int);
                        }
                        assert(self.spec_p(x, y as int) == pre.spec_p(x, y as int));
                        assert(pre.spec_p(x, y as int) == v.spec_val());
                    }
                }
            }
            xi = xi + 1;
        }
    }

    /// Copies the whole buffer row `src` onto the buffer row `dst` and
    /// changes nothing else.
    fn copy_row(&mut self, dst: isize, src: isize)
        requires
            old(self).wf(),
            dst != src,
            -(old(self).cfg.yorigin as int) <= dst as int,
            dst as int + old(self).cfg.yorigin < old(self).cfg.alloc_height,
            -(old(self).cfg.yorigin as int) <= src as int,
            src as int + old(self).cfg.yorigin < old(self).cfg.alloc_height,
        ensures
            final(self).cfg == old(self).cfg,
            final(self).wf(),
            forall|x: int|
                -(old(self).cfg.xorigin as int) <= x
                    < old(self).cfg.stride - old(self).cfg.xorigin
                    ==> #[trigger] final(self).spec_p(x, dst as int) == old(self).spec_p(
                    x,
                    src as int,
                ),
            forall|x: int, y2: int|
                old(self).cfg.in_buffer(x, y2) && y2 != dst as int
                    ==> #[trigger] final(self).spec_p(x, y2) == old(self).spec_p(x, y2),
    {
        let ghost c = old(self).cfg;
        let xorigin: isize = self.cfg.xorigin as isize;
        let x1: isize = self.cfg.stride as isize - xorigin;
        let mut xi: isize = -xorigin;
        while xi < x1
            invariant
                self.wf(),
                self.cfg == c,
                old(self).cfg == c,
                dst != src,
                -(c.yorigin as int) <= dst as int,
                dst as int + c.yorigin < c.alloc_height,
                -(c.yorigin as int) <= src as int,
                src as int + c.yorigin < c.alloc_height,
                xorigin as int == c.xorigin,
                x1 as int == c.stride - c.xorigin,
                -(c.xorigin as int) <= xi as int,
                forall|x: int|
                    -(c.xorigin as int) <= x < xi ==> #[trigger] self.spec_p(x, dst as int)
                        == old(self).spec_p(x, src as int),
                forall|x: int, y2: int|
                    c.in_buffer(x, y2) && y2 != dst as int ==> #[trigger] self.spec_p(x, y2)
                        == old(self).spec_p(x, y2),
            decreases x1 - xi,
        {
            let v: T = self.pget(xi, src);
            let ghost pre = *self;
            self.pset(xi, dst, v);
            proof {
                assert forall|x: int, y2: int|
                    c.in_buffer(x, y2) && y2 != dst as int implies #[trigger] self.spec_p(x, y2)
                    == old(self).spec_p(x, y2) by {
                    lemma_pos_in_bounds(c, x, y2);
                    lemma_pos_in_bounds(c, xi as int, dst as int);
                    if c.pos(x, y2) == c.pos(xi as int, dst as int) {
                        lemma_pos_unique(c, x, y2, xi as int, dst as int);
                    }
                    assert(self.spec_p(x, y2) == pre.spec_p(x, y2));
                    assert(pre.spec_p(x, y2) == old(self).spec_p(x, y2));
                }
                assert forall|x: int| -(c.xorigin as int) <= x < xi + 1 implies #[trigger]
                    self.spec_p(x, dst as int) == old(self).spec_p(x, src as int) by {
                    lemma_pos_in_bounds(c, x, dst as int);
                    lemma_pos_in_bounds(c, xi as int, dst as int);
                    if x != xi as int {
                        if c.pos(x, dst as int) == c.pos(xi as int, dst as int) {
                            lemma_pos_unique(c, x, dst as int, xi as int, dst as int);
                        }
                        assert(self.spec_p(x, dst as int) == pre.spec_p(x, dst as int));
                        assert(pre.spec_p(x, dst as int) == old(self).spec_p(x, src as int));
                    } else {
                        assert(v.spec_val() == pre.spec_p(xi as int, src as int));
                        assert(pre.spec_p(xi as int, src as int) == old(self).spec_p(
                            xi as int,
                            src as int,
                        ));
                    }
                }
            }
            xi = xi + 1;
        }
    }

    /// Replicates the edge-most visible samples outward until the whole
    /// border region is filled.  `w` and `h` are the reference-resolution
    /// dimensions; this plane's own dimensions are `w >> xdec` and
    /// `h >> ydec`.
    pub fn pad(&mut self, w: usize, h: usize)
        requires
            old(self).wf(),
            w >> old(self).cfg.xdec == old(self).cfg.width,
            h >> old(self).cfg.ydec == old(self).cfg.height,
            1 <= old(self).cfg.width,
            1 <= old(self).cfg.height,
        ensures
            final(self).wf(),
            final(self).cfg == old(self).cfg,
            forall|x: int, y: int|
                old(self).cfg.in_buffer(x, y) ==> #[trigger] final(self).spec_p(x, y)
                    == old(self).padded_val(x, y),
            final(self).left_padded(),
            final(self).right_padded(),
            final(self).top_padded(),
            final(self).bottom_padded(),
            final(self).same_visible(*old(self)),
    {
        let ghost o = *old(self);
        let ghost c = old(self).cfg;
        let width: usize = self.cfg.width;
        let height: usize = self.cfg.height;
        let xorigin: usize = self.cfg.xorigin;
        let yorigin: usize = self.cfg.yorigin;
        let stride: usize = self.cfg.stride;
        let ypad: usize = self.cfg.ypad;

        // left border of every visible row
        let mut y: usize = 0;
        while y < height
            invariant
                self.wf(),
                self.cfg == c,
                o.cfg == c,
                o.wf(),
                width == c.width,
                height == c.height,
                xorigin == c.xorigin,
                yorigin == c.yorigin,
                stride == c.stride,
                ypad == c.ypad,
                1 <= width,
                1 <= height,
                y <= height,
                forall|x: int, y2: int|
                    c.in_buffer(x, y2) ==> #[trigger] self.spec_p(x, y2) == (
                    if 0 <= y2 < y && x < 0 {
                        o.padded_val(x, y2)
                    } else {
                        o.spec_p(x, y2)
                    }),
            decreases height - y,
        {
            let fv: T = self.pget(0, y as isize);
            let ghost mid = *self;
            self.fill_row_range(y as isize, -(xorigin as isize), 0, fv);
            proof {
                assert forall|x: int, y2: int| c.in_buffer(x, y2) implies #[trigger] self.spec_p(
                    x,
                    y2,
                ) == (if 0 <= y2 < y + 1 && x < 0 {
                    o.padded_val(x, y2)
                } else {
                    o.spec_p(x, y2)
                }) by {
                    assert(mid.spec_p(0, y as int) == o.spec_p(0, y as int));
                    if y2 == y as int && x < 0 {
                        assert(self.spec_p(x, y2) == fv.spec_val());
                    } else {
                        assert(self.spec_p(x, y2) == mid.spec_p(x, y2));
                        assert(mid.spec_p(x, y2) == (if 0 <= y2 < y && x < 0 {
                            o.padded_val(x, y2)
                        } else {
                            o.spec_p(x, y2)
                        }));
                    }
                }
            }
            y = y + 1;
        }

        // right border of every visible row
        let mut y1: usize = 0;
        while y1 < height
            invariant
                self.wf(),
                self.cfg == c,
                o.cfg == c,
                o.wf(),
                width == c.width,
                height == c.height,
                xorigin == c.xorigin,
                yorigin == c.yorigin,
                stride == c.stride,
                ypad == c.ypad,
                1 <= width,
                1 <= height,
                y1 <= height,
                forall|x: int, y2: int|
                    c.in_buffer(x, y2) ==> #[trigger] self.spec_p(x, y2) == (
                    if 0 <= y2 < c.height && x < 0 {
                        o.padded_val(x, y2)
                    } else if 0 <= y2 < y1 && c.width <= x {
                        o.padded_val(x, y2)
                    } else {
                        o.spec_p(x, y2)
                    }),
            decreases height - y1,
        {
            let fv: T = self.pget(width as isize - 1, y1 as isize);
            let ghost mid = *self;
            self.fill_row_range(
                y1 as isize,
                width as isize,
                (stride - xorigin) as isize,
                fv,
            );
            proof {
                assert forall|x: int, y2: int| c.in_buffer(x, y2) implies #[trigger] self.spec_p(
                    x,
                    y2,
                ) == (if 0 <= y2 < c.height && x < 0 {
                    o.padded_val(x, y2)
                } else if 0 <= y2 < y1 + 1 && c.width <= x {
                    o.padded_val(x, y2)
                } else {
                    o.spec_p(x, y2)
                }) by {
                    assert(mid.spec_p(c.width - 1, y1 as int) == o.spec_p(c.width - 1, y1 as int));
                    if y2 == y1 as int && c.width <= x {
                        assert(self.spec_p(x, y2) == fv.spec_val());
                    } else {
                        assert(self.spec_p(x, y2) == mid.spec_p(x, y2));
                        assert(mid.spec_p(x, y2) == (if 0 <= y2 < c.height && x < 0 {
                            o.padded_val(x, y2)
                        } else if 0 <= y2 < y1 && c.width <= x {
                            o.padded_val(x, y2)
                        } else {
                            o.spec_p(x, y2)
                        }));
                    }
                }
            }
            y1 = y1 + 1;
        }

        // top border: each row above the visible region becomes the first
        // visible row, over the whole stride
        let mut i: usize = 0;
        while i < yorigin
            invariant
                self.wf(),
                self.cfg == c,
                o.cfg == c,
                o.wf(),
                width == c.width,
                height == c.height,
                xorigin == c.xorigin,
                yorigin == c.yorigin,
                stride == c.stride,
                ypad == c.ypad,
                1 <= width,
                1 <= height,
                i <= yorigin,
                forall|x: int, y2: int|
                    c.in_buffer(x, y2) ==> #[trigger] self.spec_p(x, y2) == (
                    if 0 <= y2 < c.height && (x < 0 || c.width <= x) {
                        o.padded_val(x, y2)
                    } else if -(i as int) <= y2 < 0 {
                        o.padded_val(x, y2)
                    } else {
                        o.spec_p(x, y2)
                    }),
            decreases yorigin - i,
        {
            let ghost mid = *self;
            self.copy_row(-(i as isize) - 1, 0);
            proof {
                assert forall|x: int, y2: int| c.in_buffer(x, y2) implies #[trigger] self.spec_p(
                    x,
                    y2,
                ) == (if 0 <= y2 < c.height && (x < 0 || c.width <= x) {
                    o.padded_val(x, y2)
                } else if -(i as int) - 1 <= y2 < 0 {
                    o.padded_val(x, y2)
                } else {
                    o.spec_p(x, y2)
                }) by {
                    if y2 == -(i as int) - 1 {
                        assert(self.spec_p(x, y2) == mid.spec_p(x, 0));
                        assert(mid.spec_p(x, 0) == (if 0 <= 0 < c.height && (x < 0 || c.width
                            <= x) {
                            o.padded_val(x, 0)
                        } else {
                            o.spec_p(x, 0)
                        }));
                        assert(mid.spec_p(x, 0) == o.padded_val(x, y2));
                    } else {
                        assert(self.spec_p(x, y2) == mid.spec_p(x, y2));
                        assert(mid.spec_p(x, y2) == (if 0 <= y2 < c.height && (x < 0 || c.width
                            <= x) {
                            o.padded_val(x, y2)
                        } else if -(i as int) <= y2 < 0 {
                            o.padded_val(x, y2)
                        } else {
                            o.spec_p(x, y2)
                        }));
                    }
                }
            }
            i = i + 1;
        }

        // bottom border: each row below the visible region becomes the last
        // visible row, over the whole stride
        let mut j: usize = 0;
        while j < ypad
            invariant
                self.wf(),
                self.cfg == c,
                o.cfg == c,
                o.wf(),
                width == c.width,
                height == c.height,
                xorigin == c.xorigin,
                yorigin == c.yorigin,
                stride == c.stride,
                ypad == c.ypad,
                1 <= width,
                1 <= height,
                j <= ypad,
                forall|x: int, y2: int|
                    c.in_buffer(x, y2) ==> #[trigger] self.spec_p(x, y2) == (
                    if 0 <= y2 < c.height && (x < 0 || c.width <= x) {
                        o.padded_val(x, y2)
                    } else if -(c.yorigin as int) <= y2 < 0 {
                        o.padded_val(x, y2)
                    } else if c.height <= y2 < c.height + j {
                        o.padded_val(x, y2)
                    } else {
                        o.spec_p(x, y2)
                    }),
            decreases ypad - j,
        {
            let ghost mid = *self;
            self.copy_row((height + j) as isize, height as isize - 1);
            proof {
                assert forall|x: int, y2: int| c.in_buffer(x, y2) implies #[trigger] self.spec_p(
                    x,
                    y2,
                ) == (if 0 <= y2 < c.height && (x < 0 || c.width <= x) {
                    o.padded_val(x, y2)
                } else if -(c.yorigin as int) <= y2 < 0 {
                    o.padded_val(x, y2)
                } else if c.height <= y2 < c.height + j + 1 {
                    o.padded_val(x, y2)
                } else {
                    o.spec_p(x, y2)
                }) by {
                    if y2 == c.height + j {
                        assert(self.spec_p(x, y2) == mid.spec_p(x, c.height - 1));
                        assert(mid.spec_p(x, c.height - 1) == (if 0 <= c.height - 1 < c.height && (
                        x < 0 || c.width <= x) {
                            o.padded_val(x, c.height - 1)
                        } else {
                            o.spec_p(x, c.height - 1)
                        }));
                        assert(mid.spec_p(x, c.height - 1) == o.padded_val(x, y2));
                    } else {
                        assert(self.spec_p(x, y2) == mid.spec_p(x, y2));
                        assert(mid.spec_p(x, y2) == (if 0 <= y2 < c.height && (x < 0 || c.width
                            <= x) {
                            o.padded_val(x, y2)
                        } else if -(c.yorigin as int) <= y2 < 0 {
                            o.padded_val(x, y2)
                        } else if c.height <= y2 < c.height + j {
                            o.padded_val(x, y2)
                        } else {
                            o.spec_p(x, y2)
                        }));
                    }
                }
            }
            j = j + 1;
        }

        proof {
            assert forall|x: int, y2: int| c.in_buffer(x, y2) implies #[trigger] self.spec_p(
                x,
                y2,
            ) == o.padded_val(x, y2) by {
                if 0 <= y2 < c.height && 0 <= x < c.width {
                    assert(self.spec_p(x, y2) == o.spec_p(x, y2));
                }
            }
            o.lemma_pad_borders(*self);
        }
    }

    /// The 2x2 box filter of this plane's samples around (2x, 2y): their
    /// rounded average.
    pub open spec fn box2(self, x: int, y: int) -> int {
        (self.spec_p(2 * x, 2 * y) + self.spec_p(2 * x + 1, 2 * y) + self.spec_p(2 * x, 2 * y + 1)
            + self.spec_p(2 * x + 1, 2 * y + 1) + 2) / 4
    }

    /// Fills the visible region with the 2x box-filtered samples of `src`,
    /// a plane of exactly twice this plane's width and height.
    pub fn downsample_from(&mut self, src: &Plane<T>)
        requires
            old(self).wf(),
            src.wf(),
            old(self).cfg.width * 2 == src.cfg.width,
            old(self).cfg.height * 2 == src.cfg.height,
        ensures
            final(self).wf(),
            final(self).cfg == old(self).cfg,
            forall|x: int, y: int|
                0 <= x < old(self).cfg.width && 0 <= y < old(self).cfg.height
                    ==> #[trigger] final(self).spec_p(x, y) == src.box2(x, y),
            forall|x: int, y: int|
                old(self).cfg.in_buffer(x, y) && !(0 <= x < old(self).cfg.width && 0 <= y
                    < old(self).cfg.height) ==> #[trigger] final(self).spec_p(x, y) == old(
                    self,
                ).spec_p(x, y),
    {
        let ghost o = *old(self);
        let ghost c = old(self).cfg;
        let width: usize = self.cfg.width;
        let height: usize = self.cfg.height;
        let mut row: usize = 0;
        while row < height
            invariant
                self.wf(),
                self.cfg == c,
                o.cfg == c,
                o.wf(),
                src.wf(),
                width == c.width,
                height == c.height,
                c.width * 2 == src.cfg.width,
                c.height * 2 == src.cfg.height,
                row <= height,
                forall|x: int, y: int|
                    c.in_buffer(x, y) ==> #[trigger] self.spec_p(x, y) == (
                    if 0 <= x < c.width && 0 <= y < row {
                        src.box2(x, y)
                    } else {
                        o.spec_p(x, y)
                    }),
            decreases height - row,
        {
            let mut col: usize = 0;
            while col < width
                invariant
                    self.wf(),
                    self.cfg == c,
                    o.cfg == c,
                    o.wf(),
                    src.wf(),
                    width == c.width,
                    height == c.height,
                    c.width * 2 == src.cfg.width,
                    c.height * 2 == src.cfg.height,
                    row < height,
                    col <= width,
                    forall|x: int, y: int|
                        c.in_buffer(x, y) ==> #[trigger] self.spec_p(x, y) == (
                        if 0 <= x < c.width && 0 <= y < row {
                            src.box2(x, y)
                        } else if y == row && 0 <= x < col {
                            src.box2(x, y)
                        } else {
                            o.spec_p(x, y)
                        }),
                decreases width - col,
            {
                let p00: T = src.p(2 * col, 2 * row);
                let p10: T = src.p(2 * col + 1, 2 * row);
                let p01: T = src.p(2 * col, 2 * row + 1);
                let p11: T = src.p(2 * col + 1, 2 * row + 1);
                proof {
                    T::lemma_width();
                    p00.lemma_val();
                    p10.lemma_val();
                    p01.lemma_val();
                    p11.lemma_val();
                }
                let sum: u32 = p00.to_u32() + p10.to_u32() + p01.to_u32() + p11.to_u32();
                let t: u32 = sum + 2;
                let avg: u32 = t >> 2;
                proof {
                    assert(t >> 2u32 == t / 4) by (bit_vector);
                    assert(t as int / 4 <= T::spec_max()) by (nonlinear_arith)
                        requires
                            t as int <= 4 * T::spec_max() + 2,
                            0 <= T::spec_max(),
                    ;
                }
                let v: T = T::from_u32(avg);
                let ghost mid = *self;
                self.pset(col as isize, row as isize, v);
                proof {
                    assert(v.spec_val() == src.box2(col as int, row as int));
                    assert forall|x: int, y: int| c.in_buffer(x, y) implies #[trigger] self.spec_p(
                        x,
                        y,
                    ) == (if 0 <= x < c.width && 0 <= y < row {
                        src.box2(x, y)
                    } else if y == row && 0 <= x < col + 1 {
                        src.box2(x, y)
                    } else {
                        o.spec_p(x, y)
                    }) by {
                        lemma_pos_in_bounds(c, x, y);
                        lemma_pos_in_bounds(c, col as int, row as int);
                        if x == col as int && y == row as int {
                            assert(self.spec_p(x, y) == v.spec_val());
                        } else {
                            if c.pos(x, y) == c.pos(col as int, row as int) {
                                lemma_pos_unique(c, x, y, col as int, row as int);
                            }
                            assert(self.spec_p(x, y) == mid.spec_p(x, y));
                            assert(mid.spec_p(x, y) == (if 0 <= x < c.width && 0 <= y < row {
                                src.box2(x, y)
                            } else if y == row && 0 <= x < col {
                                src.box2(x, y)
                            } else {
                                o.spec_p(x, y)
                            }));
                        }
                    }
                }
                col = col + 1;
            }
            row = row + 1;
        }
    }

    /// Copies a row-major byte buffer into the visible region,
    /// reinterpreting bytes per `source_bytewidth`: a direct cast for width
    /// 1, little-endian 16-bit values for width 2.  Any other byte width
    /// writes nothing; this leniency is deliberate and callers must not
    /// rely on it.
    pub fn copy_from_raw_u8(&mut self, source: &[u8], source_stride: usize, source_bytewidth: usize)
        requires
            old(self).wf(),
            source_bytewidth == 2 ==> T::spec_bytes() == 2,
            source_bytewidth == 1 ==> source_stride >= old(self).cfg.width,
            source_bytewidth == 2 ==> source_stride as int >= 2 * old(self).cfg.width,
            source_bytewidth == 1 && 1 <= old(self).cfg.height ==> (old(self).cfg.height - 1)
                * source_stride + old(self).cfg.width <= source@.len(),
            source_bytewidth == 2 && 1 <= old(self).cfg.height ==> (old(self).cfg.height - 1)
                * source_stride + 2 * old(self).cfg.width <= source@.len(),
        ensures
            final(self).wf(),
            final(self).cfg == old(self).cfg,
            (source_bytewidth == 1 || source_bytewidth == 2) ==> forall|x: int, y: int|
                0 <= x < old(self).cfg.width && 0 <= y < old(self).cfg.height
                    ==> #[trigger] final(self).spec_p(x, y) == raw_val(
                    source@,
                    source_stride as int,
                    source_bytewidth as int,
                    x,
                    y,
                ),
            (source_bytewidth == 1 || source_bytewidth == 2) ==> forall|x: int, y: int|
                old(self).cfg.in_buffer(x, y) && !(0 <= x < old(self).cfg.width && 0 <= y < old(
                    self,
                ).cfg.height) ==> #[trigger] final(self).spec_p(x, y) == old(self).spec_p(x, y),
            !(source_bytewidth == 1 || source_bytewidth == 2) ==> final(self).data@ == old(
                self,
            ).data@,
    {
        if source_bytewidth != 1 && source_bytewidth != 2 {
            return ;
        }
        let ghost o = *old(self);
        let ghost c = old(self).cfg;
        let width: usize = self.cfg.width;
        let height: usize = self.cfg.height;
        let slen: usize = source.len();
        proof {
            T::lemma_width();
        }
        let mut row: usize = 0;
        while row < height
            invariant
                self.wf(),
                self.cfg == c,
                o.cfg == c,
                o.wf(),
                width == c.width,
                height == c.height,
                row <= height,
                slen == source@.len(),
                source_bytewidth == 1 || source_bytewidth == 2,
                source_bytewidth == 2 ==> T::spec_bytes() == 2,
                T::spec_max() == if T::spec_bytes() == 1 { 255int } else { 65535int },
                T::spec_bytes() == 1 || T::spec_bytes() == 2,
                source_bytewidth == 1 ==> source_stride >= c.width,
                source_bytewidth == 2 ==> source_stride as int >= 2 * c.width,
                source_bytewidth == 1 && 1 <= c.height ==> (c.height - 1) * source_stride
                    + c.width <= source@.len(),
                source_bytewidth == 2 && 1 <= c.height ==> (c.height - 1) * source_stride + 2
                    * c.width <= source@.len(),
                forall|x: int, y: int|
                    c.in_buffer(x, y) ==> #[trigger] self.spec_p(x, y) == (
                    if 0 <= x < c.width && 0 <= y < row {
                        raw_val(source@, source_stride as int, source_bytewidth as int, x, y)
                    } else {
                        o.spec_p(x, y)
                    }),
            decreases height - row,
        {
            let mut col: usize = 0;
            while col < width
                invariant
                    self.wf(),
                    self.cfg == c,
                    o.cfg == c,
                    o.wf(),
                    width == c.width,
                    height == c.height,
                    row < height,
                    col <= width,
                    slen == source@.len(),
                    source_bytewidth == 1 || source_bytewidth == 2,
                    source_bytewidth == 2 ==> T::spec_bytes() == 2,
                    T::spec_max() == if T::spec_bytes() == 1 { 255int } else { 65535int },
                    T::spec_bytes() == 1 || T::spec_bytes() == 2,
                    source_bytewidth == 1 ==> source_stride >= c.width,
                    source_bytewidth == 2 ==> source_stride as int >= 2 * c.width,
                    source_bytewidth == 1 ==> (c.height - 1) * source_stride + c.width
                        <= source@.len(),
                    source_bytewidth == 2 ==> (c.height - 1) * source_stride + 2 * c.width
                        <= source@.len(),
                    forall|x: int, y: int|
                        c.in_buffer(x, y) ==> #[trigger] self.spec_p(x, y) == (
                        if 0 <= x < c.width && 0 <= y < row {
                            raw_val(source@, source_stride as int, source_bytewidth as int, x, y)
                        } else if y == row && 0 <= x < col {
                            raw_val(source@, source_stride as int, source_bytewidth as int, x, y)
                        } else {
                            o.spec_p(x, y)
                        }),
                decreases width - col,
            {
                proof {
                    if source_bytewidth == 1 {
                        assert(row * source_stride + col < source@.len()) by (nonlinear_arith)
                            requires
                                0 <= row as int <= c.height - 1,
                                0 <= source_stride,
                                0 <= col < c.width,
                                (c.height - 1) * source_stride + c.width <= source@.len(),
                        ;
                    } else {
                        assert(row * source_stride + 2 * col + 1 < source@.len())
                            by (nonlinear_arith)
                            requires
                                0 <= row as int <= c.height - 1,
                                0 <= source_stride,
                                0 <= col < c.width,
                                (c.height - 1) * source_stride + 2 * c.width <= source@.len(),
                        ;
                    }
                }
                let v: T = if source_bytewidth == 1 {
                    let b0: u8 = source[row * source_stride + col];
                    T::from_u32(b0 as u32)
                } else {
                    let base: usize = row * source_stride + 2 * col;
                    let lo: u8 = source[base];
                    let hi: u8 = source[base + 1];
                    T::from_u32(hi as u32 * 256 + lo as u32)
                };
                let ghost mid = *self;
                self.pset(col as isize, row as isize, v);
                proof {
                    assert(v.spec_val() == raw_val(
                        source@,
                        source_stride as int,
                        source_bytewidth as int,
                        col as int,
                        row as int,
                    ));
                    assert forall|x: int, y: int| c.in_buffer(x, y) implies #[trigger] self.spec_p(
                        x,
                        y,
                    ) == (if 0 <= x < c.width && 0 <= y < row {
                        raw_val(source@, source_stride as int, source_bytewidth as int, x, y)
                    } else if y == row && 0 <= x < col + 1 {
                        raw_val(source@, source_stride as int, source_bytewidth as int, x, y)
                    } else {
                        o.spec_p(x, y)
                    }) by {
                        lemma_pos_in_bounds(c, x, y);
                        lemma_pos_in_bounds(c, col as int, row as int);
                        if x == col as int && y == row as int {
                            assert(self.spec_p(x, y) == v.spec_val());
                        } else {
                            if c.pos(x, y) == c.pos(col as int, row as int) {
                                lemma_pos_unique(c, x, y, col as int, row as int);
                            }
                            assert(self.spec_p(x, y) == mid.spec_p(x, y));
                            assert(mid.spec_p(x, y) == (if 0 <= x < c.width && 0 <= y < row {
                                raw_val(source@, source_stride as int, source_bytewidth as int, x, y)
                            } else if y == row && 0 <= x < col {
                                raw_val(source@, source_stride as int, source_bytewidth as int, x, y)
                            } else {
                                o.spec_p(x, y)
                            }));
                        }
                    }
                }
                col = col + 1;
            }
            row = row + 1;
        }
    }

    /// The sample at the visible coordinate (x, y).
    pub fn p(&self, x: usize, y: usize) -> (r: T)
        requires
            self.wf(),
            x + self.cfg.xorigin < self.cfg.stride,
            y + self.cfg.yorigin < self.cfg.alloc_height,
        ensures
            r == self.data@[self.cfg.pos(x as int, y as int)],
            r.spec_val() == self.spec_p(x as int, y as int),
    {
        let i: usize = self.index(x, y);
        self.data[i]
    }

    /// The buffer from the visible origin to the end, as one slice.
    pub fn data_origin(&self) -> (r: &[T])
        requires
            self.wf(),
            self.cfg.pos(0, 0) <= self.data@.len(),
        ensures
            r@ == self.data@.subrange(self.cfg.pos(0, 0), self.data@.len() as int),
    {
        let base: usize = self.cfg.yorigin * self.cfg.stride + self.cfg.xorigin;
        slice_subrange(self.data.as_slice(), base, self.data.len())
    }

    /// The buffer from the visible origin to the end, as one mutable slice.
    pub fn data_origin_mut(&mut self) -> (r: &mut [T])
        requires
            old(self).wf(),
            old(self).cfg.pos(0, 0) <= old(self).data@.len(),
        ensures
            r@ == old(self).data@.subrange(old(self).cfg.pos(0, 0), old(self).data@.len() as int),
            final(self).cfg == old(self).cfg,
            final(self).data@ == old(self).data@.subrange(0, old(self).cfg.pos(0, 0)) + final(r)@,
    {
        let base: usize = self.cfg.yorigin * self.cfg.stride + self.cfg.xorigin;
        let s: &mut [T] = self.data.as_mut_slice();
        let (_, tail) = s.split_at_mut(base);
        tail
    }

    /// A read cursor at the given offset.
    pub fn slice(&self, po: &PlaneOffset) -> (r: PlaneSlice<'_, T>)
        ensures
            *r.plane == *self,
            r.x == po.x,
            r.y == po.y,
    {
        PlaneSlice { plane: self, x: po.x, y: po.y }
    }

    /// A write cursor at the given offset; it borrows the plane
    /// exclusively, so no other view can be live at the same time.
    pub fn mut_slice(&mut self, po: &PlaneOffset) -> (r: PlaneMutSlice<'_, T>)
        ensures
            *r.plane == *old(self),
            r.x == po.x,
            r.y == po.y,
            *final(r.plane) == *final(self),
    {
        PlaneMutSlice { plane: self, x: po.x, y: po.y }
    }

    /// A row-major iterator over the visible samples, skipping stride
    /// padding.
    pub fn iter(&self) -> (r: PlaneIter<'_, T>)
        requires
            self.wf(),
        ensures
            r.wf(),
            *r.plane == *self,
            r.x == 0,
            r.y == 0,
    {
        PlaneIter::new(self)
    }
}

/// A row-major cursor over the visible samples of a plane: finite and not
/// restartable.
#[derive(Clone, Copy)]
pub struct PlaneIter<'a, T: Pixel> {
    pub plane: &'a Plane<T>,
    pub x: usize,
    pub y: usize,
}

impl<'a, T: Pixel> PlaneIter<'a, T> {
    /// The cursor invariant: it points at a visible sample, or one past the
    /// last row.
    pub open spec fn wf(self) -> bool {
        &&& self.plane.wf()
        &&& self.y <= self.plane.cfg.height
        &&& (self.x == 0 || (self.y < self.plane.cfg.height && self.x < self.plane.cfg.width))
    }

    /// How many samples the cursor has already yielded.
    pub open spec fn sofar(self) -> int {
        self.y * self.plane.cfg.width + self.x
    }

    pub fn new(plane: &'a Plane<T>) -> (r: Self)
        requires
            plane.wf(),
        ensures
            r.wf(),
            *r.plane == *plane,
            r.x == 0,
            r.y == 0,
            r.sofar() == 0,
    {
        Self { plane, x: 0, y: 0 }
    }

    fn width(&self) -> (r: usize)
        ensures
            r == self.plane.cfg.width,
    {
        self.plane.cfg.width
    }

    fn height(&self) -> (r: usize)
        ensures
            r == self.plane.cfg.height,
    {
        self.plane.cfg.height
    }

    /// Yields the sample under the cursor and advances in row-major order;
    /// yields nothing once every visible sample has been produced.  A plane
    /// without visible samples yields nothing at all.
    pub fn next(&mut self) -> (r: Option<T>)
        requires
            old(self).wf(),
        ensures
            final(self).wf(),
            *final(self).plane == *old(self).plane,
            old(self).y < old(self).plane.cfg.height && 0 < old(self).plane.cfg.width ==> {
                &&& r matches Some(v) && v.spec_val() == old(self).plane.spec_p(
                    old(self).x as int,
                    old(self).y as int,
                )
                &&& final(self).sofar() == old(self).sofar() + 1
            },
            !(old(self).y < old(self).plane.cfg.height && 0 < old(self).plane.cfg.width) ==> {
                &&& r is None
                &&& final(self).x == old(self).x
                &&& final(self).y == old(self).y
            },
    {
        if self.y >= self.height() || self.width() == 0 {
            return None;
        }
        let pixel: T = self.plane.p(self.x, self.y);
        proof {
            let yv = self.y as int;
            let wv = self.plane.cfg.width as int;
            assert((yv + 1) * wv == yv * wv + wv) by (nonlinear_arith);
        }
        if self.x == self.width() - 1 {
            self.x = 0;
            self.y = self.y + 1;
        } else {
            self.x = self.x + 1;
        }
        Some(pixel)
    }
}

} // verus!
