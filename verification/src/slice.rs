use vstd::prelude::*;
use vstd::slice::slice_subrange;

use crate::pixel::Pixel;
use crate::plane::clamp_i;
use crate::plane::lemma_pos_in_bounds;
use crate::plane::Plane;

verus! {

/// A read-only cursor into a plane at a coordinate offset; negative
/// coordinates address the border region.
#[derive(Clone, Copy)]
pub struct PlaneSlice<'a, T: Pixel> {
    pub plane: &'a Plane<T>,
    pub x: isize,
    pub y: isize,
}

impl<'a, T: Pixel> PlaneSlice<'a, T> {
    /// Buffer index of the cursor position.
    pub open spec fn base(self) -> int {
        self.plane.cfg.pos(self.x as int, self.y as int)
    }

    /// The cursor position lies inside the buffer rectangle, or just past
    /// its right or bottom edge.
    pub open spec fn pos_in_box(self) -> bool {
        &&& 0 <= self.x + self.plane.cfg.xorigin <= self.plane.cfg.stride
        &&& 0 <= self.y + self.plane.cfg.yorigin <= self.plane.cfg.alloc_height
    }

    /// The buffer from the cursor position to the end, as one slice.
    pub fn as_slice(&self) -> (r: &'a [T])
        requires
            self.plane.wf(),
            self.pos_in_box(),
            self.base() <= self.plane.data@.len(),
        ensures
            r@ == self.plane.data@.subrange(self.base(), self.plane.data@.len() as int),
    {
        let stride: usize = self.plane.cfg.stride;
        let row: usize = (self.y + self.plane.cfg.yorigin as isize) as usize;
        let col: usize = (self.x + self.plane.cfg.xorigin as isize) as usize;
        let base: usize = row * stride + col;
        slice_subrange(self.plane.data.as_slice(), base, self.plane.data.len())
    }

    /// Buffer index of the cursor position once clamped into the
    /// addressable range.
    pub open spec fn clamped_base(self) -> int {
        let c = self.plane.cfg;
        (clamp_i(self.y as int, -(c.yorigin as int), c.height as int) + c.yorigin) * c.stride + (
        clamp_i(self.x as int, -(c.xorigin as int), c.width as int) + c.xorigin)
    }

    /// The buffer from the clamped cursor position to the end: the
    /// coordinate is first clamped into `[-origin, visible size]` on each
    /// axis.
    pub fn as_slice_clamped(&self) -> (r: &'a [T])
        requires
            self.plane.wf(),
            self.clamped_base() <= self.plane.data@.len(),
        ensures
            r@ == self.plane.data@.subrange(self.clamped_base(), self.plane.data@.len() as int),
    {
        let c = &self.plane.cfg;
        let h: isize = c.height as isize;
        let w: isize = c.width as isize;
        let ymin: isize = if self.y < h {
            self.y
        } else {
            h
        };
        let ys: isize = ymin + c.yorigin as isize;
        let row: usize = if ys > 0 {
            ys as usize
        } else {
            0
        };
        let xmin: isize = if self.x < w {
            self.x
        } else {
            w
        };
        let xs: isize = xmin + c.xorigin as isize;
        let col: usize = if xs > 0 {
            xs as usize
        } else {
            0
        };
        let base: usize = row * c.stride + col;
        slice_subrange(self.plane.data.as_slice(), base, self.plane.data.len())
    }

    /// The same cursor with its coordinate clamped into the addressable
    /// range: x into `[-origin_x, width]`, y into `[-origin_y, height]`.
    pub fn clamp(&self) -> (r: PlaneSlice<'a, T>)
        requires
            self.plane.wf(),
        ensures
            *r.plane == *self.plane,
            r.x as int == clamp_i(
                self.x as int,
                -(self.plane.cfg.xorigin as int),
                self.plane.cfg.width as int,
            ),
            r.y as int == clamp_i(
                self.y as int,
                -(self.plane.cfg.yorigin as int),
                self.plane.cfg.height as int,
            ),
    {
        let w: isize = self.plane.cfg.width as isize;
        let h: isize = self.plane.cfg.height as isize;
        let nxo: isize = -(self.plane.cfg.xorigin as isize);
        let nyo: isize = -(self.plane.cfg.yorigin as isize);
        let x1: isize = if self.x < w {
            self.x
        } else {
            w
        };
        let x2: isize = if x1 > nxo {
            x1
        } else {
            nxo
        };
        let y1: isize = if self.y < h {
            self.y
        } else {
            h
        };
        let y2: isize = if y1 > nyo {
            y1
        } else {
            nyo
        };
        PlaneSlice { plane: self.plane, x: x2, y: y2 }
    }

    /// Exactly `width` samples starting at the cursor position.
    pub fn as_slice_w_width(&self, width: usize) -> (r: &'a [T])
        requires
            self.plane.wf(),
            self.pos_in_box(),
            self.base() + width <= self.plane.data@.len(),
        ensures
            r@ == self.plane.data@.subrange(self.base(), self.base() + width),
    {
        let stride: usize = self.plane.cfg.stride;
        let row: usize = (self.y + self.plane.cfg.yorigin as isize) as usize;
        let col: usize = (self.x + self.plane.cfg.xorigin as isize) as usize;
        let base: usize = row * stride + col;
        slice_subrange(self.plane.data.as_slice(), base, base + width)
    }

    /// A row iterator that yields `width` samples per row, starting at the
    /// cursor position, until the next row would run past the buffer.
    pub fn iter_width(&self, width: usize) -> (r: IterWidth<'a, T>)
        requires
            self.plane.wf(),
            self.pos_in_box(),
            1 <= width,
        ensures
            r.ps == *self,
            r.width == width,
            r.wf(),
    {
        IterWidth { ps: *self, width }
    }

    /// The same cursor shifted right by `xo` and down by `yo`.
    pub fn subslice(&self, xo: usize, yo: usize) -> (r: PlaneSlice<'a, T>)
        requires
            xo <= isize::MAX,
            yo <= isize::MAX,
            self.x + xo <= isize::MAX,
            self.y + yo <= isize::MAX,
        ensures
            *r.plane == *self.plane,
            r.x == self.x + xo,
            r.y == self.y + yo,
    {
        PlaneSlice { plane: self.plane, x: self.x + xo as isize, y: self.y + yo as isize }
    }

    /// The same cursor shifted by a signed offset on each axis.
    pub fn reslice(&self, xo: isize, yo: isize) -> (r: PlaneSlice<'a, T>)
        requires
            isize::MIN <= self.x + xo <= isize::MAX,
            isize::MIN <= self.y + yo <= isize::MAX,
        ensures
            *r.plane == *self.plane,
            r.x == self.x + xo,
            r.y == self.y + yo,
    {
        PlaneSlice { plane: self.plane, x: self.x + xo, y: self.y + yo }
    }

    /// A cursor starting `i` pixels above this one.
    pub fn go_up(&self, i: usize) -> (r: PlaneSlice<'a, T>)
        requires
            i <= isize::MAX,
            isize::MIN <= self.y - i,
        ensures
            *r.plane == *self.plane,
            r.x == self.x,
            r.y == self.y - i,
    {
        PlaneSlice { plane: self.plane, x: self.x, y: self.y - i as isize }
    }

    /// A cursor starting `i` pixels to the left of this one.
    pub fn go_left(&self, i: usize) -> (r: PlaneSlice<'a, T>)
        requires
            i <= isize::MAX,
            isize::MIN <= self.x - i,
        ensures
            *r.plane == *self.plane,
            r.x == self.x - i,
            r.y == self.y,
    {
        PlaneSlice { plane: self.plane, x: self.x - i as isize, y: self.y }
    }

    /// The sample at (add_x, add_y) to the right of and below the cursor.
    pub fn p(&self, add_x: usize, add_y: usize) -> (r: T)
        requires
            self.plane.wf(),
            add_x <= isize::MAX,
            add_y <= isize::MAX,
            self.plane.cfg.in_buffer(self.x + add_x, self.y + add_y),
        ensures
            r == self.plane.data@[self.plane.cfg.pos(self.x + add_x, self.y + add_y)],
            r.spec_val() == self.plane.spec_p(self.x + add_x, self.y + add_y),
    {
        proof {
            lemma_pos_in_bounds(self.plane.cfg, self.x + add_x, self.y + add_y);
        }
        let new_y: usize = (self.y + add_y as isize + self.plane.cfg.yorigin as isize) as usize;
        let new_x: usize = (self.x + add_x as isize + self.plane.cfg.xorigin as isize) as usize;
        self.plane.data[new_y * self.plane.cfg.stride + new_x]
    }
}

/// A row iterator over a plane: yields one fixed-width row slice at a time
/// until the next row would run past the end of the buffer.
pub struct IterWidth<'a, T: Pixel> {
    pub ps: PlaneSlice<'a, T>,
    pub width: usize,
}

impl<'a, T: Pixel> IterWidth<'a, T> {
    /// The iterator invariant: a valid plane, a position inside the buffer
    /// box, and a row width of at least one sample.
    pub open spec fn wf(self) -> bool {
        &&& self.ps.plane.wf()
        &&& self.ps.pos_in_box()
        &&& 1 <= self.width
    }

    /// Yields the `width` samples starting at the cursor and moves one row
    /// down; yields nothing once the requested row would run past the end
    /// of the buffer.
    pub fn next(&mut self) -> (r: Option<&'a [T]>)
        requires
            old(self).wf(),
        ensures
            final(self).wf(),
            *final(self).ps.plane == *old(self).ps.plane,
            final(self).width == old(self).width,
            final(self).ps.x == old(self).ps.x,
            old(self).ps.base() + old(self).width > old(self).ps.plane.data@.len() ==> r is None
                && final(self).ps.y == old(self).ps.y,
            old(self).ps.base() + old(self).width <= old(self).ps.plane.data@.len() ==> {
                &&& r matches Some(s) && s@ == old(self).ps.plane.data@.subrange(
                    old(self).ps.base(),
                    old(self).ps.base() + old(self).width,
                )
                &&& final(self).ps.y == old(self).ps.y + 1
            },
    {
        let stride: usize = self.ps.plane.cfg.stride;
        let alloc: usize = self.ps.plane.cfg.alloc_height;
        let dlen: usize = self.ps.plane.data.len();
        let rs: isize = self.ps.y + self.ps.plane.cfg.yorigin as isize;
        let col: usize = (self.ps.x + self.ps.plane.cfg.xorigin as isize) as usize;
        let row: usize = rs as usize;
        proof {
            let rv = row as int;
            let cv = col as int;
            let sv = stride as int;
            let av = alloc as int;
            assert(rv < av ==> rv * sv + cv <= sv * av) by (nonlinear_arith)
                requires
                    0 <= cv <= sv,
                    0 <= rv,
            ;
            assert(rv >= av ==> rv * sv >= av * sv) by (nonlinear_arith)
                requires
                    0 <= sv,
            ;
            assert(av * sv == sv * av) by (nonlinear_arith);
        }
        if row >= alloc {
            return None;
        }
        let base: usize = row * stride + col;
        if dlen - base < self.width {
            return None;
        }
        self.ps.y = self.ps.y + 1;
        Some(slice_subrange(self.ps.plane.data.as_slice(), base, base + self.width))
    }

    /// How many rows remain before the cursor reaches the plane's visible
    /// height, as an exact lower and upper bound.
    pub fn size_hint(&self) -> (r: (usize, Option<usize>))
        requires
            self.ps.plane.wf(),
            0 <= self.ps.y <= self.ps.plane.cfg.height,
        ensures
            r.0 == self.ps.plane.cfg.height - self.ps.y,
            r.1 == Some(r.0),
    {
        let size: usize = self.ps.plane.cfg.height - self.ps.y as usize;
        (size, Some(size))
    }
}

/// A mutable cursor into a plane at a coordinate offset.  It borrows the
/// plane exclusively: no other view can be live at the same time.
pub struct PlaneMutSlice<'a, T: Pixel> {
    pub plane: &'a mut Plane<T>,
    pub x: isize,
    pub y: isize,
}

impl<'a, T: Pixel> PlaneMutSlice<'a, T> {
    /// Buffer index of the cursor position.
    pub open spec fn base(self) -> int {
        self.plane.cfg.pos(self.x as int, self.y as int)
    }

    /// The cursor position lies inside the buffer rectangle, or just past
    /// its right or bottom edge.
    pub open spec fn pos_in_box(self) -> bool {
        &&& 0 <= self.x + self.plane.cfg.xorigin <= self.plane.cfg.stride
        &&& 0 <= self.y + self.plane.cfg.yorigin <= self.plane.cfg.alloc_height
    }

    /// The buffer from the cursor position to the end, as one mutable
    /// slice.
    pub fn as_mut_slice(&mut self) -> (r: &mut [T])
        requires
            old(self).plane.wf(),
            old(self).pos_in_box(),
            old(self).base() <= old(self).plane.data@.len(),
        ensures
            r@ == old(self).plane.data@.subrange(
                old(self).base(),
                old(self).plane.data@.len() as int,
            ),
            final(self).x == old(self).x,
            final(self).y == old(self).y,
            final(self).plane.cfg == old(self).plane.cfg,
            final(self).plane.data@ == old(self).plane.data@.subrange(0, old(self).base())
                + final(r)@,
    {
        let stride: usize = self.plane.cfg.stride;
        let row: usize = (self.y + self.plane.cfg.yorigin as isize) as usize;
        let col: usize = (self.x + self.plane.cfg.xorigin as isize) as usize;
        let base: usize = row * stride + col;
        let s: &mut [T] = self.plane.data.as_mut_slice();
        let (_, tail) = s.split_at_mut(base);
        tail
    }

    /// Exactly `width` samples starting at the cursor position, as a
    /// mutable slice.
    pub fn as_mut_slice_w_width(&mut self, width: usize) -> (r: &mut [T])
        requires
            old(self).plane.wf(),
            old(self).pos_in_box(),
            old(self).base() + width <= old(self).plane.data@.len(),
        ensures
            r@ == old(self).plane.data@.subrange(old(self).base(), old(self).base() + width),
            final(self).x == old(self).x,
            final(self).y == old(self).y,
            final(self).plane.cfg == old(self).plane.cfg,
            final(self).plane.data@ == old(self).plane.data@.subrange(0, old(self).base())
                + final(r)@ + old(self).plane.data@.subrange(
                old(self).base() + width,
                old(self).plane.data@.len() as int,
            ),
    {
        let stride: usize = self.plane.cfg.stride;
        let row: usize = (self.y + self.plane.cfg.yorigin as isize) as usize;
        let col: usize = (self.x + self.plane.cfg.xorigin as isize) as usize;
        let base: usize = row * stride + col;
        let s: &mut [T] = self.plane.data.as_mut_slice();
        let (_, rest) = s.split_at_mut(base);
        let (mid, _) = rest.split_at_mut(width);
        mid
    }

    /// The buffer from (add_x, add_y) past the cursor to the end, read
    /// only.
    pub fn offset(&self, add_x: usize, add_y: usize) -> (r: &[T])
        requires
            self.plane.wf(),
            add_x <= isize::MAX,
            add_y <= isize::MAX,
            0 <= self.x + add_x + self.plane.cfg.xorigin <= self.plane.cfg.stride,
            0 <= self.y + add_y + self.plane.cfg.yorigin <= self.plane.cfg.alloc_height,
            self.plane.cfg.pos(self.x + add_x, self.y + add_y) <= self.plane.data@.len(),
        ensures
            r@ == old(self.plane).data@.subrange(
                old(self.plane).cfg.pos(self.x + add_x, self.y + add_y),
                old(self.plane).data@.len() as int,
            ),
    {
        let stride: usize = self.plane.cfg.stride;
        let new_y: usize = (self.y + add_y as isize + self.plane.cfg.yorigin as isize) as usize;
        let new_x: usize = (self.x + add_x as isize + self.plane.cfg.xorigin as isize) as usize;
        let base: usize = new_y * stride + new_x;
        slice_subrange(self.plane.data.as_slice(), base, self.plane.data.len())
    }

    /// The buffer from (add_x, add_y) past the cursor to the end, as a
    /// mutable slice.
    pub fn offset_as_mutable(&mut self, add_x: usize, add_y: usize) -> (r: &mut [T])
        requires
            old(self).plane.wf(),
            add_x <= isize::MAX,
            add_y <= isize::MAX,
            0 <= old(self).x + add_x + old(self).plane.cfg.xorigin <= old(self).plane.cfg.stride,
            0 <= old(self).y + add_y + old(self).plane.cfg.yorigin <= old(
                self,
            ).plane.cfg.alloc_height,
            old(self).plane.cfg.pos(old(self).x + add_x, old(self).y + add_y) <= old(
                self,
            ).plane.data@.len(),
        ensures
            r@ == old(self).plane.data@.subrange(
                old(self).plane.cfg.pos(old(self).x + add_x, old(self).y + add_y),
                old(self).plane.data@.len() as int,
            ),
            final(self).x == old(self).x,
            final(self).y == old(self).y,
            final(self).plane.cfg == old(self).plane.cfg,
            final(self).plane.data@ == old(self).plane.data@.subrange(
                0,
                old(self).plane.cfg.pos(old(self).x + add_x, old(self).y + add_y),
            ) + final(r)@,
    {
        let stride: usize = self.plane.cfg.stride;
        let new_y: usize = (self.y + add_y as isize + self.plane.cfg.yorigin as isize) as usize;
        let new_x: usize = (self.x + add_x as isize + self.plane.cfg.xorigin as isize) as usize;
        let base: usize = new_y * stride + new_x;
        let s: &mut [T] = self.plane.data.as_mut_slice();
        let (_, tail) = s.split_at_mut(base);
        tail
    }

    /// A read cursor starting `i` pixels above this one.
    pub fn go_up(&self, i: usize) -> (r: PlaneSlice<'_, T>)
        requires
            i <= isize::MAX,
            isize::MIN <= self.y - i,
        ensures
            *r.plane == *old(self.plane),
            r.x == self.x,
            r.y == self.y - i,
    {
        PlaneSlice { plane: self.plane, x: self.x, y: self.y - i as isize }
    }

    /// A read cursor starting `i` pixels to the left of this one.
    pub fn go_left(&self, i: usize) -> (r: PlaneSlice<'_, T>)
        requires
            i <= isize::MAX,
            isize::MIN <= self.x - i,
        ensures
            *r.plane == *old(self.plane),
            r.x == self.x - i,
            r.y == self.y,
    {
        PlaneSlice { plane: self.plane, x: self.x - i as isize, y: self.y }
    }

    /// The sample at (add_x, add_y) to the right of and below the cursor.
    pub fn p(&self, add_x: usize, add_y: usize) -> (r: T)
        requires
            self.plane.wf(),
            add_x <= isize::MAX,
            add_y <= isize::MAX,
            self.plane.cfg.in_buffer(self.x + add_x, self.y + add_y),
        ensures
            r == old(self.plane).data@[old(self.plane).cfg.pos(self.x + add_x, self.y + add_y)],
            r.spec_val() == old(self.plane).spec_p(self.x + add_x, self.y + add_y),
    {
        proof {
            lemma_pos_in_bounds(self.plane.cfg, self.x + add_x, self.y + add_y);
        }
        let new_y: usize = (self.y + add_y as isize + self.plane.cfg.yorigin as isize) as usize;
        let new_x: usize = (self.x + add_x as isize + self.plane.cfg.xorigin as isize) as usize;
        self.plane.data[new_y * self.plane.cfg.stride + new_x]
    }
}

} // verus!
