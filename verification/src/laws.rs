use vstd::arithmetic::div_mod::lemma_fundamental_div_mod_converse;
use vstd::prelude::*;

use crate::pixel::Pixel;
use crate::plane::spec_half_unit;
use crate::plane::spec_unit;
use crate::plane::Plane;
use crate::plane::PlaneIter;
use crate::slice::IterWidth;

verus! {

/// Every well-formed plane keeps the construction-time geometry: the
/// stride is a multiple of the alignment unit and leaves room for the
/// visible row plus both horizontal borders, the buffer holds exactly
/// `stride * alloc_height` samples, the visible origin is at least the
/// border size and aligned to half the unit, and the allocation height is
/// the visible height plus both vertical borders.
pub proof fn lemma_geometry<T: Pixel>(p: Plane<T>)
    requires
        p.wf(),
    ensures
        1 <= spec_unit(T::spec_bytes()),
        p.cfg.stride as int % spec_unit(T::spec_bytes()) == 0,
        p.cfg.xorigin as int % spec_half_unit(T::spec_bytes()) == 0,
        p.cfg.xpad <= p.cfg.xorigin,
        p.cfg.xorigin + p.cfg.width + p.cfg.xpad <= p.cfg.stride,
        p.cfg.alloc_height == p.cfg.yorigin + p.cfg.height + p.cfg.ypad,
        p.data@.len() == p.cfg.stride * p.cfg.alloc_height,
{
}

/// The row-major cursor walks the visible samples in the order (0, 0),
/// (1, 0), ..., (width-1, 0), (0, 1), ...: after `sofar()` samples it
/// stands on column `sofar() % width` and row `sofar() / width`, and it is
/// exhausted exactly when `width * height` samples have been yielded.
pub proof fn lemma_iter_row_major<'a, T: Pixel>(it: PlaneIter<'a, T>)
    requires
        it.wf(),
        1 <= it.plane.cfg.width,
    ensures
        it.sofar() % (it.plane.cfg.width as int) == it.x as int,
        it.sofar() / (it.plane.cfg.width as int) == it.y as int,
        0 <= it.sofar() <= it.plane.cfg.width * it.plane.cfg.height,
        (it.sofar() == it.plane.cfg.width * it.plane.cfg.height) <==> it.y == it.plane.cfg.height,
{
    let w = it.plane.cfg.width as int;
    let h = it.plane.cfg.height as int;
    let x = it.x as int;
    let y = it.y as int;
    lemma_fundamental_div_mod_converse(y * w + x, w, y, x);
    assert(y * w + x <= w * h && (y * w + x == w * h ==> y == h) && (y == h ==> y * w + x == w
        * h) && 0 <= y * w + x) by (nonlinear_arith)
        requires
            0 <= x,
            0 <= y <= h,
            1 <= w,
            x == 0 || (y < h && x < w),
    ;
}

/// The row iterator yields another row exactly when the cursor's row still
/// lies inside the allocation; on a plane without a bottom border, started
/// anywhere whose requested width fits inside one row, that means it
/// yields a row for each `y` below the visible height and stops there.
pub proof fn lemma_iter_width_rows<'a, T: Pixel>(it: IterWidth<'a, T>)
    requires
        it.wf(),
        it.ps.x + it.ps.plane.cfg.xorigin + it.width <= it.ps.plane.cfg.stride,
        -(it.ps.plane.cfg.yorigin as int) <= it.ps.y,
    ensures
        (it.ps.base() + it.width <= it.ps.plane.data@.len()) <==> (it.ps.y
            < it.ps.plane.cfg.alloc_height - it.ps.plane.cfg.yorigin),
        it.ps.plane.cfg.ypad == 0 ==> ((it.ps.base() + it.width <= it.ps.plane.data@.len()) <==> (
        it.ps.y < it.ps.plane.cfg.height)),
{
    let c = it.ps.plane.cfg;
    let r = it.ps.y + c.yorigin;
    let colw = it.ps.x + c.xorigin + it.width;
    assert(r < c.alloc_height ==> r * c.stride + colw <= c.stride * c.alloc_height)
        by (nonlinear_arith)
        requires
            0 <= r,
            1 <= it.width,
            0 <= it.ps.x + c.xorigin,
            colw <= c.stride,
    ;
    assert(1 <= colw);
    assert(r >= c.alloc_height ==> r * c.stride + colw > c.stride * c.alloc_height)
        by (nonlinear_arith)
        requires
            1 <= colw,
            colw <= c.stride,
            0 <= c.alloc_height,
    ;
}

} // verus!
