use pixel_plane::pixel::Pixel;
use pixel_plane::plane::Plane;
use pixel_plane::plane::PlaneOffset;

#[test]
fn pixel_conversions() {
    assert_eq!(<u8 as Pixel>::from_u32(200), 200u8);
    assert_eq!(200u8.to_u32(), 200);
    assert_eq!(<u8 as Pixel>::bytes(), 1);
    assert_eq!(<u16 as Pixel>::from_u32(60000), 60000u16);
    assert_eq!(60000u16.to_u32(), 60000);
    assert_eq!(<u16 as Pixel>::bytes(), 2);
}

#[test]
fn slice_reads_match_pixels() {
    let mut p: Plane<u8> = Plane::new(4, 2, 0, 0, 2, 2);
    let source = vec![1u8, 2, 3, 4, 5, 6, 7, 8];
    p.copy_from_raw_u8(&source, 4, 1);
    let ps = p.slice(&PlaneOffset { x: 0, y: 0 });
    assert_eq!(ps.as_slice()[0], 1);
    let row = ps.as_slice_w_width(4);
    assert_eq!(row, &[1, 2, 3, 4]);
    assert_eq!(ps.p(1, 1), 6);
    let ps2 = p.slice(&PlaneOffset { x: 2, y: 1 });
    assert_eq!(ps2.as_slice()[0], 7);
}

#[test]
fn slice_shifting() {
    let p: Plane<u8> = Plane::new(4, 2, 0, 0, 2, 2);
    let ps = p.slice(&PlaneOffset { x: 1, y: 1 });
    let sub = ps.subslice(2, 0);
    assert_eq!(sub.x, 3);
    assert_eq!(sub.y, 1);
    let re = ps.reslice(-1, -1);
    assert_eq!(re.x, 0);
    assert_eq!(re.y, 0);
    let up = ps.go_up(1);
    assert_eq!(up.x, 1);
    assert_eq!(up.y, 0);
    let left = ps.go_left(1);
    assert_eq!(left.x, 0);
    assert_eq!(left.y, 1);
}

#[test]
fn slice_clamp() {
    let p: Plane<u8> = Plane::new(4, 2, 0, 0, 2, 2);
    let ps = p.slice(&PlaneOffset { x: 100, y: -100 });
    let c = ps.clamp();
    assert_eq!(c.x, 4);
    assert_eq!(c.y, -2);
    let ps2 = p.slice(&PlaneOffset { x: -100, y: 100 });
    let c2 = ps2.clamp();
    assert_eq!(c2.x, -8);
    assert_eq!(c2.y, 2);
}

#[test]
fn slice_clamped_resolves_inside_buffer() {
    let p: Plane<u8> = Plane::new(4, 2, 0, 0, 2, 2);
    let ps = p.slice(&PlaneOffset { x: -100, y: -100 });
    let s = ps.as_slice_clamped();
    assert_eq!(s.len(), p.data.len());
    assert_eq!(s[0], p.data[0]);
}

#[test]
fn iter_width_yields_height_rows() {
    let mut p: Plane<u8> = Plane::new(4, 3, 0, 0, 2, 0);
    let source = vec![1u8, 2, 3, 4, 5, 6, 7, 8, 9, 10, 11, 12];
    p.copy_from_raw_u8(&source, 4, 1);
    let ps = p.slice(&PlaneOffset { x: 0, y: 0 });
    let mut it = ps.iter_width(4);
    assert_eq!(it.size_hint(), (3, Some(3)));
    let mut rows: Vec<Vec<u8>> = Vec::new();
    while let Some(r) = it.next() {
        rows.push(r.to_vec());
    }
    assert_eq!(rows.len(), 3);
    assert_eq!(rows[0], vec![1, 2, 3, 4]);
    assert_eq!(rows[1], vec![5, 6, 7, 8]);
    assert_eq!(rows[2], vec![9, 10, 11, 12]);
    assert!(it.next().is_none());
}

#[test]
fn iter_width_overrun_terminates_immediately() {
    let p: Plane<u8> = Plane::new(4, 3, 0, 0, 2, 0);
    let ps = p.slice(&PlaneOffset { x: 0, y: 0 });
    // 41 samples per row can never fit in a 48-sample buffer from offset 8
    let mut it = ps.iter_width(41);
    assert!(it.next().is_none());
    assert!(it.next().is_none());
}

#[test]
fn mut_slice_views() {
    let mut p: Plane<u8> = Plane::new(4, 2, 0, 0, 2, 2);
    let source = vec![1u8, 2, 3, 4, 5, 6, 7, 8];
    p.copy_from_raw_u8(&source, 4, 1);
    {
        let mut ms = p.mut_slice(&PlaneOffset { x: 0, y: 0 });
        assert_eq!(ms.p(1, 1), 6);
        assert_eq!(ms.offset(2, 1)[0], 7);
        let up = ms.go_up(0);
        assert_eq!(up.x, 0);
        assert_eq!(up.y, 0);
        let left = ms.go_left(1);
        assert_eq!(left.x, -1);
        let w = ms.offset_as_mutable(1, 0);
        w[0] = 99;
    }
    assert_eq!(p.p(1, 0), 99);
}

#[test]
fn iter_width_runs_to_the_end_of_the_buffer() {
    // with a bottom border present, rows keep coming until the requested
    // width no longer fits in the buffer, not merely `height` of them
    let p: Plane<u8> = Plane::new(4, 2, 0, 0, 2, 2);
    let ps = p.slice(&PlaneOffset { x: 0, y: 0 });
    let mut it = ps.iter_width(4);
    let mut n = 0usize;
    while it.next().is_some() {
        n += 1;
    }
    // alloc_height - yorigin = 6 - 2 rows fit below the visible origin
    assert_eq!(n, 4);
}
