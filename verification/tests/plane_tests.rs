use pixel_plane::plane::Plane;
use pixel_plane::plane::PlaneOffset;

fn idx(p: &Plane<u8>, x: isize, y: isize) -> usize {
    ((y + p.cfg.yorigin as isize) * p.cfg.stride as isize + x + p.cfg.xorigin as isize) as usize
}

#[test]
fn new_geometry_scenario() {
    let p: Plane<u8> = Plane::new(4, 2, 0, 0, 2, 2);
    assert_eq!(p.cfg.xorigin, 8);
    assert_eq!(p.cfg.yorigin, 2);
    assert_eq!(p.cfg.stride, 16);
    assert_eq!(p.cfg.alloc_height, 6);
    assert_eq!(p.cfg.width, 4);
    assert_eq!(p.cfg.height, 2);
    assert_eq!(p.cfg.xdec, 0);
    assert_eq!(p.cfg.ydec, 0);
    assert_eq!(p.data.len(), 96);
    for i in 0..p.data.len() {
        assert_eq!(p.data[i], 128);
    }
}

#[test]
fn new_geometry_u16() {
    let p: Plane<u16> = Plane::new(4, 2, 0, 0, 2, 2);
    // a u16 sample is two bytes, so the alignment unit is 8 samples
    assert_eq!(p.cfg.xorigin, 4);
    assert_eq!(p.cfg.stride, 16);
    assert_eq!(p.cfg.alloc_height, 6);
    assert_eq!(p.data.len(), 96);
    assert_eq!(p.p(0, 0), 128u16);
}

#[test]
fn new_geometry_invariants() {
    let p: Plane<u8> = Plane::new(5, 3, 1, 1, 4, 1);
    assert_eq!(p.cfg.stride % 16, 0);
    assert_eq!(p.cfg.xorigin % 8, 0);
    assert!(p.cfg.xorigin >= p.cfg.xpad);
    assert!(p.cfg.xorigin + p.cfg.width + p.cfg.xpad <= p.cfg.stride);
    assert_eq!(p.cfg.alloc_height, p.cfg.yorigin + p.cfg.height + p.cfg.ypad);
    assert_eq!(p.data.len(), p.cfg.stride * p.cfg.alloc_height);
}

#[test]
fn copy_from_raw_u8_bytewidth_1() {
    let mut p: Plane<u8> = Plane::new(4, 2, 0, 0, 2, 2);
    let source = vec![1u8, 2, 3, 4, 5, 6, 7, 8];
    p.copy_from_raw_u8(&source, 4, 1);
    assert_eq!(p.p(0, 0), 1);
    assert_eq!(p.p(1, 0), 2);
    assert_eq!(p.p(2, 0), 3);
    assert_eq!(p.p(3, 0), 4);
    assert_eq!(p.p(0, 1), 5);
    assert_eq!(p.p(3, 1), 8);
}

#[test]
fn copy_from_raw_u8_bytewidth_2() {
    let mut p: Plane<u16> = Plane::new(2, 1, 0, 0, 0, 0);
    let source = vec![0x00u8, 0x01, 0xFF, 0xFF];
    p.copy_from_raw_u8(&source, 4, 2);
    assert_eq!(p.p(0, 0), 256);
    assert_eq!(p.p(1, 0), 65535);
}

#[test]
fn copy_from_raw_u8_other_bytewidth_is_noop() {
    let mut p: Plane<u8> = Plane::new(4, 2, 0, 0, 2, 2);
    let source = vec![9u8; 32];
    p.copy_from_raw_u8(&source, 4, 3);
    for i in 0..p.data.len() {
        assert_eq!(p.data[i], 128);
    }
}

#[test]
fn pad_replicates_borders() {
    let mut p: Plane<u8> = Plane::new(4, 2, 0, 0, 2, 2);
    let source = vec![1u8, 2, 3, 4, 5, 6, 7, 8];
    p.copy_from_raw_u8(&source, 4, 1);
    p.pad(4, 2);
    // visible samples kept
    assert_eq!(p.p(0, 0), 1);
    assert_eq!(p.p(3, 1), 8);
    // left border repeats the first visible column
    for y in 0..2isize {
        let first = p.data[idx(&p, 0, y)];
        for x in -8..0isize {
            assert_eq!(p.data[idx(&p, x, y)], first);
        }
    }
    // right border repeats the last visible column
    for y in 0..2isize {
        let last = p.data[idx(&p, 3, y)];
        for x in 4..8isize {
            assert_eq!(p.data[idx(&p, x, y)], last);
        }
    }
    // top rows repeat the first visible row, bottom rows the last one
    for x in -8..8isize {
        for y in -2..0isize {
            assert_eq!(p.data[idx(&p, x, y)], p.data[idx(&p, x, 0)]);
        }
        for y in 2..4isize {
            assert_eq!(p.data[idx(&p, x, y)], p.data[idx(&p, x, 1)]);
        }
    }
}

#[test]
fn pad_subsampled_dimensions() {
    // a chroma plane at half resolution: pad takes the full-resolution size
    let mut p: Plane<u8> = Plane::new(2, 1, 1, 1, 2, 2);
    let source = vec![10u8, 20];
    p.copy_from_raw_u8(&source, 2, 1);
    p.pad(4, 2);
    assert_eq!(p.p(0, 0), 10);
    assert_eq!(p.p(1, 0), 20);
    let left = p.data[(p.cfg.yorigin * p.cfg.stride) as usize];
    assert_eq!(left, 10);
}

#[test]
fn downsample_box_filter() {
    let mut src: Plane<u8> = Plane::new(4, 2, 0, 0, 2, 2);
    let source = vec![1u8, 2, 3, 4, 5, 6, 7, 8];
    src.copy_from_raw_u8(&source, 4, 1);
    let mut dst: Plane<u8> = Plane::new(2, 1, 0, 0, 0, 0);
    dst.downsample_from(&src);
    assert_eq!(dst.p(0, 0), (1 + 2 + 5 + 6 + 2) / 4);
    assert_eq!(dst.p(1, 0), (3 + 4 + 7 + 8 + 2) / 4);
}

#[test]
fn downsample_rounding_bias() {
    let mut src: Plane<u8> = Plane::new(2, 2, 0, 0, 0, 0);
    let source = vec![0u8, 0, 0, 1];
    src.copy_from_raw_u8(&source, 2, 1);
    let mut dst: Plane<u8> = Plane::new(1, 1, 0, 0, 0, 0);
    dst.downsample_from(&src);
    // (0 + 0 + 0 + 1 + 2) >> 2 == 0
    assert_eq!(dst.p(0, 0), 0);
    let source2 = vec![1u8, 1, 1, 3];
    src.copy_from_raw_u8(&source2, 2, 1);
    dst.downsample_from(&src);
    // (1 + 1 + 1 + 3 + 2) >> 2 == 2
    assert_eq!(dst.p(0, 0), 2);
}

#[test]
fn iter_row_major_order_and_count() {
    let mut p: Plane<u8> = Plane::new(4, 2, 0, 0, 2, 2);
    let source = vec![1u8, 2, 3, 4, 5, 6, 7, 8];
    p.copy_from_raw_u8(&source, 4, 1);
    let mut it = p.iter();
    let mut got: Vec<u8> = Vec::new();
    while let Some(v) = it.next() {
        got.push(v);
    }
    assert_eq!(got, vec![1, 2, 3, 4, 5, 6, 7, 8]);
    assert_eq!(got.len(), p.cfg.width * p.cfg.height);
    // the iterator stays exhausted
    assert!(it.next().is_none());
}

#[test]
fn iter_empty_plane_yields_nothing() {
    let p: Plane<u8> = Plane::new(0, 4, 0, 0, 0, 0);
    let mut it = p.iter();
    assert!(it.next().is_none());
}

#[test]
fn data_origin_reads_and_writes() {
    let mut p: Plane<u8> = Plane::new(4, 2, 0, 0, 2, 2);
    assert_eq!(p.data_origin()[0], p.p(0, 0));
    p.data_origin_mut()[0] = 77;
    assert_eq!(p.p(0, 0), 77);
}

#[test]
fn mut_slice_writes_reach_the_plane() {
    let mut p: Plane<u8> = Plane::new(4, 2, 0, 0, 2, 2);
    {
        let mut ms = p.mut_slice(&PlaneOffset { x: 0, y: 0 });
        let s = ms.as_mut_slice_w_width(4);
        s[0] = 42;
        s[3] = 43;
    }
    assert_eq!(p.p(0, 0), 42);
    assert_eq!(p.p(3, 0), 43);
    {
        let mut ms = p.mut_slice(&PlaneOffset { x: 0, y: 1 });
        let s = ms.as_mut_slice();
        s[0] = 9;
    }
    assert_eq!(p.p(0, 1), 9);
}
