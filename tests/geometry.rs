use soft_raster::{corner_indices, DrawError, GeometryStore, Primitive, Rasterizer};

#[test]
fn handles_from_one_counter_are_distinct() {
    let mut r: Rasterizer<[f32; 3], [f32; 3], f32> = Rasterizer::new(4, 4, [0.0; 3], f32::INFINITY);
    let p0 = r.load_position(vec![[0.0, 0.0, 0.0]]);
    let i0 = r.load_indices(vec![[0, 0, 0]]);
    let p1 = r.load_position(vec![]);
    let i1 = r.load_indices(vec![]);
    let ids = [p0.id(), i0.id(), p1.id(), i1.id()];
    assert_eq!(ids, [0, 1, 2, 3]);
    assert_ne!(p0, p1);
    assert_ne!(i0, i1);
}

#[test]
fn loading_keeps_earlier_buffers() {
    let mut s: GeometryStore<u8> = GeometryStore::new();
    let p0 = s.load_position(vec![1, 2]);
    let i0 = s.load_indices(vec![[0, 1, 1]]);
    let p1 = s.load_position(vec![3]);
    let i1 = s.load_indices(vec![[7, 8, 9]]);
    assert_eq!(s.positions(p0).unwrap(), &vec![1, 2]);
    assert_eq!(s.positions(p1).unwrap(), &vec![3]);
    assert_eq!(s.indices(i0).unwrap(), &vec![[0, 1, 1]]);
    assert_eq!(s.indices(i1).unwrap(), &vec![[7, 8, 9]]);
}

#[test]
fn store_returns_loaded_buffers() {
    let mut s: GeometryStore<u8> = GeometryStore::new();
    assert!(s.has_free_handle());
    let p = s.load_position(vec![7, 8, 9]);
    let i = s.load_indices(vec![[0, 1, 2], [2, 1, 0]]);
    assert_eq!(s.positions(p).unwrap(), &vec![7, 8, 9]);
    assert_eq!(s.indices(i).unwrap(), &vec![[0, 1, 2], [2, 1, 0]]);
}

#[test]
fn unknown_handle_is_rejected() {
    let mut other: GeometryStore<u8> = GeometryStore::new();
    let _ = other.load_indices(vec![]);
    let foreign_pos = other.load_position(vec![1]);
    let foreign_ind = other.load_indices(vec![[0, 0, 0]]);

    let mut s: GeometryStore<u8> = GeometryStore::new();
    let _ = s.load_position(vec![1]);
    assert_eq!(s.positions(foreign_pos), Err(DrawError::InvalidHandle));
    assert_eq!(s.indices(foreign_ind), Err(DrawError::InvalidHandle));
}

#[test]
fn corner_indices_checks_bounds() {
    assert_eq!(corner_indices(3, [0, 1, 2]), Ok([0, 1, 2]));
    assert_eq!(corner_indices(3, [0, 3, 2]), Err(DrawError::IndexOutOfRange));
    assert_eq!(corner_indices(0, [0, 0, 0]), Err(DrawError::IndexOutOfRange));
}

#[test]
fn draw_buffers_checks_primitive_and_handles() {
    let mut r: Rasterizer<u8, u8, u8> = Rasterizer::new(2, 2, 0, 255);
    let p = r.load_position(vec![1, 2, 3]);
    let i = r.load_indices(vec![[0, 1, 2]]);
    assert_eq!(r.draw_buffers(p, i, Primitive::LINE), Err(DrawError::UnsupportedPrimitive));
    let (pb, ib) = r.draw_buffers(p, i, Primitive::TRIANGLE).unwrap();
    assert_eq!(pb, &vec![1, 2, 3]);
    assert_eq!(ib, &vec![[0, 1, 2]]);

    let mut other: Rasterizer<u8, u8, u8> = Rasterizer::new(2, 2, 0, 255);
    let _ = other.load_position(vec![]);
    let _ = other.load_indices(vec![]);
    let far_pos = other.load_position(vec![]);
    let far_ind = other.load_indices(vec![]);
    assert_eq!(r.draw_buffers(far_pos, i, Primitive::TRIANGLE), Err(DrawError::InvalidHandle));
    assert_eq!(r.draw_buffers(p, far_ind, Primitive::TRIANGLE), Err(DrawError::InvalidHandle));
}
