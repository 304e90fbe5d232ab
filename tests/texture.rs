use soft_raster::Texture;

fn sample_texture() -> Texture {
    // 2 rows of 3 texels
    let texels = vec![[0, 0, 1], [0, 0, 2], [0, 0, 3], [0, 0, 4], [0, 0, 5], [0, 0, 6]];
    Texture::new(2, 3, texels).unwrap()
}

#[test]
fn texture_new_checks_size() {
    assert!(Texture::new(2, 2, vec![[0; 3]; 3]).is_none());
    assert!(Texture::new(-1, 0, vec![]).is_none());
    let t = sample_texture();
    assert_eq!((t.rows(), t.cols()), (2, 3));
    assert!(!t.is_empty());
    assert!(Texture::empty().is_empty());
}

#[test]
fn texture_lookup_is_row_major() {
    let t = sample_texture();
    assert_eq!(t.at_2d(0, 0), Some([0, 0, 1]));
    assert_eq!(t.at_2d(1, 2), Some([0, 0, 6]));
    assert_eq!(t.at_2d(2, 0), None);
    assert_eq!(t.at_2d(0, -1), None);
}

#[test]
fn texture_wrapped_lookup() {
    let t = sample_texture();
    assert_eq!(t.wrapped_texel(3, 4), Some([0, 0, 5]));
    assert_eq!(t.wrapped_texel(2, 3), Some([0, 0, 1]));
    assert_eq!(t.wrapped_texel(-2, 0), Some([0, 0, 1]));
    assert_eq!(t.wrapped_texel(-1, 0), None);
    assert_eq!(Texture::empty().wrapped_texel(0, 0), None);
}

#[test]
fn texture_clamped_lookup() {
    let t = sample_texture();
    assert_eq!(t.clamped_texel(-4, 9), Some([0, 0, 3]));
    assert_eq!(t.clamped_texel(7, -1), Some([0, 0, 4]));
    assert_eq!(t.clamped_texel(1, 1), Some([0, 0, 5]));
    assert_eq!(Texture::empty().clamped_texel(0, 0), None);
}
