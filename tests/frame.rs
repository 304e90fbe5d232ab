use soft_raster::{Buffer, DrawError, FrameBuffers, Rasterizer, MSAA_COUNT};

#[test]
fn buffer_flags_combine() {
    let both = Buffer::color() | Buffer::depth();
    assert_eq!(both.0, 3);
    assert!(both.has_color() && both.has_depth());
    let only_depth = both & Buffer::depth();
    assert!(!only_depth.has_color() && only_depth.has_depth());
    assert!(Buffer::color().has_color() && !Buffer::color().has_depth());
}

#[test]
fn pixel_index_flips_vertical_axis() {
    let r: Rasterizer<(), u8, u8> = Rasterizer::new(4, 3, 0, 0);
    assert_eq!(r.get_index(0, 1), Ok(8));
    assert_eq!(r.get_index(3, 1), Ok(11));
    assert_eq!(r.get_index(2, 2), Ok(6));
}

#[test]
fn pixel_index_rejects_out_of_frame() {
    let r: Rasterizer<(), u8, u8> = Rasterizer::new(4, 3, 0, 0);
    assert_eq!(r.get_index(4, 1), Err(DrawError::PixelOutOfRange));
    assert_eq!(r.get_index(-1, 1), Err(DrawError::PixelOutOfRange));
    assert_eq!(r.get_index(0, 3), Err(DrawError::PixelOutOfRange));
    // the first scanline maps one row past the end of the buffer
    assert_eq!(r.get_index(1, 0), Err(DrawError::PixelOutOfRange));
}

#[test]
fn clear_resets_selected_buffers() {
    let mut f: FrameBuffers<u8, u8> = FrameBuffers::new(2, 2, 2, 5, 6);
    f.write(0, 1, 9, 9);
    f.write(2, 3, 7, 7);
    f.clear(Buffer::color(), 0, 255);
    for s in 0..3 {
        assert_eq!(f.color_buffer(s), &vec![0, 0, 0, 0]);
    }
    assert_eq!(f.depth_buffer(0), &vec![6, 9, 6, 6]);
    assert_eq!(f.depth_buffer(2), &vec![6, 6, 6, 7]);
    f.clear(Buffer::depth(), 1, 255);
    assert_eq!(f.color_buffer(0), &vec![0, 0, 0, 0]);
    assert_eq!(f.depth_buffer(0), &vec![255; 4]);
}

#[test]
fn clear_twice_equals_clear_once() {
    let mut r: Rasterizer<(), [f32; 3], f32> = Rasterizer::new(3, 3, [0.5; 3], 0.0);
    r.write_sample(0, 4, [1.0, 0.0, 0.0], 0.25);
    r.write_sample(MSAA_COUNT as usize, 2, [0.0, 1.0, 0.0], 0.5);
    let flags = Buffer::color() | Buffer::depth();
    r.clear(flags, [0.0; 3], f32::INFINITY);
    let once_colors: Vec<Vec<[f32; 3]>> =
        (0..=MSAA_COUNT as usize).map(|s| (0..9).map(|i| r.color(s, i)).collect()).collect();
    let once_depths: Vec<Vec<f32>> =
        (0..=MSAA_COUNT as usize).map(|s| (0..9).map(|i| r.depth(s, i)).collect()).collect();
    r.clear(flags, [0.0; 3], f32::INFINITY);
    for s in 0..=MSAA_COUNT as usize {
        for i in 0..9 {
            assert_eq!(r.color(s, i), once_colors[s][i]);
            assert_eq!(r.depth(s, i), once_depths[s][i]);
            assert_eq!(r.depth(s, i), f32::INFINITY);
        }
    }
}

#[test]
fn set_pixel_drops_outside_and_fails_on_edge() {
    let mut r: Rasterizer<(), u8, u8> = Rasterizer::new(4, 3, 0, 0);
    assert_eq!(r.set_pixel((-1, 1), 9), Ok(()));
    assert_eq!(r.set_pixel((2, 4), 9), Ok(()));
    assert_eq!(r.frame_buffer(), &vec![0; 12]);
    assert_eq!(r.set_pixel((4, 1), 9), Err(DrawError::PixelOutOfRange));
    assert_eq!(r.set_pixel((1, 2), 9), Ok(()));
    assert_eq!(r.frame_buffer()[5], 9);
    assert_eq!(r.depth_buffer(), &vec![0; 12]);
    assert_eq!(r.color(0, 5), 0);
}
