use soft_raster::{bounding_box, edge_signs_agree, DrawError, PixelBox, Rasterizer, MSAA_COUNT};

type Rgb = [f32; 3];

fn cross_z(p: (f32, f32), a: (f32, f32), b: (f32, f32)) -> f32 {
    let va = (p.0 - a.0, p.1 - a.1);
    let vb = (b.0 - a.0, b.1 - a.1);
    va.0 * vb.1 - va.1 * vb.0
}

/// Corner-offset coverage of pixel `(x, y)` by the screen triangle `v`.
fn covers(v: &[(f32, f32); 3], x: i32, y: i32) -> bool {
    let offsets = [(0.0f32, 0.0f32), (0.0, 1.0), (1.0, 0.0), (1.0, 1.0)];
    offsets.iter().any(|(ox, oy)| {
        let p = (x as f32 + ox, y as f32 + oy);
        let sign = |a: f32| if a > 0.0 { 1i8 } else if a < 0.0 { -1 } else { 0 };
        let signs = [
            sign(cross_z(p, v[0], v[1])),
            sign(cross_z(p, v[1], v[2])),
            sign(cross_z(p, v[2], v[0])),
        ];
        edge_signs_agree(signs)
    })
}

fn average(cs: &Vec<Rgb>, ds: &Vec<f32>) -> (Rgb, f32) {
    let n = cs.len() as f32;
    let mut c = [0.0f32; 3];
    let mut d = 0.0f32;
    for (ci, di) in cs.iter().zip(ds.iter()) {
        for k in 0..3 {
            c[k] += ci[k] / n;
        }
        d += di / n;
    }
    (c, d)
}

fn box_of(v: &[(f32, f32); 3], w: u32, h: u32) -> PixelBox {
    let xs = [v[0].0 as i32, v[1].0 as i32, v[2].0 as i32];
    let ys = [v[0].1 as i32, v[1].1 as i32, v[2].1 as i32];
    bounding_box(w, h, xs, ys)
}

#[test]
fn bounding_box_clamps_to_frame() {
    let b = bounding_box(300, 300, [150, 50, 250], [50, 250, 250]);
    assert_eq!(b, PixelBox { x0: 50, x1: 250, y0: 50, y1: 250 });
    let c = bounding_box(10, 20, [-5, 3, 40], [25, -1, 7]);
    assert_eq!(c, PixelBox { x0: 0, x1: 10, y0: 0, y1: 20 });
    let d = bounding_box(10, 10, [-5, -3, -4], [2, 3, 4]);
    assert_eq!(d, PixelBox { x0: 0, x1: 0, y0: 2, y1: 4 });
}

#[test]
fn edge_signs_either_winding() {
    assert!(edge_signs_agree([1, 1, 1]));
    assert!(edge_signs_agree([-1, -1, -1]));
    assert!(!edge_signs_agree([1, -1, 1]));
    assert!(!edge_signs_agree([-1, -1, 1]));
}

#[test]
fn edge_signs_point_on_edge_is_inside() {
    assert!(edge_signs_agree([0, 1, 1]));
    assert!(edge_signs_agree([0, -1, -1]));
    assert!(edge_signs_agree([0, 0, 1]));
    assert!(edge_signs_agree([0, 0, 0]));
    assert!(!edge_signs_agree([0, 1, -1]));
}

#[test]
fn coverage_does_not_depend_on_winding() {
    let ccw = [(0.0f32, 0.0f32), (4.0, 0.0), (0.0, 4.0)];
    let cw = [(0.0f32, 0.0f32), (0.0, 4.0), (4.0, 0.0)];
    for x in -2..6 {
        for y in -2..6 {
            assert_eq!(covers(&ccw, x, y), covers(&cw, x, y), "pixel ({}, {})", x, y);
        }
    }
    // a pixel that touches the triangle only at a corner
    assert!(covers(&ccw, 4, -1));
    assert!(covers(&cw, 4, -1));
}

#[test]
fn filled_triangle_scenario() {
    let (w, h) = (300u32, 300u32);
    let mut r: Rasterizer<(), Rgb, f32> = Rasterizer::new(w, h, [0.0; 3], f32::INFINITY);
    r.clear(soft_raster::Buffer::color() | soft_raster::Buffer::depth(), [0.0; 3], f32::INFINITY);
    let v = [(150.0f32, 50.0f32), (50.0, 250.0), (250.0, 250.0)];
    let red = [1.0f32, 0.0, 0.0];
    let res = r.fill_triangle(
        box_of(&v, w, h),
        |x, y| covers(&v, x, y),
        |_x, _y, _s, stored| if 0.5 >= stored { None } else { Some((red, 0.5)) },
        average,
    );
    assert_eq!(res, Ok(()));
    let center = r.get_index(150, 150).unwrap();
    assert_eq!(r.frame_buffer()[center], red);
    assert_eq!(r.depth_buffer()[center], 0.5);
    let corner = r.get_index(10, 10).unwrap();
    assert_eq!(r.frame_buffer()[corner], [0.0; 3]);
    assert_eq!(r.depth_buffer()[corner], f32::INFINITY);
}

#[test]
fn depth_test_keeps_nearer_sample() {
    let mut r: Rasterizer<(), Rgb, f32> = Rasterizer::new(8, 8, [0.0; 3], f32::INFINITY);
    let b = PixelBox { x0: 2, x1: 4, y0: 2, y1: 4 };
    let near = |z: f32, c: Rgb| move |_x: i32, _y: i32, _s: usize, stored: f32| {
        if z >= stored { None } else { Some((c, z)) }
    };
    assert_eq!(r.fill_triangle(b, |_, _| true, near(0.3, [0.0, 1.0, 0.0]), average), Ok(()));
    assert_eq!(r.fill_triangle(b, |_, _| true, near(0.7, [0.0, 0.0, 1.0]), average), Ok(()));
    let idx = r.get_index(3, 3).unwrap();
    assert_eq!(r.color(0, idx), [0.0, 1.0, 0.0]);
    assert_eq!(r.depth(0, idx), 0.3);
    assert_eq!(r.fill_triangle(b, |_, _| true, near(0.1, [1.0, 0.0, 0.0]), average), Ok(()));
    assert_eq!(r.color(0, idx), [1.0, 0.0, 0.0]);
    assert_eq!(r.frame_buffer()[idx], [1.0, 0.0, 0.0]);
}

#[test]
fn degenerate_triangle_stays_in_its_box() {
    let (w, h) = (16u32, 16u32);
    let mut r: Rasterizer<(), Rgb, f32> = Rasterizer::new(w, h, [0.0; 3], f32::INFINITY);
    let v = [(4.0f32, 4.0f32), (4.0, 4.0), (9.0, 7.0)];
    let b = box_of(&v, w, h);
    let res = r.fill_triangle(
        b,
        |_, _| true,
        |_x, _y, _s, _stored| Some(([f32::NAN; 3], f32::NAN)),
        average,
    );
    assert_eq!(res, Ok(()));
    for x in 0..w as i32 {
        for y in 1..h as i32 {
            let idx = r.get_index(x, y).unwrap();
            let inside = x >= b.x0 && x < b.x1 && y >= b.y0 && y < b.y1;
            for s in 0..=MSAA_COUNT as usize {
                if inside {
                    assert!(r.depth(s, idx).is_nan());
                } else {
                    assert_eq!(r.color(s, idx), [0.0; 3]);
                    assert_eq!(r.depth(s, idx), f32::INFINITY);
                }
            }
        }
    }
}

#[test]
fn merged_equals_samples_for_constant_shader() {
    let mut r: Rasterizer<(), Rgb, f32> = Rasterizer::new(6, 6, [0.0; 3], f32::INFINITY);
    let b = PixelBox { x0: 1, x1: 5, y0: 1, y1: 5 };
    let c = [0.25f32, 0.5, 0.75];
    let res = r.fill_triangle(b, |_, _| true, |_, _, _, _| Some((c, 0.5)), average);
    assert_eq!(res, Ok(()));
    for x in 1..5 {
        for y in 1..5 {
            let idx = r.get_index(x, y).unwrap();
            for s in 0..MSAA_COUNT as usize {
                assert_eq!(r.frame_buffer()[idx], r.color(s, idx));
                assert_eq!(r.depth_buffer()[idx], r.depth(s, idx));
            }
            assert_eq!(r.frame_buffer()[idx], c);
        }
    }
}

#[test]
fn fill_fails_on_covered_pixel_outside_frame() {
    let mut r: Rasterizer<(), Rgb, f32> = Rasterizer::new(4, 4, [0.0; 3], f32::INFINITY);
    let b = PixelBox { x0: 0, x1: 2, y0: 0, y1: 2 };
    let res = r.fill_triangle(b, |_, _| true, |_, _, _, _| Some(([1.0; 3], 0.0)), average);
    assert_eq!(res, Err(DrawError::PixelOutOfRange));
    let skipped = r.fill_triangle(b, |_, y| y > 0, |_, _, _, _| Some(([1.0; 3], 0.0)), average);
    assert_eq!(skipped, Ok(()));
    assert_eq!(r.frame_buffer()[r.get_index(1, 1).unwrap()], [1.0; 3]);
}

#[test]
fn wireframe_outlines_triangle() {
    let mut r: Rasterizer<(), u8, u8> = Rasterizer::new(8, 8, 0, 0);
    assert_eq!(r.rasterize_wireframe([(1, 1), (5, 1), (1, 5)], 1), Ok(()));
    let painted: Vec<(i32, i32)> = (0..8)
        .flat_map(|x| (1..8).map(move |y| (x, y)))
        .filter(|&(x, y)| r.frame_buffer()[r.get_index(x, y).unwrap()] == 1)
        .collect();
    let mut expected = vec![];
    for k in 1..=5 {
        expected.push((k, 1));
    }
    for k in 2..=5 {
        expected.push((1, k));
    }
    for k in 1..=3 {
        expected.push((1 + k, 5 - k));
    }
    expected.sort();
    let mut got = painted.clone();
    got.sort();
    assert_eq!(got, expected);
}

#[test]
fn line_through_frame_edge_fails() {
    let mut r: Rasterizer<(), u8, u8> = Rasterizer::new(4, 4, 0, 0);
    assert_eq!(r.draw_line((1, 1), (3, 1), 7), Ok(()));
    assert_eq!(r.draw_line((2, 2), (4, 2), 7), Err(DrawError::PixelOutOfRange));
    assert_eq!(r.draw_line((-3, 2), (-1, 2), 7), Ok(()));
}
