use soft_raster::draw_line;

#[test]
fn test_draw_line() {
    let begin = (0, 1);
    let end = (6, 4);

    let result = draw_line(begin, end);

    let check_result = [(0, 1), (1, 1), (2, 2), (3, 2), (4, 3), (5, 3), (6, 4)];
    assert_eq!(result.len(), check_result.len());
    for (idx, p) in check_result.iter().enumerate() {
        assert_eq!(p, &result[idx]);
    }
}

#[test]
fn line_reversed_starts_at_smaller_x() {
    let result = draw_line((6, 4), (0, 1));
    assert_eq!(result, vec![(0, 1), (1, 1), (2, 2), (3, 2), (4, 3), (5, 3), (6, 4)]);
}

#[test]
fn line_steep_steps_along_y() {
    let result = draw_line((1, 0), (4, 6));
    assert_eq!(result, vec![(1, 0), (1, 1), (2, 2), (2, 3), (3, 4), (3, 5), (4, 6)]);
}

#[test]
fn line_descending_moves_down() {
    let result = draw_line((0, 4), (4, 2));
    assert_eq!(result, vec![(0, 4), (1, 4), (2, 3), (3, 3), (4, 2)]);
}

#[test]
fn line_single_point() {
    assert_eq!(draw_line((3, 3), (3, 3)), vec![(3, 3)]);
}

#[test]
fn line_horizontal_and_vertical() {
    assert_eq!(draw_line((2, 5), (-1, 5)), vec![(-1, 5), (0, 5), (1, 5), (2, 5)]);
    assert_eq!(draw_line((0, 2), (0, -1)), vec![(0, -1), (0, 0), (0, 1), (0, 2)]);
}

#[test]
fn line_diagonal() {
    assert_eq!(draw_line((0, 0), (3, -3)), vec![(0, 0), (1, -1), (2, -2), (3, -3)]);
}
