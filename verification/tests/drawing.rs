use fallen_leaves_world::img_gen::{
    draw_flow_arrow, draw_thick_line_rgb, draw_upwind_arrows, put_square, upwind_arrow_color, Rgb8, RgbRaster,
    ARROW_HEAD_LEN, ARROW_SHAFT_LEN, ARROW_STROKE,
};

const BLACK: Rgb8 = Rgb8 { r: 0, g: 0, b: 0 };
const RED: Rgb8 = Rgb8 { r: 200, g: 10, b: 10 };

fn painted(img: &RgbRaster, color: Rgb8) -> Vec<(u32, u32)> {
    let mut out = Vec::new();
    for y in 0..img.height {
        for x in 0..img.width {
            if img.get_pixel(x, y) == color {
                out.push((x, y));
            }
        }
    }
    out.sort();
    out
}

#[test]
fn new_raster_is_filled() {
    let img = RgbRaster::new(3, 2, RED);
    assert_eq!(img.pixels.len(), 6);
    assert_eq!(painted(&img, RED).len(), 6);
}

#[test]
fn put_pixel_changes_one_pixel() {
    let mut img = RgbRaster::new(3, 2, BLACK);
    img.put_pixel(2, 1, RED);
    assert_eq!(painted(&img, RED), vec![(2, 1)]);
    assert_eq!(img.pixels[5], RED);
}

#[test]
fn square_is_clipped_at_the_corner() {
    let mut img = RgbRaster::new(5, 4, BLACK);
    put_square(&mut img, 0, 0, 1, RED);
    assert_eq!(painted(&img, RED), vec![(0, 0), (0, 1), (1, 0), (1, 1)]);
}

#[test]
fn square_outside_or_negative_paints_nothing() {
    let mut img = RgbRaster::new(5, 4, BLACK);
    put_square(&mut img, -5, 2, 2, RED);
    put_square(&mut img, 2, 2, -1, RED);
    put_square(&mut img, 9, 9, 3, RED);
    assert!(painted(&img, RED).is_empty());
}

#[test]
fn square_of_half_side_zero_is_one_pixel() {
    let mut img = RgbRaster::new(5, 4, BLACK);
    put_square(&mut img, 4, 3, 0, RED);
    assert_eq!(painted(&img, RED), vec![(4, 3)]);
}

#[test]
fn thin_line_follows_bresenham() {
    let mut img = RgbRaster::new(6, 3, BLACK);
    draw_thick_line_rgb(&mut img, 0, 0, 5, 2, 0, RED);
    let mut expected = vec![(0, 0), (1, 0), (2, 1), (3, 1), (4, 2), (5, 2)];
    expected.sort();
    assert_eq!(painted(&img, RED), expected);
}

#[test]
fn thin_line_right_to_left_and_down() {
    let mut img = RgbRaster::new(8, 8, BLACK);
    draw_thick_line_rgb(&mut img, 6, 1, 1, 3, 0, RED);
    let mut expected = vec![(1, 3), (2, 3), (3, 2), (4, 2), (5, 1), (6, 1)];
    expected.sort();
    assert_eq!(painted(&img, RED), expected);
}

#[test]
fn line_of_one_point_with_stroke_is_a_square() {
    let mut img = RgbRaster::new(8, 8, BLACK);
    draw_thick_line_rgb(&mut img, 2, 2, 2, 2, 1, RED);
    let mut expected = Vec::new();
    for y in 1..4 {
        for x in 1..4 {
            expected.push((x, y));
        }
    }
    expected.sort();
    assert_eq!(painted(&img, RED), expected);
}

#[test]
fn line_covers_both_end_points_and_stays_in_its_box() {
    let mut img = RgbRaster::new(20, 20, BLACK);
    draw_thick_line_rgb(&mut img, 3, 17, 15, 4, 0, RED);
    let px = painted(&img, RED);
    assert!(px.contains(&(3, 17)));
    assert!(px.contains(&(15, 4)));
    assert!(px.iter().all(|&(x, y)| (3..=15).contains(&x) && (4..=17).contains(&y)));
    assert_eq!(px.len(), 14);
}

#[test]
fn arrow_east_thin() {
    let mut img = RgbRaster::new(40, 40, BLACK);
    draw_flow_arrow(&mut img, 10, 10, 1, 0, 18, 0, 6, RED);
    let mut expected: Vec<(u32, u32)> = vec![
        (10, 10), (11, 10), (12, 10), (13, 10), (14, 10), (15, 10), (16, 10), (17, 10), (18, 10), (19, 10),
        (20, 10), (21, 10), (22, 4), (22, 10), (22, 16), (23, 5), (23, 10), (23, 15), (24, 6), (24, 10),
        (24, 14), (25, 7), (25, 10), (25, 13), (26, 8), (26, 10), (26, 12), (27, 9), (27, 10), (27, 11),
        (28, 10),
    ];
    expected.sort();
    assert_eq!(painted(&img, RED), expected);
}

#[test]
fn arrow_east_thick_pixel_count() {
    let mut img = RgbRaster::new(40, 40, BLACK);
    draw_flow_arrow(&mut img, 10, 10, 1, 0, 18, 2, 6, RED);
    assert_eq!(painted(&img, RED).len(), 203);
}

#[test]
fn zero_direction_arrow_draws_nothing() {
    let mut img = RgbRaster::new(10, 10, BLACK);
    draw_flow_arrow(&mut img, 5, 5, 0, 0, 18, 2, 6, RED);
    assert!(painted(&img, RED).is_empty());
}

#[test]
fn upwind_arrows_on_sampled_land_cells() {
    let w = 40usize;
    let h = 40usize;
    let mut land = vec![vec![false; w]; h];
    let mut up: Vec<Vec<Option<(usize, usize)>>> = vec![vec![None; w]; h];
    land[4][4] = true;
    up[4][4] = Some((3, 4));
    land[4][8] = true;
    up[4][8] = Some((8, 5));
    land[4][5] = true;
    up[4][5] = Some((4, 4));
    // water cell with a neighbour: no arrow
    up[12][12] = Some((12, 11));
    let mut img = RgbRaster::new(40, 40, BLACK);
    draw_upwind_arrows(&mut img, &up, &land, 4);
    let arrow = upwind_arrow_color();
    assert_eq!(arrow, Rgb8 { r: 120, g: 235, b: 255 });
    let px = painted(&img, arrow);
    assert_eq!(px.len(), 187);
    assert!(px.contains(&(20, 4)));
    assert!(px.contains(&(23, 4)));
    assert!(px.contains(&(8, 0)));
    assert!(px.contains(&(5, 5)));
    assert!(!px.contains(&(12, 12)));
    assert_eq!((ARROW_SHAFT_LEN, ARROW_STROKE, ARROW_HEAD_LEN), (18, 2, 6));
}
