use hdim::pixel::{get_average_rgb, Image};
use hdim::render;
use hdim::view::View;

fn solid_image(width: u32, height: u32, color: [u8; 3]) -> Image {
    let mut pixels = Vec::new();
    for _ in 0..(width as usize) * (height as usize) {
        pixels.push(color);
    }
    Image::new(width, height, pixels).unwrap()
}

fn cell(top: [u8; 3], bot: [u8; 3]) -> String {
    format!(
        "\u{1b}[48;2;{};{};{}m\u{1b}[38;2;{};{};{}m\u{2584}",
        top[0], top[1], top[2], bot[0], bot[1], bot[2]
    )
}

#[test]
fn solid_red_renders_red_everywhere() {
    let img = solid_image(4, 4, [255, 0, 0]);
    let view = View::new(0, 0, 4, 4, 2, 1);
    let out = render(&img, &view);
    let one = cell([255, 0, 0], [255, 0, 0]);
    let expected = format!("{}{}\u{1b}[0m\n", one, one);
    assert_eq!(out, expected);
}

#[test]
fn upsampling_replicates_single_pixel() {
    let img = solid_image(1, 1, [7, 77, 177]);
    let view = View::new(0, 0, 1, 1, 10, 10);
    let out = render(&img, &view);
    // Every cell's top half samples the one pixel; the bottom half lies below
    // the image and is black by the clamp rule.
    let one = cell([7, 77, 177], [0, 0, 0]);
    let mut expected = String::new();
    for _ in 0..10 {
        for _ in 0..10 {
            expected.push_str(&one);
        }
        expected.push_str("\u{1b}[0m\n");
    }
    assert_eq!(out, expected);
}

#[test]
fn frame_has_exact_rows_and_cells() {
    let img = solid_image(7, 3, [1, 2, 3]);
    let view = View::new(0, 0, 7, 3, 3, 5);
    let out = render(&img, &view);
    assert_eq!(out.matches('\n').count(), 5);
    assert_eq!(out.matches('\u{2584}').count(), 15);
    assert!(out.ends_with('\n'));
    for line in out.lines() {
        assert_eq!(line.matches('\u{2584}').count(), 3);
    }
}

#[test]
fn downsampling_averages_each_half_block() {
    // A 2x2 image into one cell: the top half-block averages the top row,
    // the bottom half-block averages the bottom row.
    let pixels = vec![[10, 0, 0], [20, 0, 0], [30, 0, 0], [50, 0, 0]];
    let img = Image::new(2, 2, pixels).unwrap();
    let view = View::new(0, 0, 2, 2, 1, 1);
    let out = render(&img, &view);
    let expected = format!("{}\u{1b}[0m\n", cell([15, 0, 0], [40, 0, 0]));
    assert_eq!(out, expected);
}

#[test]
fn odd_ratio_rounds_half_block_height() {
    // A 3x3 image into one cell: each half-block is round(3 / 2) = 2 rows
    // tall, so the top half averages rows 0..2 and the bottom half averages
    // rows 2..4, clamped to the one remaining row.
    let mut pixels = Vec::new();
    for y in 0..3 {
        for _x in 0..3 {
            pixels.push([[12, 0, 0], [24, 0, 0], [90, 0, 0]][y]);
        }
    }
    let img = Image::new(3, 3, pixels).unwrap();
    let view = View::new(0, 0, 3, 3, 1, 1);
    let out = render(&img, &view);
    let expected = format!("{}\u{1b}[0m\n", cell([18, 0, 0], [90, 0, 0]));
    assert_eq!(out, expected);
}

#[test]
fn render_is_deterministic() {
    let mut pixels = Vec::new();
    for i in 0..(6 * 4) as usize {
        pixels.push([(i * 11 % 256) as u8, (i * 7 % 256) as u8, (i * 3 % 256) as u8]);
    }
    let img = Image::new(6, 4, pixels).unwrap();
    let view = View::new(1, 1, 4, 3, 3, 2);
    let a = render(&img, &view);
    let b = render(&img, &view);
    assert_eq!(a, b);
}

#[test]
fn view_new_coerces_zero_targets() {
    let v = View::new(0, 0, 5, 5, 0, 0);
    assert_eq!(v.target_width, 1);
    assert_eq!(v.target_height, 1);
}

#[test]
fn average_of_solid_region_is_exact() {
    // Left half one solid color, right half another; the average over each
    // half is exactly that half's color.
    let mut pixels = Vec::new();
    for _y in 0..4 {
        for x in 0..4 {
            if x < 2 {
                pixels.push([100, 0, 0]);
            } else {
                pixels.push([0, 200, 50]);
            }
        }
    }
    let img = Image::new(4, 4, pixels).unwrap();
    assert_eq!(get_average_rgb(&img, 0, 0, 2, 4), [100, 0, 0]);
    assert_eq!(get_average_rgb(&img, 2, 0, 2, 4), [0, 200, 50]);
}

#[test]
fn average_truncates_the_mean() {
    let pixels = vec![[100, 0, 255], [101, 1, 254]];
    let img = Image::new(2, 1, pixels).unwrap();
    assert_eq!(get_average_rgb(&img, 0, 0, 2, 1), [100, 0, 254]);
}

#[test]
fn average_outside_or_empty_is_black() {
    let img = solid_image(4, 4, [9, 9, 9]);
    assert_eq!(get_average_rgb(&img, 4, 0, 2, 2), [0, 0, 0]);
    assert_eq!(get_average_rgb(&img, 0, 7, 1, 1), [0, 0, 0]);
    assert_eq!(get_average_rgb(&img, 1, 1, 0, 3), [0, 0, 0]);
    assert_eq!(get_average_rgb(&img, 1, 1, 3, 0), [0, 0, 0]);
}

#[test]
fn average_partial_overlap_uses_intersection() {
    let pixels = vec![[10, 0, 0], [20, 0, 0], [30, 0, 0], [40, 0, 0]];
    let img = Image::new(2, 2, pixels).unwrap();
    // A 5x5 rectangle anchored at (1, 1) covers only the bottom-right pixel.
    assert_eq!(
        get_average_rgb(&img, 1, 1, 5, 5),
        get_average_rgb(&img, 1, 1, 1, 1)
    );
    assert_eq!(get_average_rgb(&img, 1, 1, 5, 5), [40, 0, 0]);
    // A 2x5 rectangle anchored at (0, 1) covers the bottom row only.
    assert_eq!(get_average_rgb(&img, 0, 1, 2, 5), [35, 0, 0]);
}

#[test]
fn image_new_checks_pixel_count() {
    assert!(Image::new(2, 2, vec![[0u8, 0, 0]; 3]).is_none());
    let img = Image::new(2, 2, vec![[5u8, 6, 7]; 4]);
    assert!(img.is_some());
    let img = img.unwrap();
    assert_eq!(img.dim_width(), 2);
    assert_eq!(img.dim_height(), 2);
    assert_eq!(img.get_pixel(1, 1), [5, 6, 7]);
}
