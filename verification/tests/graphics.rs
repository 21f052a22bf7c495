use chaoslab::console::types::{Color, Point, Size};
use chaoslab::graphics::ImagePainter;

const WHITE: Color = Color { alpha: 255, red: 255, green: 255, blue: 255 };
const BLACK: Color = Color { alpha: 255, red: 0, green: 0, blue: 0 };

fn rows(pixels: &[Color], width: usize) -> Vec<String> {
    pixels.chunks(width).map(|row| row.iter().map(|c| if *c == WHITE { '#' } else { '.' }).collect()).collect()
}

#[test]
fn a_new_image_is_one_colour() {
    let image = ImagePainter::new(3, 2, BLACK).to_image();
    assert_eq!(image.size, Size { width: 3, height: 2 });
    assert_eq!(image.pixels, vec![BLACK; 6]);
}

#[test]
fn a_filled_box_includes_both_corners() {
    let mut painter = ImagePainter::new(5, 4, BLACK);
    painter.draw_filled_box_xy(Point { x: 1, y: 1 }, Point { x: 3, y: 2 }, WHITE);
    let image = painter.to_image();
    assert_eq!(rows(&image.pixels, 5), vec![".....", ".###.", ".###.", "....."]);
}

#[test]
fn a_sized_box_reaches_one_past_its_size() {
    let mut painter = ImagePainter::new(4, 3, BLACK);
    painter.draw_filled_box_sized(Point { x: 0, y: 0 }, Size { width: 1, height: 1 }, WHITE);
    let image = painter.to_image();
    assert_eq!(rows(&image.pixels, 4), vec!["##..", "##..", "...."]);
}

#[test]
fn a_frame_leaves_its_inside() {
    let mut painter = ImagePainter::new(5, 5, BLACK);
    painter.draw_frame_xy(Point { x: 0, y: 0 }, Point { x: 4, y: 3 }, WHITE);
    let image = painter.to_image();
    assert_eq!(rows(&image.pixels, 5), vec!["#####", "#...#", "#...#", "#####", "....."]);
}

#[test]
fn a_sized_frame_matches_its_corners() {
    let mut painter = ImagePainter::new(4, 4, BLACK);
    painter.draw_frame_sized(Point { x: 1, y: 1 }, Size { width: 2, height: 2 }, WHITE);
    let image = painter.to_image();
    assert_eq!(rows(&image.pixels, 4), vec!["....", ".###", ".#.#", ".###"]);
}

#[test]
fn a_one_pixel_frame_is_one_pixel() {
    let mut painter = ImagePainter::new(2, 2, BLACK);
    painter.draw_frame_xy(Point { x: 1, y: 1 }, Point { x: 1, y: 1 }, WHITE);
    let image = painter.to_image();
    assert_eq!(rows(&image.pixels, 2), vec!["..", ".#"]);
}
