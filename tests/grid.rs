use imagepreview::compose::composite;
use imagepreview::decode::{create_image_grid, decode_image};
use imagepreview::error::GridError;
use imagepreview::grid::calculate_grid_dimensions;
use imagepreview::raster::RgbaImage;

type Px = (u8, u8, u8, u8);

const WHITE: Px = (255, 255, 255, 255);

fn png_of(width: u32, height: u32, p: [u8; 4]) -> Vec<u8> {
    let img = image::RgbaImage::from_pixel(width, height, image::Rgba(p));
    let mut out = std::io::Cursor::new(Vec::new());
    image::DynamicImage::ImageRgba8(img)
        .write_to(&mut out, image::ImageFormat::Png)
        .unwrap();
    out.into_inner()
}

fn solid(width: u32, height: u32, p: Px) -> RgbaImage {
    RgbaImage::from_pixel(width, height, p)
}

fn all_pixels(img: &RgbaImage, x0: u32, y0: u32, w: u32, h: u32, p: Px) -> bool {
    (y0..y0 + h).all(|y| (x0..x0 + w).all(|x| img.pixel(x, y) == p))
}

#[test]
fn test_grid_dimensions() {
    assert_eq!(calculate_grid_dimensions(0), (0, 0));
    assert_eq!(calculate_grid_dimensions(1), (1, 1));
    assert_eq!(calculate_grid_dimensions(2), (2, 2));
    assert_eq!(calculate_grid_dimensions(3), (2, 2));
    assert_eq!(calculate_grid_dimensions(4), (2, 2));
    assert_eq!(calculate_grid_dimensions(5), (3, 2));
    assert_eq!(calculate_grid_dimensions(6), (3, 2));
    assert_eq!(calculate_grid_dimensions(7), (3, 3));
    assert_eq!(calculate_grid_dimensions(9), (3, 3));
    assert_eq!(calculate_grid_dimensions(10), (3, 4));
}

#[test]
fn grid_dimensions_eight_and_large() {
    assert_eq!(calculate_grid_dimensions(8), (3, 3));
    assert_eq!(calculate_grid_dimensions(11), (3, 4));
    assert_eq!(calculate_grid_dimensions(12), (3, 4));
    assert_eq!(calculate_grid_dimensions(13), (3, 5));
}

#[test]
fn test_empty_input() {
    let result = create_image_grid(&[]);
    assert!(matches!(result, Err(GridError::EmptyInput)));
}

#[test]
fn composite_of_nothing_is_empty_input() {
    let result = composite(&[]);
    assert!(matches!(result, Err(GridError::EmptyInput)));
}

#[test]
fn one_image_covers_the_canvas() {
    let red = (200, 10, 10, 255);
    let sheet = composite(&[solid(100, 100, red)]).unwrap();
    assert_eq!((sheet.width, sheet.height), (100, 100));
    assert_eq!(sheet.data.len(), 4 * 100 * 100);
    assert!(all_pixels(&sheet, 0, 0, 100, 100, red));
}

#[test]
fn four_images_fill_four_quadrants() {
    let colours: [Px; 4] = [(255, 0, 0, 255), (0, 255, 0, 255), (0, 0, 255, 255), (9, 9, 9, 255)];
    let tiles: Vec<RgbaImage> = colours.iter().map(|c| solid(50, 50, *c)).collect();
    let sheet = composite(&tiles).unwrap();
    assert_eq!((sheet.width, sheet.height), (100, 100));
    assert!(all_pixels(&sheet, 0, 0, 50, 50, colours[0]));
    assert!(all_pixels(&sheet, 50, 0, 50, 50, colours[1]));
    assert!(all_pixels(&sheet, 0, 50, 50, 50, colours[2]));
    assert!(all_pixels(&sheet, 50, 50, 50, 50, colours[3]));
}

#[test]
fn five_images_leave_last_cell_white() {
    let tiles: Vec<RgbaImage> = (0..5u8).map(|i| solid(40, 40, (i * 10, 0, 0, 255))).collect();
    let sheet = composite(&tiles).unwrap();
    assert_eq!((sheet.width, sheet.height), (120, 80));
    for i in 0..5u32 {
        let (x0, y0) = ((i % 3) * 40, (i / 3) * 40);
        assert!(all_pixels(&sheet, x0, y0, 40, 40, ((i * 10) as u8, 0, 0, 255)));
    }
    assert!(all_pixels(&sheet, 80, 40, 40, 40, WHITE));
}

#[test]
fn smaller_images_are_padded_white() {
    let big = solid(30, 20, (1, 2, 3, 255));
    let small = solid(10, 5, (4, 5, 6, 255));
    let sheet = composite(&[big, small]).unwrap();
    assert_eq!((sheet.width, sheet.height), (60, 40));
    assert!(all_pixels(&sheet, 30, 0, 10, 5, (4, 5, 6, 255)));
    assert!(all_pixels(&sheet, 40, 0, 20, 20, WHITE));
    assert!(all_pixels(&sheet, 30, 5, 30, 15, WHITE));
    assert!(all_pixels(&sheet, 0, 20, 60, 20, WHITE));
}

#[test]
fn transparent_pixels_show_white() {
    let clear = solid(8, 8, (0, 0, 0, 0));
    let sheet = composite(&[clear]).unwrap();
    assert!(all_pixels(&sheet, 0, 0, 8, 8, WHITE));
}

#[test]
fn half_transparent_pixels_are_blended() {
    let half = solid(4, 4, (0, 0, 0, 128));
    let sheet = composite(&[half]).unwrap();
    let p = sheet.pixel(1, 1);
    assert!(p.0 < 255 && p.0 > 0);
    assert!(p.3 > 128);
}

#[test]
fn compositing_twice_gives_the_same_canvas() {
    let tiles = vec![solid(3, 7, (1, 1, 1, 255)), solid(5, 2, (2, 2, 2, 100)), solid(4, 4, (3, 3, 3, 0))];
    let a = composite(&tiles).unwrap();
    let b = composite(&tiles).unwrap();
    assert_eq!((a.width, a.height), (b.width, b.height));
    assert_eq!(a.data, b.data);
}

#[test]
fn reordering_moves_cells() {
    let red = (255, 0, 0, 255);
    let blue = (0, 0, 255, 255);
    let a = composite(&[solid(20, 10, red), solid(10, 20, blue)]).unwrap();
    let b = composite(&[solid(10, 20, blue), solid(20, 10, red)]).unwrap();
    assert_eq!((a.width, a.height), (40, 40));
    assert_eq!((b.width, b.height), (40, 40));
    for y in 0..20 {
        for x in 0..20 {
            assert_eq!(a.pixel(x, y), b.pixel(x + 20, y));
            assert_eq!(a.pixel(x + 20, y), b.pixel(x, y));
        }
    }
    assert!(all_pixels(&a, 0, 20, 40, 20, WHITE));
    assert!(all_pixels(&b, 0, 20, 40, 20, WHITE));
}

#[test]
fn oversized_canvas_is_refused() {
    let tall = RgbaImage { width: 0, height: u32::MAX, data: Vec::new() };
    let wide = RgbaImage { width: u32::MAX, height: 0, data: Vec::new() };
    let result = composite(&[tall, wide]);
    assert!(matches!(result, Err(GridError::CanvasTooLarge)));
}

#[test]
fn encoded_images_are_decoded_and_composited() {
    let a = png_of(6, 4, [10, 20, 30, 255]);
    let b = png_of(2, 8, [40, 50, 60, 255]);
    let sheet = create_image_grid(&[a.as_slice(), b.as_slice()]).unwrap();
    assert_eq!((sheet.width, sheet.height), (12, 16));
    assert!(all_pixels(&sheet, 0, 0, 6, 4, (10, 20, 30, 255)));
    assert!(all_pixels(&sheet, 6, 0, 2, 8, (40, 50, 60, 255)));
    assert!(all_pixels(&sheet, 8, 0, 4, 8, WHITE));
    assert!(all_pixels(&sheet, 0, 8, 12, 8, WHITE));
}

#[test]
fn decoding_keeps_size_and_pixels() {
    let bytes = png_of(3, 2, [7, 8, 9, 255]);
    let img = decode_image(&bytes).unwrap();
    assert_eq!((img.width, img.height), (3, 2));
    assert_eq!(img.data.len(), 24);
    assert_eq!(img.pixel(2, 1), (7, 8, 9, 255));
}

#[test]
fn undecodable_bytes_are_a_decode_error() {
    let good = png_of(2, 2, [1, 1, 1, 255]);
    let bad: &[u8] = b"this is not an image";
    let result = create_image_grid(&[good.as_slice(), bad]);
    assert!(matches!(result, Err(GridError::ImageDecodeError(_))));
}
