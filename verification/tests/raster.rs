use doppler_color_shift::convert::{color_shift, Raster};
use doppler_color_shift::error::ShiftError;
use image::RgbaImage;

fn raster(width: u32, height: u32, bytes: Vec<u8>) -> Raster {
    Raster { image: RgbaImage::from_vec(width, height, bytes).unwrap() }
}

fn swap_red_blue(red: u8, green: u8, blue: u8) -> (u8, u8, u8) {
    (blue, green, red)
}

fn bytes_of(pixels: u8) -> Vec<u8> {
    (0..pixels * 4).collect()
}

#[test]
fn color_shift_rewrites_colour_and_keeps_alpha() {
    let input = raster(2, 1, vec![1, 2, 3, 4, 5, 6, 7, 8]);
    let out = color_shift(input, swap_red_blue).unwrap();
    assert_eq!(out.image.width(), 2);
    assert_eq!(out.image.height(), 1);
    assert_eq!(out.image.into_vec(), vec![3, 2, 1, 4, 7, 6, 5, 8]);
}

#[test]
fn color_shift_keeps_width_and_height_apart() {
    let out = color_shift(raster(3, 2, bytes_of(6)), |red, green, blue| (red, green, blue)).unwrap();
    assert_eq!(out.image.dimensions(), (3, 2));
    assert_eq!(out.image.get_pixel(2, 1).0, [20, 21, 22, 23]);
    assert_eq!(out.image.into_vec(), bytes_of(6));

    let out = color_shift(raster(2, 3, bytes_of(6)), |red, green, blue| (red, green, blue)).unwrap();
    assert_eq!(out.image.dimensions(), (2, 3));
    assert_eq!(out.image.get_pixel(1, 2).0, [20, 21, 22, 23]);
}

#[test]
fn color_shift_on_empty_image() {
    let out = color_shift(Raster { image: RgbaImage::new(0, 0) }, swap_red_blue).unwrap();
    assert_eq!(out.image.dimensions(), (0, 0));
    assert!(out.image.into_vec().is_empty());
}

#[test]
fn color_shift_refuses_buffer_longer_than_the_image() {
    // The image crate accepts a buffer with bytes to spare; a pass does not.
    let spare = raster(1, 1, vec![1, 2, 3, 4, 5, 6, 7, 8]);
    match color_shift(spare, swap_red_blue) {
        Err(e) => assert_eq!(e, ShiftError::Dimension),
        Ok(_) => panic!("an image with spare bytes was shifted"),
    }
    let ragged = raster(1, 1, vec![1, 2, 3, 4, 5]);
    assert!(matches!(color_shift(ragged, swap_red_blue), Err(ShiftError::Dimension)));
}
