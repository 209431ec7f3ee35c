use deskassistant_driver::epdimage::pack_pixels;
use deskassistant_driver::epdimage::LUMA_THRESHOLD;
use deskassistant_driver::error::ImageFailure;
use deskassistant_driver::DriverError;
use deskassistant_driver::EpdImage;
use deskassistant_driver::EpdImageFormat;
use deskassistant_driver::EPD_HEIGHT;
use deskassistant_driver::EPD_WIDTH;

fn solid(width: u32, height: u32, rgba: [u8; 4]) -> EpdImage {
    let mut pixels = Vec::new();
    for _ in 0..(width as usize * height as usize) {
        pixels.extend_from_slice(&rgba);
    }
    EpdImage::from_rgba8(width, height, pixels).unwrap()
}

fn gray(width: u32, height: u32, lumas: &[u8]) -> EpdImage {
    let mut pixels = Vec::new();
    for luma in lumas {
        pixels.extend_from_slice(&[*luma, *luma, *luma, 0xff]);
    }
    EpdImage::from_rgba8(width, height, pixels).unwrap()
}

fn png_of(width: u32, height: u32, pixels: Vec<u8>) -> Vec<u8> {
    let buffer = image::RgbaImage::from_raw(width, height, pixels).unwrap();
    let mut bytes = std::io::Cursor::new(Vec::new());
    image::DynamicImage::ImageRgba8(buffer)
        .write_to(&mut bytes, image::ImageOutputFormat::Png)
        .unwrap();
    bytes.into_inner()
}

#[test]
fn panel_geometry() {
    assert_eq!(EPD_WIDTH, 400);
    assert_eq!(EPD_HEIGHT, 300);
    assert_eq!(LUMA_THRESHOLD, 136);
}

#[test]
fn pack_of_nothing_is_nothing() {
    assert_eq!(pack_pixels(&[]), Vec::<u8>::new());
}

#[test]
fn pack_puts_the_first_pixel_in_the_top_bit() {
    assert_eq!(pack_pixels(&[255, 0, 0, 0, 0, 0, 0, 0]), vec![0x80]);
    assert_eq!(pack_pixels(&[0, 0, 0, 0, 0, 0, 0, 255]), vec![0x01]);
    assert_eq!(pack_pixels(&[255, 0, 255, 0, 0, 255, 0, 255]), vec![0xa5]);
    assert_eq!(pack_pixels(&[255; 8]), vec![0xff]);
    assert_eq!(pack_pixels(&[0; 8]), vec![0x00]);
}

#[test]
fn pack_keeps_the_row_order() {
    let mut pixels = vec![0u8; 24];
    pixels[0] = 255;
    pixels[9] = 255;
    pixels[18] = 255;
    assert_eq!(pack_pixels(&pixels), vec![0x80, 0x40, 0x20]);
}

#[test]
fn pack_fills_a_short_last_group_with_zero_bits() {
    assert_eq!(pack_pixels(&[255]), vec![0x80]);
    assert_eq!(pack_pixels(&[255, 255, 255]), vec![0xe0]);
    assert_eq!(pack_pixels(&[255; 7]), vec![0xfe]);
    assert_eq!(pack_pixels(&[255; 9]), vec![0xff, 0x80]);
    assert_eq!(pack_pixels(&[0; 9]), vec![0x00, 0x00]);
}

#[test]
fn pack_length_is_rounded_up() {
    for len in 0usize..70 {
        assert_eq!(pack_pixels(&vec![255u8; len]).len(), (len + 7) / 8);
    }
}

#[test]
fn pack_takes_any_pixel_but_zero_as_set() {
    assert_eq!(pack_pixels(&[1, 0, 128, 0, 0, 7, 0, 255]), vec![0xa5]);
}

#[test]
fn raster_with_wrong_sample_count_is_refused() {
    let geometry = Err(DriverError::ImageDecodeError(ImageFailure::Geometry));
    assert_eq!(EpdImage::from_rgba8(2, 2, vec![0; 15]).map(|_| ()), geometry);
    assert_eq!(EpdImage::from_rgba8(2, 2, vec![0; 17]).map(|_| ()), geometry);
    assert_eq!(EpdImage::from_rgba8(0, 2, vec![]).map(|_| ()), geometry);
    assert_eq!(EpdImage::from_rgba8(2, 0, vec![]).map(|_| ()), geometry);
    assert_eq!(EpdImage::from_rgba8(0, 0, vec![]).map(|_| ()), geometry);
    assert_eq!(EpdImage::from_rgba8(u32::MAX, u32::MAX, vec![0; 4]).map(|_| ()), geometry);
}

#[test]
fn raster_keeps_what_it_was_given() {
    let pixels: Vec<u8> = (0..24).collect();
    let image = EpdImage::from_rgba8(3, 2, pixels.clone()).unwrap();
    assert_eq!(image.width(), 3);
    assert_eq!(image.height(), 2);
    assert_eq!(image.pixels(), &pixels);
    let copy = image.clone();
    assert_eq!(copy.width(), 3);
    assert_eq!(copy.height(), 2);
    assert_eq!(copy.pixels(), &pixels);
}

#[test]
fn solid_white_at_panel_resolution_is_all_ones() {
    let format = EpdImageFormat { width: EPD_WIDTH, height: EPD_HEIGHT };
    let data = solid(400, 300, [255, 255, 255, 255]).export(&format).unwrap();
    assert_eq!(data, vec![0xffu8; 15000]);
}

#[test]
fn solid_black_at_panel_resolution_is_all_zeros() {
    let format = EpdImageFormat { width: EPD_WIDTH, height: EPD_HEIGHT };
    let data = solid(400, 300, [0, 0, 0, 255]).export(&format).unwrap();
    assert_eq!(data, vec![0x00u8; 15000]);
}

#[test]
fn pixel_count_that_is_no_multiple_of_eight_keeps_its_last_byte() {
    let format = EpdImageFormat { width: 401, height: 300 };
    let data = solid(401, 300, [255, 255, 255, 255]).export(&format).unwrap();
    assert_eq!(data.len(), 15038);
    assert_eq!(&data[..15037], &vec![0xffu8; 15037][..]);
    assert_eq!(data[15037], 0xf0);
}

#[test]
fn export_lengths() {
    for (width, height) in [(1u32, 1u32), (3, 3), (8, 1), (9, 1), (7, 5), (16, 16), (401, 3)] {
        let format = EpdImageFormat { width, height };
        let data = solid(width, height, [0, 0, 0, 255]).export(&format).unwrap();
        assert_eq!(data.len(), (width as usize * height as usize + 7) / 8);
    }
}

#[test]
fn luma_at_the_threshold_is_bit_one() {
    let format = EpdImageFormat { width: 8, height: 1 };
    let data = gray(8, 1, &[136, 135, 137, 0, 255, 136, 134, 200]).export(&format).unwrap();
    assert_eq!(data, vec![0b1010_1101]);
}

#[test]
fn luma_is_weighted_by_channel() {
    let format = EpdImageFormat { width: 8, height: 1 };
    let pixels: Vec<u8> = [
        [255u8, 0, 0, 255],
        [0, 255, 0, 255],
        [0, 0, 255, 255],
        [0, 190, 0, 255],
        [0, 191, 0, 255],
        [255, 115, 0, 255],
        [255, 114, 0, 255],
        [255, 255, 255, 0],
    ]
    .concat();
    let image = EpdImage::from_rgba8(8, 1, pixels).unwrap();
    assert_eq!(image.export(&format).unwrap(), vec![0b0100_1101]);
}

#[test]
fn export_fits_the_image_to_the_format() {
    let format = EpdImageFormat { width: 4, height: 1 };
    assert_eq!(solid(8, 2, [255, 255, 255, 255]).export(&format).unwrap(), vec![0xf0]);
    assert_eq!(solid(8, 2, [0, 0, 0, 255]).export(&format).unwrap(), vec![0x00]);
    let format = EpdImageFormat { width: 16, height: 2 };
    assert_eq!(
        solid(3, 5, [255, 255, 255, 255]).export(&format).unwrap(),
        vec![0xff, 0xff, 0xff, 0xff]
    );
}

#[test]
fn export_does_not_keep_the_aspect_ratio() {
    let left_white: Vec<u8> =
        [[255u8, 255, 255, 255], [255, 255, 255, 255], [0, 0, 0, 255], [0, 0, 0, 255]].concat();
    let image = EpdImage::from_rgba8(4, 1, left_white).unwrap();
    let format = EpdImageFormat { width: 8, height: 2 };
    let data = image.export(&format).unwrap();
    assert_eq!(data.len(), 2);
    assert_eq!(data[0], data[1]);
    assert_eq!(data[0] & 0b1100_0011, 0b1100_0000);
}

#[test]
fn export_to_an_empty_format_is_empty() {
    let format = EpdImageFormat { width: 0, height: 0 };
    assert_eq!(solid(2, 2, [255, 255, 255, 255]).export(&format).unwrap(), Vec::<u8>::new());
}

#[test]
fn export_beyond_the_machine_is_too_large() {
    let format = EpdImageFormat { width: u32::MAX, height: u32::MAX };
    assert_eq!(
        solid(2, 2, [255, 255, 255, 255]).export(&format),
        Err(DriverError::ImageDecodeError(ImageFailure::TooLarge))
    );
}

#[test]
fn decode_reads_an_encoded_image() {
    let pixels: Vec<u8> =
        [[255u8, 0, 0, 255], [0, 255, 0, 255], [0, 0, 255, 255], [9, 8, 7, 6]].concat();
    let image = EpdImage::decode(&png_of(2, 2, pixels.clone())).unwrap();
    assert_eq!(image.width(), 2);
    assert_eq!(image.height(), 2);
    assert_eq!(image.pixels(), &pixels);
}

#[test]
fn decode_converts_other_colour_types() {
    let buffer = image::GrayImage::from_raw(2, 1, vec![10, 200]).unwrap();
    let mut bytes = std::io::Cursor::new(Vec::new());
    image::DynamicImage::ImageLuma8(buffer)
        .write_to(&mut bytes, image::ImageOutputFormat::Png)
        .unwrap();
    let image = EpdImage::decode(&bytes.into_inner()).unwrap();
    assert_eq!(image.width(), 2);
    assert_eq!(image.height(), 1);
    assert_eq!(image.pixels(), &vec![10, 10, 10, 255, 200, 200, 200, 255]);
}

#[test]
fn decode_of_unknown_bytes_is_unsupported() {
    assert_eq!(
        EpdImage::decode(b"this is no image").map(|_| ()),
        Err(DriverError::ImageDecodeError(ImageFailure::Unsupported))
    );
    assert_eq!(
        EpdImage::decode(&[]).map(|_| ()),
        Err(DriverError::ImageDecodeError(ImageFailure::Unsupported))
    );
}

#[test]
fn decode_of_a_broken_image_fails() {
    let mut png = png_of(4, 4, vec![0x7f; 64]);
    png.truncate(40);
    let failure = EpdImage::decode(&png).map(|_| ());
    assert!(matches!(failure, Err(DriverError::ImageDecodeError(_))));
    let mut png = png_of(4, 4, vec![0x7f; 64]);
    png[12] = b'X';
    assert_eq!(
        EpdImage::decode(&png).map(|_| ()),
        Err(DriverError::ImageDecodeError(ImageFailure::Decoding))
    );
}
