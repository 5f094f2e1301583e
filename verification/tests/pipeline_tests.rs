use gif_maker::decode::get_all_images;
use gif_maker::encode::images_to_gif;
use gif_maker::error::GifError;
use gif_maker::frames::ImageFile;
use gif_maker::pipeline::make_gif;

fn png_bytes(width: u32, height: u32, rgba: [u8; 4]) -> Vec<u8> {
    let img = image::RgbaImage::from_pixel(width, height, image::Rgba(rgba));
    let mut bytes: Vec<u8> = Vec::new();
    img.write_to(&mut std::io::Cursor::new(&mut bytes), image::ImageFormat::Png)
        .unwrap();
    bytes
}

fn png_file(name: &str, width: u32, height: u32, rgba: [u8; 4]) -> ImageFile {
    ImageFile { name: String::from(name), bytes: png_bytes(width, height, rgba) }
}

fn ten_numbered_files() -> Vec<ImageFile> {
    let mut files: Vec<ImageFile> = Vec::new();
    for i in 1..=10u8 {
        let name = format!("{i}.png");
        files.push(png_file(&name, 4, 3, [i * 20, 0, 255 - i * 20, 255]));
    }
    files
}

#[test]
fn get_all_images_ok() {
    let images = get_all_images(ten_numbered_files()).unwrap();
    assert_eq!(images.len(), 10);
}

#[test]
fn get_all_images_err() {
    let images = get_all_images(Vec::new());
    assert_eq!(images.is_err(), true);
}

#[test]
fn empty_listing_is_invalid_directory() {
    assert_eq!(get_all_images(Vec::new()).unwrap_err(), GifError::InvalidDirectory);
}

#[test]
fn decoded_frames_carry_pixel_dimensions() {
    let files = vec![png_file("1.png", 4, 3, [1, 2, 3, 255])];
    let frames = get_all_images(files).unwrap();
    assert_eq!(frames[0].width, 4);
    assert_eq!(frames[0].height, 3);
    assert_eq!(frames[0].data.len(), 4 * 4 * 3);
    assert_eq!(&frames[0].data[0..4], &[1, 2, 3, 255]);
}

#[test]
fn frames_come_back_in_key_order() {
    let files = vec![
        png_file("2.png", 2, 2, [0, 0, 0, 255]),
        png_file("10.png", 3, 3, [0, 0, 0, 255]),
        png_file("1.png", 1, 1, [0, 0, 0, 255]),
    ];
    let frames = get_all_images(files).unwrap();
    let widths: Vec<u16> = frames.iter().map(|f| f.width).collect();
    assert_eq!(widths, vec![1, 2, 3]);
}

#[test]
fn corrupt_input_fails_whole_load() {
    let mut files = ten_numbered_files();
    files.push(ImageFile { name: String::from("11.png"), bytes: vec![1, 2, 3, 4] });
    let r = get_all_images(files);
    assert_eq!(r.unwrap_err(), GifError::UnsupportedOrCorruptImage);
}

#[test]
fn images_to_gif_test() {
    let images = get_all_images(ten_numbered_files()).unwrap();
    let bytes = images_to_gif(images, 10, 100).unwrap();
    assert_eq!(bytes.is_empty(), false);
}

#[test]
fn end_to_end_ten_frames() {
    let bytes = make_gif(ten_numbered_files(), 10, 100).unwrap();

    let decoder = gif::DecodeOptions::new();
    let mut decoder = decoder.read_info(std::io::Cursor::new(&bytes)).unwrap();
    assert_eq!(decoder.width(), 4);
    assert_eq!(decoder.height(), 3);
    let mut delays: Vec<u16> = Vec::new();
    while let Some(frame) = decoder.read_next_frame().unwrap() {
        delays.push(frame.delay);
    }
    assert_eq!(delays.len(), 10);
    assert_eq!(delays[0], 100);
    assert_eq!(delays[9], 100);
    for d in &delays[1..9] {
        assert_eq!(*d, 10);
    }
    assert_eq!(decoder.repeat(), gif::Repeat::Infinite);
}

#[test]
fn single_frame_gif_uses_boundary_delay() {
    let files = vec![png_file("1.png", 2, 2, [9, 9, 9, 255])];
    let bytes = make_gif(files, 10, 100).unwrap();
    let mut decoder = gif::DecodeOptions::new()
        .read_info(std::io::Cursor::new(&bytes))
        .unwrap();
    let frame = decoder.read_next_frame().unwrap().unwrap();
    assert_eq!(frame.delay, 100);
    assert!(decoder.read_next_frame().unwrap().is_none());
}

#[test]
fn make_gif_on_empty_listing() {
    assert_eq!(make_gif(Vec::new(), 10, 100).unwrap_err(), GifError::InvalidDirectory);
}

#[test]
fn make_gif_on_corrupt_file() {
    let files = vec![ImageFile { name: String::from("1.png"), bytes: vec![0xFF, 0x00] }];
    assert_eq!(make_gif(files, 10, 100).unwrap_err(), GifError::UnsupportedOrCorruptImage);
}
