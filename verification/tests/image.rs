use ray_tracing::image::{push_decimal, Image, ImageFormat};

fn text(image: &Image) -> String {
    String::from_utf8(image.encode()).unwrap()
}

#[test]
fn new_image_has_no_pixels_yet() {
    let image = Image::new(ImageFormat::PPM, 800, 600);
    assert_eq!(image.width, 800);
    assert_eq!(image.height, 600);
    assert_eq!(image.format, ImageFormat::PPM);
    assert!(image.bytes.is_empty());
}

#[test]
fn default_image_is_an_empty_pixmap() {
    let image = Image::default();
    assert_eq!(image.format, ImageFormat::default());
    assert_eq!((image.width, image.height), (0, 0));
    assert_eq!(text(&image), "P3\n0 0\n255\n");
}

#[test]
fn decimal_digits_come_most_significant_first() {
    let mut out = vec![b'x'];
    push_decimal(&mut out, 0);
    push_decimal(&mut out, 7);
    push_decimal(&mut out, 10);
    push_decimal(&mut out, 255);
    push_decimal(&mut out, 1234567890);
    assert_eq!(String::from_utf8(out).unwrap(), "x07102551234567890");
}

#[test]
fn ppm_round_trip() {
    let mut image = Image::new(ImageFormat::PPM, 1, 1);
    image.bytes = vec![0, 128, 255];
    let file = text(&image);
    assert_eq!(file, "P3\n1 1\n255\n0 128 255 ");
    let tokens: Vec<&str> = file.split_whitespace().collect();
    assert_eq!(tokens, vec!["P3", "1", "1", "255", "0", "128", "255"]);
}

#[test]
fn a_line_ends_where_the_byte_count_is_a_multiple_of_the_width() {
    let mut image = Image::new(ImageFormat::PPM, 3, 1);
    image.bytes = vec![0, 128, 255, 1, 2, 3, 9, 9, 9];
    assert_eq!(text(&image), "P3\n3 1\n255\n0 128 255 1 2 3 \n9 9 9 \n");

    let mut image = Image::new(ImageFormat::PPM, 2, 2);
    image.bytes = vec![1, 1, 1, 2, 2, 2, 3, 3, 3, 4, 4, 4];
    assert_eq!(text(&image), "P3\n2 2\n255\n1 1 1 2 2 2 3 3 3 \n4 4 4 ");

    let mut image = Image::new(ImageFormat::PPM, 1, 3);
    image.bytes = vec![1, 1, 1, 2, 2, 2, 3, 3, 3];
    assert_eq!(text(&image), "P3\n1 3\n255\n1 1 1 2 2 2 \n3 3 3 \n");
}

#[test]
fn the_sizes_in_the_head_are_the_image_s_own() {
    let mut image = Image::new(ImageFormat::PPM, 640, 48);
    image.bytes = vec![10, 20, 30];
    assert_eq!(text(&image), "P3\n640 48\n255\n10 20 30 ");
}

#[test]
fn a_frame_has_an_opaque_fourth_channel() {
    let mut image = Image::new(ImageFormat::PPM, 2, 1);
    assert!(image.to_rgba().is_empty());
    image.bytes = vec![1, 2, 3, 40, 50, 60];
    assert_eq!(image.to_rgba(), vec![1, 2, 3, 255, 40, 50, 60, 255]);
    image.bytes = vec![1, 2, 3, 40, 50];
    assert_eq!(image.to_rgba(), vec![1, 2, 3, 255]);
}
