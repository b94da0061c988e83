use ray_tracing::loader::bmp::{read_i32, read_u32, BmpError, BMP};
use ray_tracing::texture::Texture;

fn bitmap(width: i32, height: i32, offset: u32, compression: u32, pixels: &[u8]) -> Vec<u8> {
    let mut file = vec![0u8; offset as usize];
    file[0] = b'B';
    file[1] = b'M';
    file[10..14].copy_from_slice(&offset.to_le_bytes());
    file[18..22].copy_from_slice(&width.to_le_bytes());
    file[22..26].copy_from_slice(&height.to_le_bytes());
    file[30..34].copy_from_slice(&compression.to_le_bytes());
    file[34..38].copy_from_slice(&(pixels.len() as u32).to_le_bytes());
    file.extend_from_slice(pixels);
    file
}

fn texture(width: usize, height: usize, count: u8) -> Texture {
    Texture {
        width,
        height,
        pixel_data: (0..count).map(|k| [k, k, k]).collect(),
    }
}

#[test]
fn numbers_are_read_least_significant_byte_first() {
    let bytes = [0x78, 0x56, 0x34, 0x12, 0xFF, 0xFF, 0xFF, 0xFF, 0x00, 0x00, 0x00, 0x80];
    assert_eq!(read_u32(&bytes, 0), 0x12345678);
    assert_eq!(read_i32(&bytes, 0), 0x12345678);
    assert_eq!(read_u32(&bytes, 4), u32::MAX);
    assert_eq!(read_i32(&bytes, 4), -1);
    assert_eq!(read_i32(&bytes, 8), i32::MIN);
    assert_eq!(read_u32(&bytes, 1), 0xFF123456);
}

#[test]
fn pixels_come_out_red_first() {
    let file = bitmap(2, 1, 54, 0, &[1, 2, 3, 40, 50, 60]);
    let bmp = BMP::parse(&file).unwrap();
    assert_eq!(bmp.width, 2);
    assert_eq!(bmp.height, 1);
    assert_eq!(bmp.pixel_data, vec![[3, 2, 1], [60, 50, 40]]);
}

#[test]
fn pixel_data_is_found_by_its_offset() {
    let mut file = bitmap(1, 1, 60, 0, &[7, 8, 9]);
    file[54] = 200;
    file.extend_from_slice(&[1, 1, 1]);
    let bmp = BMP::parse(&file).unwrap();
    assert_eq!(bmp.pixel_data, vec![[9, 8, 7]]);
}

#[test]
fn negative_sizes_are_kept_as_written() {
    let file = bitmap(-4, -2, 54, 0, &[]);
    let bmp = BMP::parse(&file).unwrap();
    assert_eq!((bmp.width, bmp.height), (-4, -2));
    assert!(bmp.pixel_data.is_empty());
}

#[test]
fn a_wrong_signature_is_refused() {
    let mut file = bitmap(1, 1, 54, 0, &[1, 2, 3]);
    file[1] = b'N';
    assert_eq!(BMP::parse(&file).unwrap_err(), BmpError::BadSignature);
    assert_eq!(BMP::parse(b"PNG").unwrap_err(), BmpError::BadSignature);
}

#[test]
fn a_compressed_bitmap_is_refused() {
    let file = bitmap(1, 1, 54, 1, &[1, 2, 3]);
    assert_eq!(BMP::parse(&file).unwrap_err(), BmpError::Compressed);
    assert_eq!(BMP::parse(&file[..34]).unwrap_err(), BmpError::Compressed);
}

#[test]
fn a_short_file_is_refused() {
    let file = bitmap(1, 1, 54, 0, &[1, 2, 3]);
    assert_eq!(BMP::parse(&[]).unwrap_err(), BmpError::Truncated);
    assert_eq!(BMP::parse(b"B").unwrap_err(), BmpError::Truncated);
    assert_eq!(BMP::parse(&file[..33]).unwrap_err(), BmpError::Truncated);
    assert_eq!(BMP::parse(&file[..37]).unwrap_err(), BmpError::Truncated);
    assert_eq!(BMP::parse(&file[..56]).unwrap_err(), BmpError::Truncated);
    assert!(BMP::parse(&file[..57]).is_ok());
}

#[test]
fn pixel_data_outside_the_file_is_refused() {
    let mut file = bitmap(1, 1, 54, 0, &[1, 2, 3]);
    file[10..14].copy_from_slice(&(-1i32).to_le_bytes());
    assert_eq!(BMP::parse(&file).unwrap_err(), BmpError::Truncated);
    file[10..14].copy_from_slice(&55u32.to_le_bytes());
    assert_eq!(BMP::parse(&file).unwrap_err(), BmpError::Truncated);
    file[10..14].copy_from_slice(&0x8000_0000u32.to_le_bytes());
    assert_eq!(BMP::parse(&file).unwrap_err(), BmpError::Truncated);
    file[10..14].copy_from_slice(&u32::MAX.to_le_bytes());
    file[34..38].copy_from_slice(&u32::MAX.to_le_bytes());
    assert_eq!(BMP::parse(&file).unwrap_err(), BmpError::Truncated);
}

#[test]
fn pixel_data_may_start_anywhere_in_the_file() {
    let mut file = bitmap(1, 1, 54, 0, &[1, 2, 3]);
    file[10..14].copy_from_slice(&0u32.to_le_bytes());
    file[34..38].copy_from_slice(&6u32.to_le_bytes());
    let bmp = BMP::parse(&file).unwrap();
    assert_eq!(bmp.pixel_data, vec![[0, b'M', b'B'], [0, 0, 0]]);
    file[10..14].copy_from_slice(&57u32.to_le_bytes());
    file[34..38].copy_from_slice(&0u32.to_le_bytes());
    assert!(BMP::parse(&file).unwrap().pixel_data.is_empty());
}

#[test]
fn half_a_pixel_is_refused() {
    let file = bitmap(1, 1, 54, 0, &[1, 2, 3, 4]);
    assert_eq!(BMP::parse(&file).unwrap_err(), BmpError::Ragged);
}

#[test]
fn a_texture_takes_the_bitmap_as_it_is() {
    let file = bitmap(2, 1, 54, 0, &[1, 2, 3, 40, 50, 60]);
    let texture = Texture::from(BMP::parse(&file).unwrap());
    assert_eq!((texture.width, texture.height), (2, 1));
    assert_eq!(texture.pixel_data, vec![[3, 2, 1], [60, 50, 40]]);
    let texture = Texture::from(BMP {
        width: -1,
        height: 3,
        pixel_data: Vec::new(),
    });
    assert_eq!(texture.width, usize::MAX);
    assert_eq!(texture.height, 3);
}

#[test]
fn texels_inside_the_raster_are_taken_as_they_are() {
    let t = texture(4, 3, 12);
    assert_eq!(t.color_at(0, 0), [0, 0, 0]);
    assert_eq!(t.color_at(3, 0), [3, 3, 3]);
    assert_eq!(t.color_at(1, 2), [9, 9, 9]);
    assert_eq!(t.color_at(3, 2), [11, 11, 11]);
}

#[test]
fn texels_past_the_end_wrap_in_steps_of_one_less_than_the_count() {
    let t = texture(4, 3, 12);
    assert_eq!(t.color_at(0, 3), [1, 1, 1]);
    assert_eq!(t.color_at(3, 5), [1, 1, 1]);
    assert_eq!(t.color_at(2, 5), [11, 11, 11]);
    assert_eq!(t.color_at(100, 0), [1, 1, 1]);
}

#[test]
fn texels_below_zero_wrap_up() {
    let t = texture(4, 3, 12);
    assert_eq!(t.color_at(-1, 0), [10, 10, 10]);
    assert_eq!(t.color_at(0, -1), [7, 7, 7]);
    assert_eq!(t.color_at(-11, 0), [0, 0, 0]);
    assert_eq!(t.color_at(-12, 0), [10, 10, 10]);
}

#[test]
fn a_texel_can_be_asked_for_only_where_the_lookup_ends() {
    assert!(texture(4, 3, 12).can_reach(-5, 100));
    assert!(!texture(4, 3, 0).can_reach(0, 0));
    assert!(texture(1, 1, 1).can_reach(0, 0));
    assert!(!texture(1, 1, 1).can_reach(1, 0));
    assert!(!texture(1, 1, 1).can_reach(0, -1));
    assert!(!texture(4, 3, 12).can_reach(i32::MAX, 1));
    assert!(texture(4, 3, 12).can_reach(i32::MAX - 4, 1));
    assert!(!texture(usize::MAX, 3, 12).can_reach(0, 0));
    assert_eq!(texture(1, 1, 1).color_at(0, 0), [0, 0, 0]);
}

#[test]
fn only_bitmaps_are_textures() {
    assert!(Texture::supports("wood.bmp"));
    assert!(Texture::supports("res/a.b/wood.bmp"));
    assert!(Texture::supports("bmp"));
    assert!(!Texture::supports("wood.png"));
    assert!(!Texture::supports("wood.bmp.old"));
    assert!(!Texture::supports("wood.BMP"));
    assert!(!Texture::supports("woodbmp"));
    assert!(!Texture::supports("wood."));
    assert!(!Texture::supports(""));
}
