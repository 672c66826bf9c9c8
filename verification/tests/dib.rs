use clipwin::dib::{dib_to_image, dib_to_png};

fn header(size: u32, w: i32, h: i32, bpp: u16, compression: u32) -> Vec<u8> {
    let mut out = vec![0u8; size as usize];
    out[0..4].copy_from_slice(&size.to_le_bytes());
    out[4..8].copy_from_slice(&w.to_le_bytes());
    out[8..12].copy_from_slice(&h.to_le_bytes());
    out[14..16].copy_from_slice(&bpp.to_le_bytes());
    out[16..20].copy_from_slice(&compression.to_le_bytes());
    out
}

#[test]
fn rows_from_the_bottom_up_are_turned() {
    let mut dib = header(40, 1, 2, 32, 0);
    dib.extend_from_slice(&[1, 2, 3, 4, 5, 6, 7, 8]);
    let img = dib_to_image(&dib).unwrap();
    assert_eq!((img.width, img.height), (1, 2));
    assert_eq!(img.rgba, vec![7, 6, 5, 8, 3, 2, 1, 4]);
}

#[test]
fn rows_from_the_top_down_stay() {
    let mut dib = header(40, 1, -2, 32, 0);
    dib.extend_from_slice(&[1, 2, 3, 4, 5, 6, 7, 8]);
    assert_eq!(dib_to_image(&dib).unwrap().rgba, vec![3, 2, 1, 4, 7, 6, 5, 8]);
}

#[test]
fn rows_of_three_bytes_are_padded() {
    let mut dib = header(40, 1, 2, 24, 0);
    dib.extend_from_slice(&[1, 2, 3, 99, 4, 5, 6, 99]);
    assert_eq!(dib_to_image(&dib).unwrap().rgba, vec![6, 5, 4, 255, 3, 2, 1, 255]);
}

#[test]
fn bit_fields_precede_the_pixels() {
    let mut dib = header(40, 1, 1, 32, 3);
    dib.extend_from_slice(&[0; 12]);
    dib.extend_from_slice(&[1, 2, 3, 4]);
    assert_eq!(dib_to_image(&dib).unwrap().rgba, vec![3, 2, 1, 4]);
    let mut long = header(124, 1, 1, 32, 0);
    long.extend_from_slice(&[9, 8, 7, 6]);
    assert_eq!(dib_to_image(&long).unwrap().rgba, vec![7, 8, 9, 6]);
}

#[test]
fn a_bitmap_of_one_pixel_is_supported() {
    let mut dib = header(40, 1, 1, 32, 0);
    dib.extend_from_slice(&[10, 20, 30, 40]);
    let img = dib_to_image(&dib).unwrap();
    assert_eq!((img.width, img.height), (1, 1));
    assert_eq!(img.rgba, vec![30, 20, 10, 40]);
}

#[test]
fn unsupported_bitmaps_give_nothing() {
    let ok = {
        let mut d = header(40, 1, 1, 32, 0);
        d.extend_from_slice(&[0; 16]);
        d
    };
    assert!(dib_to_image(&ok).is_some());
    assert!(dib_to_image(&ok[..39]).is_none());
    assert!(dib_to_image(&ok[..43]).is_none());
    assert!(dib_to_image(&header(40, 1, 1, 32, 0)).is_none());
    let with = |w: i32, h: i32, bpp: u16, c: u32| {
        let mut d = header(40, w, h, bpp, c);
        d.extend_from_slice(&[0; 64]);
        dib_to_image(&d).is_some()
    };
    assert!(with(2, 2, 24, 0));
    assert!(!with(0, 1, 32, 0));
    assert!(!with(1, 0, 32, 0));
    assert!(!with(1, 1, 8, 0));
    assert!(!with(1, 1, 32, 1));
    assert!(!with(100, 100, 32, 0));
    assert!(!with(-1, 1, 32, 0));
    assert!(!with(1, i32::MIN, 32, 0));
}

#[test]
fn the_png_holds_the_pixels() {
    let mut dib = header(40, 2, 1, 32, 0);
    dib.extend_from_slice(&[1, 2, 3, 4, 5, 6, 7, 8]);
    let png = dib_to_png(&dib).unwrap();
    assert_eq!(&png[..8], &[0x89, b'P', b'N', b'G', 0x0d, 0x0a, 0x1a, 0x0a]);
    let img = image::load_from_memory(&png).unwrap().to_rgba8();
    assert_eq!(img.dimensions(), (2, 1));
    assert_eq!(img.into_raw(), vec![3, 2, 1, 4, 7, 6, 5, 8]);
    assert!(dib_to_png(&[0; 40]).is_none());
}
