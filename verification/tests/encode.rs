use fuide::agent::encode::{adler32, base64, chunk, crc32, tga_rgba, Rgb};

#[test]
fn base64_matches_known_vectors() {
    assert_eq!(base64(b""), "");
    assert_eq!(base64(b"f"), "Zg==");
    assert_eq!(base64(b"fo"), "Zm8=");
    assert_eq!(base64(b"foo"), "Zm9v");
    assert_eq!(base64(b"foobar"), "Zm9vYmFy");
}

fn filled(width: usize, height: usize, rgb: [u8; 3]) -> Rgb {
    let mut data = Vec::new();
    for _ in 0..width * height {
        data.extend_from_slice(&rgb);
    }
    Rgb { width, height, data }
}

#[test]
fn stored_png_has_valid_chunks() {
    let rgb = filled(4, 2, [10, 20, 30]);
    assert_eq!((rgb.width, rgb.height), (4, 2));
    assert_eq!(&rgb.data[..3], &[10, 20, 30]);
    let png = rgb.png_stored();
    assert!(png.starts_with(b"\x89PNG\r\n\x1a\n"));
    // IHDR length 13, then the type
    assert_eq!(&png[8..16], b"\0\0\0\x0dIHDR");
    // width / height
    assert_eq!(&png[16..24], &[0, 0, 0, 4, 0, 0, 0, 2]);
    // IHDR CRC (known value for 4x2 RGB8)
    assert_eq!(
        crc32(&png[12..29]),
        u32::from_be_bytes(png[29..33].try_into().unwrap())
    );
    assert!(png.ends_with(b"IEND\xaeB`\x82"));
}

#[test]
fn to_png_yields_png_on_every_platform() {
    let rgb = filled(8, 8, [255, 255, 255]);
    let png = rgb.to_png(None);
    assert!(png.starts_with(b"\x89PNG"));
}

#[test]
fn to_png_keeps_a_converted_png_and_refuses_anything_else() {
    let rgb = filled(2, 2, [1, 2, 3]);
    let sips = b"\x89PNG made elsewhere".to_vec();
    assert_eq!(rgb.to_png(Some(sips.clone())), sips);
    let junk = b"GIF89a".to_vec();
    assert_eq!(rgb.to_png(Some(junk)), rgb.png_stored());
}

#[test]
fn crc32_and_adler32_known_values() {
    assert_eq!(crc32(b""), 0);
    assert_eq!(crc32(b"123456789"), 0xCBF4_3926);
    assert_eq!(crc32(b"IEND"), 0xAE42_6082);
    assert_eq!(adler32(b""), 1);
    assert_eq!(adler32(b"Wikipedia"), 0x11E6_0398);
}

#[test]
fn chunk_is_length_type_data_crc() {
    let mut out = Vec::new();
    chunk(&mut out, b"tEXt", b"ab");
    assert_eq!(&out[..8], b"\0\0\0\x02tEXt");
    assert_eq!(&out[8..10], b"ab");
    assert_eq!(u32::from_be_bytes(out[10..14].try_into().unwrap()), crc32(b"tEXtab"));
    assert_eq!(out.len(), 14);
}

#[test]
fn stored_png_wraps_rows_in_zlib() {
    let rgb = filled(1, 1, [9, 8, 7]);
    let png = rgb.png_stored();
    // IDAT payload: zlib header 78 01, one final stored block of 4 bytes (filter 0 + RGB),
    // then the Adler-32 of the raw scanline
    let idat = &png[33..];
    assert_eq!(&idat[..8], b"\0\0\0\x0fIDAT");
    assert_eq!(&idat[8..10], &[0x78, 0x01]);
    assert_eq!(&idat[10..15], &[1, 4, 0, 0xfb, 0xff]);
    assert_eq!(&idat[15..19], &[0, 9, 8, 7]);
    assert_eq!(u32::from_be_bytes(idat[19..23].try_into().unwrap()), adler32(&[0, 9, 8, 7]));
}

#[test]
fn tga_swaps_to_bgr_with_a_top_left_header() {
    let rgb = Rgb { width: 2, height: 1, data: vec![1, 2, 3, 4, 5, 6] };
    let t = rgb.tga();
    assert_eq!(&t[..12], &[0, 0, 2, 0, 0, 0, 0, 0, 0, 0, 0, 0]);
    assert_eq!(&t[12..16], &[2, 0, 1, 0]);
    assert_eq!(t[16], 24);
    assert_eq!(&t[18..], &[3, 2, 1, 6, 5, 4]);
    let t = tga_rgba(1, 1, &[10, 20, 30, 40]);
    assert_eq!(t[16], 32);
    assert_eq!(t[17], 0x28);
    assert_eq!(&t[18..], &[30, 20, 10, 40]);
}

fn rgba_image(width: usize, height: usize, px: [u8; 4]) -> Vec<u8> {
    let mut v = Vec::new();
    for _ in 0..width * height {
        v.extend_from_slice(&px);
    }
    v
}

#[test]
fn downscale_averages_boxes() {
    let mut img = rgba_image(2, 2, [0, 0, 0, 255]);
    img[0..4].copy_from_slice(&[200, 0, 0, 255]);
    img[4..8].copy_from_slice(&[0, 200, 0, 255]);
    let rgb = Rgb::box_average(2, 2, &img, 1, 1);
    assert_eq!((rgb.width, rgb.height), (1, 1));
    assert_eq!(rgb.data, vec![50, 50, 0]);
}

#[test]
fn full_size_keeps_every_pixel_and_drops_alpha() {
    let img = rgba_image(4, 2, [10, 20, 30, 255]);
    let rgb = Rgb::box_average(4, 2, &img, 4, 2);
    assert_eq!((rgb.width, rgb.height), (4, 2));
    assert_eq!(&rgb.data[..3], &[10, 20, 30]);
    assert_eq!(rgb.data.len(), 4 * 2 * 3);
    let mut img = rgba_image(3, 1, [0, 0, 0, 0]);
    img[4..8].copy_from_slice(&[1, 2, 3, 4]);
    assert_eq!(Rgb::box_average(3, 1, &img, 3, 1).data, vec![0, 0, 0, 1, 2, 3, 0, 0, 0]);
}

#[test]
fn uneven_boxes_round_down() {
    // 3 columns into 2: boxes [0, 1) and [1, 3)
    let mut img = rgba_image(3, 1, [0, 0, 0, 255]);
    img[0..4].copy_from_slice(&[9, 9, 9, 255]);
    img[4..8].copy_from_slice(&[10, 0, 255, 255]);
    img[8..12].copy_from_slice(&[11, 1, 0, 255]);
    let rgb = Rgb::box_average(3, 1, &img, 2, 1);
    assert_eq!(rgb.data, vec![9, 9, 9, 10, 0, 127]);
}

#[test]
fn a_uniform_image_stays_uniform_at_any_size() {
    let img = rgba_image(7, 5, [40, 80, 120, 200]);
    for (w, h) in [(1, 1), (3, 2), (7, 5), (4, 5)] {
        let rgb = Rgb::box_average(7, 5, &img, w, h);
        assert_eq!(rgb.data.len(), w * h * 3);
        for px in rgb.data.chunks(3) {
            assert_eq!(px, &[40, 80, 120]);
        }
    }
}
