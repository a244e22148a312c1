use handiva::ico_build::{assemble_ico, IcoBuildError};
use handiva::icon_packer::{image_size, IcoImage, Resolution};

fn img(name: &str, w: u32, h: u32) -> IcoImage {
    IcoImage::new(format!("/x/{}", name), Some(name.to_string()), Resolution { width: w, height: h }, 10)
}

fn pixels(w: u32, h: u32, seed: u8) -> Vec<u8> {
    let mut rgba = Vec::new();
    for i in 0..(w * h) {
        rgba.extend_from_slice(&[(i as u8).wrapping_mul(7).wrapping_add(seed), seed, 200, 255]);
    }
    rgba
}

fn png(w: u32, h: u32, seed: u8) -> Vec<u8> {
    let buf = image::RgbaImage::from_raw(w, h, pixels(w, h, seed)).unwrap();
    let mut out = std::io::Cursor::new(Vec::new());
    buf.write_to(&mut out, image::ImageFormat::Png).unwrap();
    out.into_inner()
}

/// The building steps written directly against `ico` and `image`.
fn reference(images: &[(u32, u32, Vec<u8>)], extra: &[(u32, usize)]) -> Vec<u8> {
    let mut dir = ico::IconDir::new(ico::ResourceType::Icon);
    for (w, h, px) in images {
        let icon = ico::IconImage::from_rgba_data(*w, *h, px.clone());
        dir.add_entry(ico::IconDirEntry::encode(&icon).unwrap());
    }
    for &(t, src) in extra {
        let (w, h, px) = &images[src];
        let buf = image::RgbaImage::from_raw(*w, *h, px.clone()).unwrap();
        let resized = image::imageops::resize(&buf, t, t, image::imageops::FilterType::Lanczos3);
        let icon = ico::IconImage::from_rgba_data(t, t, resized.into_raw());
        dir.add_entry(ico::IconDirEntry::encode(&icon).unwrap());
    }
    let mut out = Vec::new();
    dir.write(&mut out).unwrap();
    out
}

#[test]
fn builds_entries_for_images_and_extra_sizes() {
    let images = vec![img("a.png", 4, 4), img("b.png", 8, 8)];
    let files = vec![Ok(png(4, 4, 1)), Ok(png(8, 8, 2))];
    let bytes = assemble_ico(&images, &files, &[2, 16]).unwrap();
    assert_eq!(&bytes[0..6], &[0, 0, 1, 0, 4, 0]);
    let dir = ico::IconDir::read(std::io::Cursor::new(&bytes)).unwrap();
    let sizes: Vec<(u32, u32)> = dir.entries().iter().map(|e| (e.width(), e.height())).collect();
    assert_eq!(sizes, vec![(4, 4), (8, 8), (2, 2), (16, 16)]);
    assert_eq!(dir.entries()[0].decode().unwrap().rgba_data(), pixels(4, 4, 1).as_slice());
    let plain = vec![(4, 4, pixels(4, 4, 1)), (8, 8, pixels(8, 8, 2))];
    // 2x2 comes from the 4x4 image, 16x16 from the largest one.
    assert_eq!(bytes, reference(&plain, &[(2, 0), (16, 1)]));
}

#[test]
fn no_images_and_no_sizes_is_an_empty_file() {
    assert_eq!(assemble_ico(&[], &[], &[]).unwrap(), vec![0, 0, 1, 0, 0, 0]);
}

#[test]
fn oversized_image_is_refused() {
    let images = vec![img("ok.png", 4, 4), img("big.png", 300, 2)];
    let files = vec![Ok(png(4, 4, 1)), Ok(png(300, 2, 3))];
    match assemble_ico(&images, &files, &[]) {
        Err(IcoBuildError::Oversized { file_name }) => assert_eq!(file_name, "big.png"),
        other => panic!("unexpected {:?}", other.map(|b| b.len())),
    }
}

#[test]
fn first_failing_image_decides_the_error() {
    let images = vec![img("bad.png", 4, 4), img("big.png", 300, 2)];
    let files = vec![Err("broken".to_string()), Ok(png(300, 2, 3))];
    match assemble_ico(&images, &files, &[16]) {
        Err(IcoBuildError::Decode { file_name, message }) => {
            assert_eq!(file_name, "bad.png");
            assert_eq!(message, "broken");
        }
        other => panic!("unexpected {:?}", other.map(|b| b.len())),
    }
}

#[test]
fn undecodable_bytes_are_a_decode_error() {
    let images = vec![img("junk.png", 4, 4)];
    let files = vec![Ok(vec![1u8, 2, 3, 4])];
    match assemble_ico(&images, &files, &[]) {
        Err(IcoBuildError::Decode { file_name, .. }) => assert_eq!(file_name, "junk.png"),
        other => panic!("unexpected {:?}", other.map(|b| b.len())),
    }
}

#[test]
fn extra_size_without_images_has_no_source() {
    match assemble_ico(&[], &[], &[32]) {
        Err(IcoBuildError::NoSource { target }) => assert_eq!(target, 32),
        other => panic!("unexpected {:?}", other.map(|b| b.len())),
    }
}

#[test]
fn header_gives_the_resolution() {
    let bytes = png(5, 3, 9);
    let r = image_size("/x/a.png", &bytes).unwrap();
    assert_eq!((r.width, r.height), (5, 3));
    assert!(image_size("/x/a.png", &[0, 1, 2]).is_none());
    assert!(image_size("/x/a.txt", &bytes).is_none());
    let rec = IcoImage::from_bytes("/x/a.png".to_string(), None, &bytes, 77).unwrap();
    assert_eq!((rec.resolution.width, rec.resolution.height, rec.size), (5, 3, 77));
    assert_eq!(rec.file_name, "-");
    assert!(IcoImage::from_bytes("/x/b.png".to_string(), None, &[0], 1).is_none());
}
