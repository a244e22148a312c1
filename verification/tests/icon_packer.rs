use handiva::icon_packer::{
    best_source_idx, hover_state, is_allowed, is_allowed_extension, problem_text, row_states,
    HoverState, IcoImage, IconPacker, Resolution, RowState,
};

fn img(name: &str, w: u32, h: u32) -> IcoImage {
    IcoImage::new(format!("/x/{}", name), Some(name.to_string()), Resolution { width: w, height: h }, 1000)
}

fn float_formatted_size(size: u64) -> String {
    const UNITS: &[&str] = &["Б", "КБ", "МБ", "ГБ"];
    let mut size = size as f64;
    for unit in UNITS.iter().take(UNITS.len() - 1) {
        if size < 1024.0 {
            return format!("{:.1} {}", size, unit);
        }
        size /= 1024.0;
    }
    format!("{:.1} {}", size, UNITS.last().unwrap())
}

fn sized(size: u64) -> IcoImage {
    IcoImage::new("p".into(), None, Resolution { width: 1, height: 1 }, size)
}

#[test]
fn formatted_size_examples() {
    assert_eq!(sized(0).formatted_size(), "0.0 Б");
    assert_eq!(sized(512).formatted_size(), "512.0 Б");
    assert_eq!(sized(1023).formatted_size(), "1023.0 Б");
    assert_eq!(sized(1024).formatted_size(), "1.0 КБ");
    assert_eq!(sized(1536).formatted_size(), "1.5 КБ");
    assert_eq!(sized(1280).formatted_size(), "1.2 КБ");
    assert_eq!(sized(3 * 1024 * 1024).formatted_size(), "3.0 МБ");
    assert_eq!(sized(5 * 1024 * 1024 * 1024).formatted_size(), "5.0 ГБ");
}

#[test]
fn formatted_size_matches_float_formatting() {
    let mut samples: Vec<u64> = (0..5000u64).collect();
    for k in [10u32, 20, 30] {
        let base = 1u64 << k;
        for d in 0..2000u64 {
            samples.push(base.saturating_sub(1000) + d);
            samples.push(base + base / 20 * (d % 21));
            samples.push(base * 3 / 2 + d * 37);
        }
    }
    let mut x: u64 = 0x9e37_79b9_7f4a_7c15;
    for _ in 0..20000 {
        x ^= x << 13;
        x ^= x >> 7;
        x ^= x << 17;
        samples.push(x >> (x % 60));
        samples.push(x);
    }
    samples.push(u64::MAX);
    samples.push(u64::MAX - 1);
    samples.push(1 << 53);
    samples.push((1 << 53) + 1);
    samples.push((1 << 54) + 2);
    samples.push((1 << 54) + 6);
    for s in samples {
        assert_eq!(sized(s).formatted_size(), float_formatted_size(s), "size {}", s);
    }
}

#[test]
fn missing_file_name_shows_dash() {
    assert_eq!(sized(1).file_name, "-");
    assert_eq!(img("a.png", 1, 1).file_name, "a.png");
}

#[test]
fn resolution_text() {
    assert_eq!(Resolution { width: 32, height: 16 }.to_string(), "32x16");
}

#[test]
fn row_states_mark_oversized_and_duplicates() {
    let images = vec![img("a", 16, 16), img("b", 300, 16), img("c", 16, 16), img("d", 32, 32), img("e", 300, 16)];
    assert_eq!(
        row_states(&images),
        vec![
            RowState::DuplicateResolution,
            RowState::Oversized,
            RowState::DuplicateResolution,
            RowState::Valid,
            RowState::Oversized,
        ]
    );
    assert!(row_states(&[]).is_empty());
    assert_eq!(row_states(&[img("x", 256, 256)]), vec![RowState::Valid]);
}

#[test]
fn best_source_prefers_smallest_cover_then_largest() {
    let images = vec![img("a", 64, 64), img("b", 32, 32), img("c", 48, 48), img("d", 32, 40)];
    assert_eq!(best_source_idx(&images, 24), Some(1));
    assert_eq!(best_source_idx(&images, 40), Some(2));
    assert_eq!(best_source_idx(&images, 32), Some(1));
    let narrow = vec![img("a", 64, 64), img("d", 40, 44)];
    assert_eq!(best_source_idx(&narrow, 40), Some(1));
    assert_eq!(best_source_idx(&images, 64), Some(0));
    assert_eq!(best_source_idx(&images, 128), Some(0));
    let ties = vec![img("a", 64, 64), img("b", 64, 64)];
    assert_eq!(best_source_idx(&ties, 16), Some(0));
    assert_eq!(best_source_idx(&ties, 128), Some(1));
    assert_eq!(best_source_idx(&[], 16), None);
}

#[test]
fn allowed_extensions() {
    assert!(is_allowed("/tmp/a.png"));
    assert!(is_allowed("C.JPEG"));
    assert!(is_allowed("x.JpG"));
    assert!(is_allowed("dir/y.bmp"));
    assert!(!is_allowed("a.gif"));
    assert!(!is_allowed("png"));
    assert!(!is_allowed(".png"));
    assert!(!is_allowed("a.png.txt"));
    assert!(is_allowed_extension(Some("PNG")));
    assert!(!is_allowed_extension(None));
}

#[test]
fn hover_states() {
    assert_eq!(hover_state(&[]), HoverState::NoFiles);
    assert_eq!(hover_state(&[Some("a.png".into()), Some("b.jpg".into())]), HoverState::Valid);
    assert_eq!(hover_state(&[Some("a.png".into()), None]), HoverState::Invalid);
    assert_eq!(hover_state(&[Some("a.txt".into())]), HoverState::Invalid);
}

#[test]
fn extra_sizes_as_a_sorted_set() {
    let mut p = IconPacker::new();
    p.add_extra_size(64);
    p.add_extra_size(16);
    p.add_extra_size(64);
    p.add_extra_size(32);
    assert!(p.has_extra_size(16));
    assert_eq!(p.sorted_extra(), vec![16, 32, 64]);
    p.remove_extra_size(32);
    p.remove_extra_size(999);
    assert_eq!(p.sorted_extra(), vec![16, 64]);
    p.add_extra_size(48);
    p.remove_extra_size(48);
    assert_eq!(p.sorted_extra(), vec![16, 64]);
}

#[test]
fn square_images_replace_extra_sizes() {
    let mut p = IconPacker::new();
    p.add_extra_size(16);
    p.add_extra_size(32);
    p.add_image(img("a", 32, 32));
    assert_eq!(p.sorted_extra(), vec![16]);
    p.add_extra_size(32);
    // 32 is given by the square image, so it is not an extra entry.
    assert_eq!(p.sorted_extra(), vec![16]);
    p.add_image(img("b", 64, 48));
    assert_eq!(p.images().len(), 2);
    assert_eq!(p.available_to_add(), vec![24, 48, 64, 128, 256]);
    assert_eq!(p.auto_entries(), vec![(16, Some(0))]);
    p.remove_image(0);
    assert_eq!(p.sorted_extra(), vec![16, 32]);
    assert_eq!(p.auto_entries(), vec![(16, Some(0)), (32, Some(0))]);
}

#[test]
fn can_build_and_warnings() {
    let mut p = IconPacker::new();
    assert!(!p.can_build());
    p.add_image(img("a", 16, 16));
    assert!(p.can_build());
    p.add_image(img("b", 16, 16));
    assert!(!p.can_build());
    let states = row_states(p.images());
    assert_eq!(problem_text(&states), "Есть файлы с одинаковым разрешением");
    p.add_image(img("c", 512, 512));
    let states = row_states(p.images());
    assert_eq!(problem_text(&states), "Есть файлы больше 256×256 и дублирующиеся разрешения");
    assert_eq!(problem_text(&[RowState::Oversized]), "Есть файлы больше 256×256");
    assert_eq!(problem_text(&[RowState::Valid]), "");
    assert_eq!(RowState::Oversized.tooltip(), "Превышает максимальный размер 256x256");
    assert_eq!(RowState::DuplicateResolution.tooltip(), "Дублирующееся разрешение");
    assert_eq!(RowState::Valid.tooltip(), "");
}

#[test]
fn upscale_when_a_side_is_short() {
    let r = Resolution { width: 64, height: 32 };
    assert!(r.covers_size(32));
    assert!(r.covers_size(16));
    assert!(!r.covers_size(48));
    assert!(!Resolution { width: 16, height: 16 }.covers_size(17));
    assert!(Resolution { width: 16, height: 16 }.covers_size(16));
}

#[test]
fn drops_take_allowed_new_files_only() {
    let mut p = IconPacker::new();
    assert!(p.accepts_drop("/x/a.png"));
    assert!(!p.accepts_drop("/x/a.txt"));
    p.add_image(img("a.png", 16, 16));
    assert!(!p.accepts_drop("/x/a.png"));
    assert!(!p.accepts_drop("/x//a.png"));
    assert!(p.accepts_drop("/x/b.PNG"));
}
