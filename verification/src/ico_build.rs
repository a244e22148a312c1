//! Building the `.ico` file: each dropped image becomes an entry, each
//! extra size an entry resized from the best source image.

use vstd::prelude::*;
use crate::icon_packer::{best_source, best_source_idx, image_size_of, resolutions, IcoImage};

verus! {

#[verifier::external_type_specification]
#[verifier::external_body]
pub struct ExIconDir(ico::IconDir);

#[verifier::external_type_specification]
#[verifier::external_body]
pub struct ExIconDirEntry(ico::IconDirEntry);

#[verifier::external_type_specification]
#[verifier::external_body]
pub struct ExIoError(std::io::Error);

/// What an `ico::IconDir` holds: the width, height and encoded data of each
/// entry, in order.
pub uninterp spec fn icon_dir_entries(dir: ico::IconDir) -> Seq<(u32, u32, Seq<u8>)>;

/// Whether an `ico::IconDir` is a collection of icons (not of cursors).
pub uninterp spec fn icon_dir_holds_icons(dir: ico::IconDir) -> bool;

/// The encoded image data an `ico::IconDirEntry` holds.
pub uninterp spec fn icon_entry_data(entry: ico::IconDirEntry) -> Seq<u8>;

/// Whether an `ico::IconDirEntry` is an icon (not a cursor), and its width
/// and height.
pub uninterp spec fn icon_entry_header(entry: ico::IconDirEntry) -> (bool, u32, u32);

/// The data `ico::IconDirEntry::encode` produces for an RGBA image of the
/// given size: a PNG or BMP encoding, chosen by the image's content.
pub uninterp spec fn ico_encoding(width: u32, height: u32, rgba: Seq<u8>) -> Seq<u8>;

/// Whether `ico::IconDirEntry::encode` fails on an RGBA image of the given
/// size; its PNG and BMP writers write into a vector, so this depends on the
/// image alone.
pub uninterp spec fn ico_encode_fails(width: u32, height: u32, rgba: Seq<u8>) -> bool;

/// Whether the `image` crate decodes `bytes` in the format that the
/// extension of `path` names, under its default limits: a function of the
/// two.
pub uninterp spec fn image_decodes(path: Seq<char>, bytes: Seq<u8>) -> bool;

/// `px` are RGBA pixels the `image` crate's decoder can give for `bytes`
/// read in the format that the extension of `path` names. A relation, not a
/// function: a decoder's arithmetic may differ between machines.
pub uninterp spec fn image_pixels(path: Seq<char>, bytes: Seq<u8>, px: Seq<u8>) -> bool;

/// `out` are RGBA pixels `image::imageops::resize` with the Lanczos3 filter
/// can give for the `width` x `height` pixels `rgba` resized to `new_width`
/// x `new_height`. A relation, not a function: the filter computes in
/// floating point through the platform's `sin`.
pub uninterp spec fn lanczos3_resized(
    rgba: Seq<u8>,
    width: u32,
    height: u32,
    new_width: u32,
    new_height: u32,
    out: Seq<u8>,
) -> bool;

/// Calls `ico::IconDir::new` for icons: an empty collection of icons.
#[verifier::external_body]
fn new_icon_dir() -> (d: ico::IconDir)
    ensures
        icon_dir_entries(d) == Seq::<(u32, u32, Seq<u8>)>::empty(),
        icon_dir_holds_icons(d),
{
    ico::IconDir::new(ico::ResourceType::Icon)
}

/// Calls `ico::IconDirEntry::encode` on the image made by
/// `ico::IconImage::from_rgba_data` from the arguments (which panics on an
/// empty image or a buffer of the wrong length; `encode` multiplies width by
/// height in 32 bits). It fails exactly when the encoder does on these
/// pixels; on success the entry is an icon of the given size holding the
/// encoding of the pixels.
#[verifier::external_body]
fn encode_icon(width: u32, height: u32, rgba: &[u8]) -> (r: Result<
    ico::IconDirEntry,
    std::io::Error,
>)
    requires
        1 <= width,
        1 <= height,
        width * height <= u32::MAX,
        rgba@.len() == 4 * width * height,
    ensures
        r is Err <==> ico_encode_fails(width, height, rgba@),
        r matches Ok(e) ==> icon_entry_header(e) == (true, width, height) && icon_entry_data(e)
            == ico_encoding(width, height, rgba@),
{
    ico::IconDirEntry::encode(&ico::IconImage::from_rgba_data(width, height, rgba.to_vec()))
}

/// Calls `ico::IconDirEntry::data`: the length of the entry's encoded data.
#[verifier::external_body]
fn entry_data_len(e: &ico::IconDirEntry) -> (r: usize)
    ensures
        r == icon_entry_data(*e).len(),
{
    e.data().len()
}

/// Calls `ico::IconDir::add_entry`, which panics when the entry's kind
/// differs from the collection's: the entry is appended.
#[verifier::external_body]
fn add_icon_entry(dir: &mut ico::IconDir, e: ico::IconDirEntry)
    requires
        icon_dir_holds_icons(*old(dir)),
        icon_entry_header(e).0,
    ensures
        icon_dir_entries(*final(dir)) == icon_dir_entries(*old(dir)).push(
            (icon_entry_header(e).1, icon_entry_header(e).2, icon_entry_data(e)),
        ),
        icon_dir_holds_icons(*final(dir)),
{
    dir.add_entry(e)
}

/// The byte a directory record uses for a width or height: zero stands for
/// 256 and more.
pub open spec fn size_byte(v: u32) -> u8 {
    if v > 255 {
        0
    } else {
        v as u8
    }
}

/// The little-endian 16-bit number at `at`.
pub open spec fn le16(b: Seq<u8>, at: int) -> nat {
    b[at] as nat + 256 * (b[at + 1] as nat)
}

/// The little-endian 32-bit number at `at`.
pub open spec fn le32(b: Seq<u8>, at: int) -> nat {
    le16(b, at) + 65536 * le16(b, at + 2)
}

/// The total length of the entries' data.
pub open spec fn data_total(entries: Seq<(u32, u32, Seq<u8>)>) -> nat
    decreases entries.len(),
{
    if entries.len() == 0 {
        0
    } else {
        data_total(entries.drop_last()) + entries.last().2.len()
    }
}

/// The entries' data, one after the other.
pub open spec fn data_concat(entries: Seq<(u32, u32, Seq<u8>)>) -> Seq<u8>
    decreases entries.len(),
{
    if entries.len() == 0 {
        seq![]
    } else {
        data_concat(entries.drop_last()) + entries.last().2
    }
}

/// `b` is an ICO file of `entries`: the 6-byte header (reserved zero, type
/// 1, count), one 16-byte record per entry with its width and height bytes,
/// a zero reserved byte, its data length and data offset, and then the data
/// of every entry in order. The records' color count, plane and bit-depth
/// fields are not described here.
pub open spec fn ico_file_matches(b: Seq<u8>, entries: Seq<(u32, u32, Seq<u8>)>) -> bool {
    let n = entries.len();
    &&& b.len() == 6 + 16 * n + data_total(entries)
    &&& le16(b, 0) == 0
    &&& le16(b, 2) == 1
    &&& le16(b, 4) == n
    &&& forall|i: int|
        #![trigger entries[i]]
        0 <= i < n ==> {
            &&& b[6 + 16 * i] == size_byte(entries[i].0)
            &&& b[6 + 16 * i + 1] == size_byte(entries[i].1)
            &&& b[6 + 16 * i + 3] == 0
            &&& le32(b, 6 + 16 * i + 8) == entries[i].2.len()
            &&& le32(b, 6 + 16 * i + 12) == 6 + 16 * n + data_total(entries.take(i))
        }
    &&& b.subrange(6 + 16 * n as int, b.len() as int) == data_concat(entries)
}

/// Calls `ico::IconDir::write` on a collection of icons into a byte vector.
/// Its source refuses more than 65535 entries before writing anything, and
/// otherwise fails only when the writer does, which appending to a vector
/// does not; the offsets it writes are 32-bit sums, so the file must fit in
/// 4 GiB. The bytes are the ICO file of the entries.
#[verifier::external_body]
fn write_icon_dir(dir: &ico::IconDir) -> (r: Result<Vec<u8>, std::io::Error>)
    requires
        icon_dir_holds_icons(*dir),
        icon_dir_entries(*dir).len() > 0xffff || 6 + 16 * icon_dir_entries(*dir).len()
            + data_total(icon_dir_entries(*dir)) <= 0xffff_ffff,
    ensures
        icon_dir_entries(*dir).len() > 0xffff ==> r is Err,
        icon_dir_entries(*dir).len() <= 0xffff ==> r is Ok,
        r matches Ok(b) ==> ico_file_matches(b@, icon_dir_entries(*dir)),
{
    let mut out: Vec<u8> = Vec::new();
    dir.write(&mut out).map(|()| out)
}

/// Calls `image::imageops::resize` with the Lanczos3 filter on an RGBA
/// buffer: pixels of the new size, four bytes each, resized from `rgba`. It
/// first resamples into a buffer of 16-byte pixels, `width` by
/// `new_height`.
#[verifier::external_body]
fn resize_rgba(rgba: &[u8], width: u32, height: u32, new_width: u32, new_height: u32) -> (r: Vec<
    u8,
>)
    requires
        rgba@.len() == 4 * width * height,
        4 * new_width * new_height <= usize::MAX,
        16 * width * new_height <= usize::MAX,
    ensures
        r@.len() == 4 * new_width * new_height,
        lanczos3_resized(rgba@, width, height, new_width, new_height, r@),
{
    let img = image::ImageBuffer::<image::Rgba<u8>, &[u8]>::from_raw(width, height, rgba).unwrap();
    image::imageops::resize(&img, new_width, new_height, image::imageops::FilterType::Lanczos3).into_raw()
}

/// Calls `image::ImageFormat::from_path`, `image::ImageReader::decode` and
/// `into_rgba8` on the bytes of the image file at `path`: its width, height
/// and RGBA pixels, or the error's message. It succeeds exactly when the
/// bytes decode in that format; the size is the one its header gives and
/// the pixels are a decoding of the bytes.
#[verifier::external_body]
fn decode_rgba(path: &str, bytes: &[u8]) -> (r: Result<(u32, u32, Vec<u8>), String>)
    ensures
        r is Ok <==> image_decodes(path@, bytes@),
        r matches Ok((w, h, px)) ==> image_size_of(path@, bytes@) == Some((w, h)) && px@.len()
            == 4 * w * h && image_pixels(path@, bytes@, px@),
{
    let format = match image::ImageFormat::from_path(path) {
        Ok(f) => f,
        Err(e) => return Err(e.to_string()),
    };
    match image::ImageReader::with_format(std::io::Cursor::new(bytes), format).decode() {
        Ok(img) => {
            let rgba = img.into_rgba8();
            Ok((rgba.width(), rgba.height(), rgba.into_raw()))
        },
        Err(e) => Err(e.to_string()),
    }
}

/// Calls `Display` on an I/O error: its message. Nothing is claimed of it.
#[verifier::external_body]
fn io_error_text(e: &std::io::Error) -> String {
    format!("{}", e)
}

} // verus!

verus! {

/// Why an `.ico` could not be built.
#[derive(Debug)]
pub enum IcoBuildError {
    /// An image could not be read; the reader's message.
    Decode { file_name: String, message: String },
    /// An image is wider or taller than 256 pixels.
    Oversized { file_name: String },
    /// An image has no pixels.
    Empty { file_name: String },
    /// There is no image to resize from for an extra size.
    NoSource { target: u32 },
    /// The encoder failed; its message.
    Encode { message: String },
    /// The file would pass 4 GiB, beyond what the format's offsets hold.
    TooLarge,
    /// Writing the file failed; the writer's message.
    Write { message: String },
}

/// How a build goes wrong: with an error the inputs fix, or in the encoder
/// or the writer, whose messages are their own.
pub enum PlannedFailure {
    Fixed(IcoBuildError),
    EncoderFails,
    WriterFails,
}

/// What reading an image gave: its width, height and RGBA pixels, or a
/// message.
pub type Reading = Result<(u32, u32, Seq<u8>), String>;

/// `d` is a reading the image `img` can give when its file read as `file`:
/// a failed read gives its message; bytes that decode give the size in
/// their header and a decoding of them, four bytes per pixel; bytes that do
/// not decode give the decoder's message.
pub open spec fn reading_allowed(img: IcoImage, file: Result<Vec<u8>, String>, d: Reading) -> bool {
    match file {
        Err(m) => d == Err::<(u32, u32, Seq<u8>), String>(m),
        Ok(bytes) => match d {
            Ok((w, h, px)) => {
                &&& image_decodes(img.path@, bytes@)
                &&& image_size_of(img.path@, bytes@) == Some((w, h))
                &&& px.len() == 4 * w * h
                &&& image_pixels(img.path@, bytes@, px)
            },
            Err(_) => !image_decodes(img.path@, bytes@),
        },
    }
}

/// The entry image `img` becomes when read as `d`, or why it cannot.
pub open spec fn image_entry(img: IcoImage, d: Reading) -> Result<(u32, u32, Seq<u8>), PlannedFailure> {
    match d {
        Err(m) => Err(PlannedFailure::Fixed(IcoBuildError::Decode { file_name: img.file_name, message: m })),
        Ok((w, h, px)) => if w > 256 || h > 256 {
            Err(PlannedFailure::Fixed(IcoBuildError::Oversized { file_name: img.file_name }))
        } else if w == 0 || h == 0 {
            Err(PlannedFailure::Fixed(IcoBuildError::Empty { file_name: img.file_name }))
        } else if ico_encode_fails(w, h, px) {
            Err(PlannedFailure::EncoderFails)
        } else {
            Ok((w, h, ico_encoding(w, h, px)))
        },
    }
}

/// The entries of the first `n` images, or the failure of the first one
/// that fails.
pub open spec fn images_plan(images: Seq<IcoImage>, readings: Seq<Reading>, n: nat) -> Result<
    Seq<(u32, u32, Seq<u8>)>,
    PlannedFailure,
>
    decreases n,
{
    if n == 0 {
        Ok(seq![])
    } else {
        match images_plan(images, readings, (n - 1) as nat) {
            Err(e) => Err(e),
            Ok(es) => match image_entry(images[n - 1], readings[n - 1]) {
                Err(e) => Err(e),
                Ok(x) => Ok(es.push(x)),
            },
        }
    }
}

/// The entries of the first `m` extra sizes, each encoded from `resized`
/// pixels, or the failure of the first one that fails: a size with no image
/// to resize from, or the encoder.
pub open spec fn extras_plan(
    images: Seq<IcoImage>,
    extras: Seq<u32>,
    resized: Seq<Seq<u8>>,
    m: nat,
) -> Result<Seq<(u32, u32, Seq<u8>)>, PlannedFailure>
    decreases m,
{
    if m == 0 {
        Ok(seq![])
    } else {
        match extras_plan(images, extras, resized, (m - 1) as nat) {
            Err(e) => Err(e),
            Ok(es) => {
                let t = extras[m - 1];
                if best_source(resolutions(images), t) is None {
                    Err(PlannedFailure::Fixed(IcoBuildError::NoSource { target: t }))
                } else if ico_encode_fails(t, t, resized[m - 1]) {
                    Err(PlannedFailure::EncoderFails)
                } else {
                    Ok(es.push((t, t, ico_encoding(t, t, resized[m - 1]))))
                }
            },
        }
    }
}

/// The entries of the file, images first, then extra sizes; or how the
/// build fails: the first failing image or size, then too many entries for
/// the writer, then a file past 4 GiB.
pub open spec fn ico_plan(
    images: Seq<IcoImage>,
    readings: Seq<Reading>,
    extras: Seq<u32>,
    resized: Seq<Seq<u8>>,
) -> Result<Seq<(u32, u32, Seq<u8>)>, PlannedFailure> {
    match images_plan(images, readings, images.len()) {
        Err(e) => Err(e),
        Ok(a) => match extras_plan(images, extras, resized, extras.len()) {
            Err(e) => Err(e),
            Ok(b) => {
                let es = a + b;
                if es.len() > 0xffff {
                    Err(PlannedFailure::WriterFails)
                } else if 6 + 16 * es.len() + data_total(es) > 0xffff_ffff {
                    Err(PlannedFailure::Fixed(IcoBuildError::TooLarge))
                } else {
                    Ok(es)
                }
            },
        },
    }
}

/// `r` is what the plan says: the ICO file of its entries, its fixed
/// error, or an encoder or writer error.
pub open spec fn build_matches(
    r: Result<Vec<u8>, IcoBuildError>,
    plan: Result<Seq<(u32, u32, Seq<u8>)>, PlannedFailure>,
) -> bool {
    match plan {
        Ok(es) => r matches Ok(b) && ico_file_matches(b@, es),
        Err(PlannedFailure::Fixed(e)) => r == Err::<Vec<u8>, IcoBuildError>(e),
        Err(PlannedFailure::EncoderFails) => r matches Err(IcoBuildError::Encode { .. }),
        Err(PlannedFailure::WriterFails) => r matches Err(IcoBuildError::Write { .. }),
    }
}

/// The reading assumed for an image not read yet.
pub open spec fn unread(file: Result<Vec<u8>, String>) -> Reading {
    match file {
        Err(m) => Err(m),
        Ok(_) => Err(vstd::pervasive::arbitrary::<String>()),
    }
}

/// Pixels of the right length assumed for a size not resized yet.
pub open spec fn unresized(t: u32) -> Seq<u8> {
    Seq::new((4 * t * t) as nat, |_j: int| 0u8)
}

} // verus!

verus! {

proof fn lemma_images_prefix(images: Seq<IcoImage>, r1: Seq<Reading>, r2: Seq<Reading>, n: nat)
    requires
        n <= r1.len(),
        n <= r2.len(),
        forall|k: int| 0 <= k < n ==> r1[k] == r2[k],
    ensures
        images_plan(images, r1, n) == images_plan(images, r2, n),
    decreases n,
{
    if n > 0 {
        lemma_images_prefix(images, r1, r2, (n - 1) as nat);
    }
}

proof fn lemma_extras_prefix(
    images: Seq<IcoImage>,
    extras: Seq<u32>,
    s1: Seq<Seq<u8>>,
    s2: Seq<Seq<u8>>,
    m: nat,
)
    requires
        m <= s1.len(),
        m <= s2.len(),
        forall|k: int| 0 <= k < m ==> s1[k] == s2[k],
    ensures
        extras_plan(images, extras, s1, m) == extras_plan(images, extras, s2, m),
    decreases m,
{
    if m > 0 {
        lemma_extras_prefix(images, extras, s1, s2, (m - 1) as nat);
    }
}

proof fn lemma_plan_len(images: Seq<IcoImage>, readings: Seq<Reading>, n: nat)
    requires
        images_plan(images, readings, n) is Ok,
    ensures
        images_plan(images, readings, n)->Ok_0.len() == n,
    decreases n,
{
    if n > 0 {
        lemma_plan_len(images, readings, (n - 1) as nat);
    }
}

proof fn lemma_extras_plan_len(images: Seq<IcoImage>, extras: Seq<u32>, resized: Seq<Seq<u8>>, m: nat)
    requires
        extras_plan(images, extras, resized, m) is Ok,
    ensures
        extras_plan(images, extras, resized, m)->Ok_0.len() == m,
    decreases m,
{
    if m > 0 {
        lemma_extras_plan_len(images, extras, resized, (m - 1) as nat);
    }
}

proof fn lemma_images_err_persists(images: Seq<IcoImage>, readings: Seq<Reading>, j: nat, n: nat)
    requires
        j <= n,
        images_plan(images, readings, j) is Err,
    ensures
        images_plan(images, readings, n) == images_plan(images, readings, j),
    decreases n - j,
{
    if j < n {
        lemma_images_err_persists(images, readings, j, (n - 1) as nat);
    }
}

proof fn lemma_extras_err_persists(
    images: Seq<IcoImage>,
    extras: Seq<u32>,
    resized: Seq<Seq<u8>>,
    j: nat,
    m: nat,
)
    requires
        j <= m,
        extras_plan(images, extras, resized, j) is Err,
    ensures
        extras_plan(images, extras, resized, m) == extras_plan(images, extras, resized, j),
    decreases m - j,
{
    if j < m {
        lemma_extras_err_persists(images, extras, resized, j, (m - 1) as nat);
    }
}

/// An image plan that succeeds gives images of at most 256 x 256 pixels,
/// none empty.
proof fn lemma_images_small(images: Seq<IcoImage>, readings: Seq<Reading>, n: nat)
    requires
        images_plan(images, readings, n) is Ok,
    ensures
        forall|k: int|
            0 <= k < n ==> (#[trigger] readings[k] matches Ok((w, h, _px)) && 1 <= w <= 256 && 1
                <= h <= 256),
    decreases n,
{
    if n > 0 {
        lemma_images_small(images, readings, (n - 1) as nat);
    }
}

} // verus!

verus! {

/// How many of the first `n` images the build reads: up to and including
/// the first that fails.
pub open spec fn images_reached(images: Seq<IcoImage>, readings: Seq<Reading>, n: nat) -> nat
    decreases n,
{
    if n == 0 {
        0
    } else if images_plan(images, readings, (n - 1) as nat) is Err {
        images_reached(images, readings, (n - 1) as nat)
    } else {
        n
    }
}

/// How many of the first `m` extra sizes the build resizes: each one it
/// comes to that has a source image.
pub open spec fn extras_reached(
    images: Seq<IcoImage>,
    extras: Seq<u32>,
    resized: Seq<Seq<u8>>,
    m: nat,
) -> nat
    decreases m,
{
    if m == 0 {
        0
    } else if extras_plan(images, extras, resized, (m - 1) as nat) is Ok && best_source(
        resolutions(images),
        extras[m - 1],
    ) is Some {
        m
    } else {
        extras_reached(images, extras, resized, (m - 1) as nat)
    }
}

/// The pixels of extra size `k` are its best source image's decoded
/// pixels resized with Lanczos3.
pub open spec fn resize_fits(
    images: Seq<IcoImage>,
    readings: Seq<Reading>,
    extras: Seq<u32>,
    resized: Seq<Seq<u8>>,
    k: int,
) -> bool {
    match best_source(resolutions(images), extras[k]) {
        Some(si) => match readings[si] {
            Ok((w, h, px)) => lanczos3_resized(px, w, h, extras[k], extras[k], resized[k]),
            Err(_) => false,
        },
        None => false,
    }
}

/// The readings and resized pixels fit the inputs: one reading per image,
/// each image the build reads read as its file can give it, and each extra
/// size the build resizes resized from its best source image's pixels.
pub open spec fn inputs_fit(
    images: Seq<IcoImage>,
    files: Seq<Result<Vec<u8>, String>>,
    extras: Seq<u32>,
    readings: Seq<Reading>,
    resized: Seq<Seq<u8>>,
) -> bool {
    &&& readings.len() == images.len()
    &&& forall|i: int|
        0 <= i < images_reached(images, readings, images.len()) ==> reading_allowed(
            images[i],
            files[i],
            #[trigger] readings[i],
        )
    &&& resized.len() == extras.len()
    &&& forall|k: int|
        0 <= k < resized.len() ==> (#[trigger] resized[k]).len() == 4 * extras[k] * extras[k]
    &&& images_plan(images, readings, images.len()) is Ok ==> forall|k: int|
        0 <= k < extras_reached(images, extras, resized, extras.len()) ==> #[trigger] resize_fits(
            images,
            readings,
            extras,
            resized,
            k,
        )
}

proof fn lemma_images_reached(images: Seq<IcoImage>, readings: Seq<Reading>, j: nat, n: nat)
    requires
        j <= n,
    ensures
        images_reached(images, readings, j) <= j,
        images_plan(images, readings, n) is Ok ==> images_reached(images, readings, n) == n,
        images_plan(images, readings, j) is Err ==> images_reached(images, readings, n)
            == images_reached(images, readings, j),
    decreases n,
{
    if n > j {
        lemma_images_reached(images, readings, j, (n - 1) as nat);
        if images_plan(images, readings, j) is Err {
            lemma_images_err_persists(images, readings, j, (n - 1) as nat);
        }
    } else if n > 0 {
        lemma_images_reached(images, readings, (n - 1) as nat, (n - 1) as nat);
    }
}

proof fn lemma_extras_reached(
    images: Seq<IcoImage>,
    extras: Seq<u32>,
    resized: Seq<Seq<u8>>,
    j: nat,
    m: nat,
)
    requires
        j <= m,
    ensures
        extras_reached(images, extras, resized, j) <= j,
        extras_plan(images, extras, resized, m) is Ok ==> extras_reached(images, extras, resized, m)
            == m,
        extras_plan(images, extras, resized, j) is Err ==> extras_reached(images, extras, resized, m)
            == extras_reached(images, extras, resized, j),
    decreases m,
{
    if m > j {
        lemma_extras_reached(images, extras, resized, j, (m - 1) as nat);
        if extras_plan(images, extras, resized, j) is Err {
            lemma_extras_err_persists(images, extras, resized, j, (m - 1) as nat);
        }
    } else if m > 0 {
        lemma_extras_reached(images, extras, resized, (m - 1) as nat, (m - 1) as nat);
    }
}

proof fn lemma_witness(
    images: Seq<IcoImage>,
    files: Seq<Result<Vec<u8>, String>>,
    extras: Seq<u32>,
    readings: Seq<Reading>,
    resized: Seq<Seq<u8>>,
    r: Result<Vec<u8>, IcoBuildError>,
)
    requires
        inputs_fit(images, files, extras, readings, resized),
        build_matches(r, ico_plan(images, readings, extras, resized)),
    ensures
        exists|rd: Seq<Reading>, rs: Seq<Seq<u8>>|
            #![trigger ico_plan(images, rd, extras, rs)]
            inputs_fit(images, files, extras, rd, rs) && build_matches(
                r,
                ico_plan(images, rd, extras, rs),
            ),
{
}

proof fn lemma_fit_after_image_failure(
    images: Seq<IcoImage>,
    files: Seq<Result<Vec<u8>, String>>,
    extras: Seq<u32>,
    readings: Seq<Reading>,
    resized: Seq<Seq<u8>>,
    i: nat,
)
    requires
        readings.len() == images.len(),
        i < images.len(),
        resized.len() == extras.len(),
        forall|k: int|
            0 <= k < resized.len() ==> (#[trigger] resized[k]).len() == 4 * extras[k] * extras[k],
        forall|j: int| 0 <= j <= i ==> reading_allowed(images[j], files[j], #[trigger] readings[j]),
        images_plan(images, readings, i + 1) is Err,
    ensures
        inputs_fit(images, files, extras, readings, resized),
{
    lemma_images_reached(images, readings, i + 1, images.len());
    lemma_images_err_persists(images, readings, i + 1, images.len());
}

proof fn lemma_fit_extras(
    images: Seq<IcoImage>,
    files: Seq<Result<Vec<u8>, String>>,
    extras: Seq<u32>,
    readings: Seq<Reading>,
    resized: Seq<Seq<u8>>,
    b: nat,
)
    requires
        readings.len() == images.len(),
        resized.len() == extras.len(),
        forall|k: int|
            0 <= k < resized.len() ==> (#[trigger] resized[k]).len() == 4 * extras[k] * extras[k],
        forall|j: int|
            0 <= j < images.len() ==> reading_allowed(images[j], files[j], #[trigger] readings[j]),
        images_plan(images, readings, images.len()) is Ok,
        extras_reached(images, extras, resized, extras.len()) <= b,
        forall|k: int| 0 <= k < b ==> #[trigger] resize_fits(images, readings, extras, resized, k),
    ensures
        inputs_fit(images, files, extras, readings, resized),
{
    lemma_images_reached(images, readings, images.len(), images.len());
}

/// Builds the `.ico` file from the images, whose files were read as `files`
/// (their bytes, or the message of a failed read). Each image is decoded
/// once; it becomes an entry, then each extra size becomes an entry resized
/// from its best source image. The outcome is the plan's for some readings
/// the files can give and some resized pixels: the ICO file of the planned
/// entries, or the first image that cannot be read, is larger than 256 x 256
/// or empty, the first size without a source image, an encoder failure, more
/// entries than the writer takes, or a file past 4 GiB.
pub fn assemble_ico(
    images: &[IcoImage],
    files: &[Result<Vec<u8>, String>],
    extra_sizes: &[u32],
) -> (r: Result<Vec<u8>, IcoBuildError>)
    requires
        files@.len() == images@.len(),
        forall|k: int|
            0 <= k < extra_sizes@.len() ==> 1 <= #[trigger] extra_sizes@[k] && extra_sizes@[k]
                * extra_sizes@[k] <= u32::MAX && 4 * extra_sizes@[k] * extra_sizes@[k]
                <= usize::MAX,
    ensures
        exists|readings: Seq<Reading>, resized: Seq<Seq<u8>>|
            #![trigger ico_plan(images@, readings, extra_sizes@, resized)]
            inputs_fit(images@, files@, extra_sizes@, readings, resized) && build_matches(
                r,
                ico_plan(images@, readings, extra_sizes@, resized),
            ),
{
    let n = images.len();
    let m = extra_sizes.len();
    let ghost mut readings: Seq<Reading> = Seq::new(n as nat, |i: int| unread(files@[i]));
    let ghost mut resized: Seq<Seq<u8>> = Seq::new(m as nat, |k: int| unresized(extra_sizes@[k]));
    let mut decoded: Vec<(u32, u32, Vec<u8>)> = Vec::new();
    let mut dir = new_icon_dir();
    let mut total: u64 = 0;
    let mut too_large = false;
    for i in 0..n
        invariant
            n == images@.len(),
            files@.len() == n,
            m == extra_sizes@.len(),
            readings.len() == n,
            resized.len() == m,
            forall|k: int|
                0 <= k < resized.len() ==> (#[trigger] resized[k]).len() == 4 * extra_sizes@[k]
                    * extra_sizes@[k],
            forall|j: int|
                0 <= j < i ==> reading_allowed(images@[j], files@[j], #[trigger] readings[j]),
            forall|j: int| i <= j < n ==> #[trigger] readings[j] == unread(files@[j]),
            decoded@.len() == i,
            forall|j: int|
                0 <= j < i ==> readings[j] == Ok::<(u32, u32, Seq<u8>), String>(
                    (#[trigger] decoded@[j].0, decoded@[j].1, decoded@[j].2@),
                ),
            images_plan(images@, readings, i as nat) is Ok,
            icon_dir_entries(dir) == images_plan(images@, readings, i as nat)->Ok_0,
            icon_dir_holds_icons(dir),
            too_large || total == data_total(icon_dir_entries(dir)),
            too_large ==> data_total(icon_dir_entries(dir)) > 0xffff_ffff,
            total <= 0xffff_ffff,
    {
        let ghost before = images_plan(images@, readings, i as nat)->Ok_0;
        let ghost prev = readings;
        match &files[i] {
            Err(msg) => {
                let e = IcoBuildError::Decode {
                    file_name: images[i].file_name.clone(),
                    message: msg.clone(),
                };
                proof {
                    assert(readings[i as int] == unread(files@[i as int]));
                    lemma_images_err_persists(images@, readings, (i + 1) as nat, n as nat);
                }
                let r = Err(e);
                proof {
                    lemma_fit_after_image_failure(images@, files@, extra_sizes@, readings, resized, i as nat);
                    lemma_witness(images@, files@, extra_sizes@, readings, resized, r);
                }
                return r;
            },
            Ok(bytes) => {
                match decode_rgba(images[i].path.as_str(), bytes.as_slice()) {
                    Err(msg) => {
                        proof {
                            readings = readings.update(i as int, Err(msg));
                            lemma_images_prefix(images@, prev, readings, i as nat);
                            lemma_images_err_persists(images@, readings, (i + 1) as nat, n as nat);
                        }
                        let r = Err(
                            IcoBuildError::Decode {
                                file_name: images[i].file_name.clone(),
                                message: msg,
                            },
                        );
                        proof {
                            lemma_fit_after_image_failure(images@, files@, extra_sizes@, readings, resized, i as nat);
                            lemma_witness(images@, files@, extra_sizes@, readings, resized, r);
                        }
                        return r;
                    },
                    Ok((w, h, px)) => {
                        proof {
                            readings = readings.update(i as int, Ok((w, h, px@)));
                            lemma_images_prefix(images@, prev, readings, i as nat);
                        }
                        if w > 256 || h > 256 || w == 0 || h == 0 {
                            proof {
                                lemma_images_err_persists(images@, readings, (i + 1) as nat, n as nat);
                            }
                            let r = if w > 256 || h > 256 {
                                Err(IcoBuildError::Oversized { file_name: images[i].file_name.clone() })
                            } else {
                                Err(IcoBuildError::Empty { file_name: images[i].file_name.clone() })
                            };
                            proof {
                                lemma_fit_after_image_failure(images@, files@, extra_sizes@, readings, resized, i as nat);
                                lemma_witness(images@, files@, extra_sizes@, readings, resized, r);
                            }
                            return r;
                        }
                        assert(w * h <= 256 * 256) by (nonlinear_arith)
                            requires
                                w <= 256,
                                h <= 256,
                        ;
                        match encode_icon(w, h, px.as_slice()) {
                            Err(e) => {
                                proof {
                                    lemma_images_err_persists(
                                        images@,
                                        readings,
                                        (i + 1) as nat,
                                        n as nat,
                                    );
                                }
                                let r = Err(IcoBuildError::Encode { message: io_error_text(&e) });
                                proof {
                                    lemma_fit_after_image_failure(images@, files@, extra_sizes@, readings, resized, i as nat);
                                    lemma_witness(images@, files@, extra_sizes@, readings, resized, r);
                                }
                                return r;
                            },
                            Ok(entry) => {
                                let len = entry_data_len(&entry);
                                let ghost old_entries = icon_dir_entries(dir);
                                add_icon_entry(&mut dir, entry);
                                assert(icon_dir_entries(dir).drop_last() =~= old_entries);
                                if !too_large {
                                    if (len as u128) + (total as u128) > 0xffff_ffff {
                                        too_large = true;
                                    } else {
                                        total = total + len as u64;
                                    }
                                }
                                decoded.push((w, h, px));
                            },
                        }
                    },
                }
            },
        }
    }
    let ghost from_images = images_plan(images@, readings, n as nat)->Ok_0;
    proof {
        lemma_plan_len(images@, readings, n as nat);
        lemma_images_small(images@, readings, n as nat);
    }
    for k in 0..m
        invariant
            n == images@.len(),
            files@.len() == n,
            m == extra_sizes@.len(),
            forall|kk: int|
                0 <= kk < extra_sizes@.len() ==> 1 <= #[trigger] extra_sizes@[kk]
                    && extra_sizes@[kk] * extra_sizes@[kk] <= u32::MAX && 4 * extra_sizes@[kk]
                    * extra_sizes@[kk] <= usize::MAX,
            readings.len() == n,
            resized.len() == m,
            forall|kk: int|
                0 <= kk < resized.len() ==> (#[trigger] resized[kk]).len() == 4 * extra_sizes@[kk]
                    * extra_sizes@[kk],
            forall|j: int|
                0 <= j < n ==> reading_allowed(images@[j], files@[j], #[trigger] readings[j]),
            forall|kk: int|
                0 <= kk < k ==> #[trigger] resize_fits(images@, readings, extra_sizes@, resized, kk),
            decoded@.len() == n,
            forall|j: int|
                0 <= j < n ==> readings[j] == Ok::<(u32, u32, Seq<u8>), String>(
                    (#[trigger] decoded@[j].0, decoded@[j].1, decoded@[j].2@),
                ),
            forall|j: int|
                0 <= j < n ==> (#[trigger] readings[j] matches Ok((w, h, _px)) && 1 <= w <= 256
                    && 1 <= h <= 256),
            images_plan(images@, readings, n as nat) == Ok::<
                Seq<(u32, u32, Seq<u8>)>,
                PlannedFailure,
            >(from_images),
            from_images.len() == n,
            extras_plan(images@, extra_sizes@, resized, k as nat) is Ok,
            icon_dir_entries(dir) == from_images + extras_plan(
                images@,
                extra_sizes@,
                resized,
                k as nat,
            )->Ok_0,
            icon_dir_holds_icons(dir),
            too_large || total == data_total(icon_dir_entries(dir)),
            too_large ==> data_total(icon_dir_entries(dir)) > 0xffff_ffff,
            total <= 0xffff_ffff,
    {
        let ghost before = extras_plan(images@, extra_sizes@, resized, k as nat)->Ok_0;
        let ghost prev = resized;
        let t = extra_sizes[k];
        match best_source_idx(images, t) {
            None => {
                proof {
                    lemma_extras_err_persists(images@, extra_sizes@, resized, (k + 1) as nat, m as nat);
                }
                let r = Err(IcoBuildError::NoSource { target: t });
                proof {
                    lemma_extras_reached(images@, extra_sizes@, resized, k as nat, k as nat);
                    lemma_extras_reached(images@, extra_sizes@, resized, (k + 1) as nat, m as nat);
                    lemma_fit_extras(images@, files@, extra_sizes@, readings, resized, k as nat);
                    lemma_witness(images@, files@, extra_sizes@, readings, resized, r);
                }
                return r;
            },
            Some(si) => {
                let src = &decoded[si];
                assert(readings[si as int] == Ok::<(u32, u32, Seq<u8>), String>(
                    (decoded@[si as int].0, decoded@[si as int].1, decoded@[si as int].2@),
                ));
                assert(reading_allowed(images@[si as int], files@[si as int], readings[si as int]));
                let sw = src.0;
                let sh = src.1;
                assert(t <= 65535) by (nonlinear_arith)
                    requires
                        t * t <= u32::MAX,
                ;
                assert(16 * sw * t <= 16 * 256 * 65535) by (nonlinear_arith)
                    requires
                        sw <= 256,
                        t <= 65535,
                ;
                let rp = resize_rgba(src.2.as_slice(), sw, sh, t, t);
                proof {
                    resized = resized.update(k as int, rp@);
                    lemma_extras_prefix(images@, extra_sizes@, prev, resized, k as nat);
                    assert forall|kk: int| 0 <= kk < k + 1 implies #[trigger] resize_fits(
                        images@,
                        readings,
                        extra_sizes@,
                        resized,
                        kk,
                    ) by {
                        if kk < k {
                            assert(resized[kk] == prev[kk]);
                            assert(resize_fits(images@, readings, extra_sizes@, prev, kk));
                        }
                    }
                }
                match encode_icon(t, t, rp.as_slice()) {
                    Err(e) => {
                        proof {
                            lemma_extras_err_persists(
                                images@,
                                extra_sizes@,
                                resized,
                                (k + 1) as nat,
                                m as nat,
                            );
                        }
                        let r = Err(IcoBuildError::Encode { message: io_error_text(&e) });
                        proof {
                            lemma_extras_reached(images@, extra_sizes@, resized, (k + 1) as nat, m as nat);
                            lemma_fit_extras(images@, files@, extra_sizes@, readings, resized, (k + 1) as nat);
                            lemma_witness(images@, files@, extra_sizes@, readings, resized, r);
                        }
                        return r;
                    },
                    Ok(entry) => {
                        let len = entry_data_len(&entry);
                        let ghost old_entries = icon_dir_entries(dir);
                        add_icon_entry(&mut dir, entry);
                        let ghost item = (t, t, ico_encoding(t, t, rp@));
                        assert(extras_plan(images@, extra_sizes@, resized, (k + 1) as nat)->Ok_0
                            == before.push(item));
                        assert(from_images + before.push(item) =~= (from_images + before).push(item));
                        assert(icon_dir_entries(dir).drop_last() =~= old_entries);
                        if !too_large {
                            if (len as u128) + (total as u128) > 0xffff_ffff {
                                too_large = true;
                            } else {
                                total = total + len as u64;
                            }
                        }
                    },
                }
            },
        }
    }
    proof {
        lemma_extras_plan_len(images@, extra_sizes@, resized, m as nat);
        lemma_extras_reached(images@, extra_sizes@, resized, m as nat, m as nat);
        lemma_fit_extras(images@, files@, extra_sizes@, readings, resized, m as nat);
    }
    let count: u128 = n as u128 + m as u128;
    if count <= 0xffff && (too_large || 6 + 16 * count + total as u128 > 0xffff_ffff) {
        let r = Err(IcoBuildError::TooLarge);
        proof {
            lemma_witness(images@, files@, extra_sizes@, readings, resized, r);
        }
        return r;
    }
    let r = match write_icon_dir(&dir) {
        Ok(bytes) => Ok(bytes),
        Err(e) => Err(IcoBuildError::Write { message: io_error_text(&e) }),
    };
    proof {
        lemma_witness(images@, files@, extra_sizes@, readings, resized, r);
    }
    r
}

} // verus!

verus! {

proof fn lemma_images_shape(images: Seq<IcoImage>, readings: Seq<Reading>, n: nat)
    requires
        images_plan(images, readings, n) is Ok,
    ensures
        ({
            let es = images_plan(images, readings, n)->Ok_0;
            &&& es.len() == n
            &&& forall|i: int|
                0 <= i < n ==> ((#[trigger] readings[i]) matches Ok((w, h, _px)) && es[i].0 == w
                    && es[i].1 == h && 1 <= w <= 256 && 1 <= h <= 256)
        }),
    decreases n,
{
    if n > 0 {
        lemma_images_shape(images, readings, (n - 1) as nat);
    }
}

proof fn lemma_extras_shape(images: Seq<IcoImage>, extras: Seq<u32>, resized: Seq<Seq<u8>>, m: nat)
    requires
        extras_plan(images, extras, resized, m) is Ok,
    ensures
        ({
            let es = extras_plan(images, extras, resized, m)->Ok_0;
            &&& es.len() == m
            &&& forall|k: int|
                0 <= k < m ==> (#[trigger] es[k]).0 == extras[k] && es[k].1 == extras[k]
        }),
    decreases m,
{
    if m > 0 {
        lemma_extras_shape(images, extras, resized, (m - 1) as nat);
    }
}

/// A built `.ico` has one entry per image, in order and at the image's own
/// size (at least 1 x 1 and at most 256 x 256), followed by one square entry
/// per extra size, in the order the sizes were given.
pub proof fn lemma_plan_shape(
    images: Seq<IcoImage>,
    readings: Seq<Reading>,
    extras: Seq<u32>,
    resized: Seq<Seq<u8>>,
)
    requires
        ico_plan(images, readings, extras, resized) is Ok,
    ensures
        ({
            let es = ico_plan(images, readings, extras, resized)->Ok_0;
            let n = images.len();
            &&& es.len() == n + extras.len()
            &&& forall|i: int|
                0 <= i < n ==> ((#[trigger] readings[i]) matches Ok((w, h, _px)) && es[i].0 == w
                    && es[i].1 == h && 1 <= w <= 256 && 1 <= h <= 256)
            &&& forall|k: int|
                0 <= k < extras.len() ==> es[n + k].0 == #[trigger] extras[k] && es[n + k].1
                    == extras[k]
        }),
{
    let n = images.len();
    lemma_images_shape(images, readings, n);
    lemma_extras_shape(images, extras, resized, extras.len());
    let a = images_plan(images, readings, n)->Ok_0;
    let b = extras_plan(images, extras, resized, extras.len())->Ok_0;
    let es = a + b;
    assert forall|i: int| 0 <= i < n implies ((#[trigger] readings[i]) matches Ok((w, h, _px))
        && es[i].0 == w && es[i].1 == h && 1 <= w <= 256 && 1 <= h <= 256) by {
        assert(es[i] == a[i]);
    }
    assert forall|k: int| 0 <= k < extras.len() implies es[n + k].0 == #[trigger] extras[k]
        && es[n + k].1 == extras[k] by {
        assert(es[n + k] == b[k]);
    }
}

} // verus!
