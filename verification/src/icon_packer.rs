//! The icon packer: the images dropped in, the extra sizes to be made by
//! resizing, the checks that decide whether an `.ico` can be built, and the
//! building itself.

use vstd::prelude::*;
use std::collections::HashSet;
use vstd::std_specs::iter::IteratorSpec;
use crate::text::{ascii_lower, chars_eq, chars_of, decimal, digit_char, push_decimal};

verus! {

/// Width and height of an image, in pixels.
#[derive(Debug, Clone, Copy, PartialEq, Eq, Structural)]
pub struct Resolution {
    pub width: u32,
    pub height: u32,
}

/// The text `WxH` of a resolution.
pub open spec fn resolution_text(r: Resolution) -> Seq<char> {
    decimal(r.width as nat) + seq!['x'] + decimal(r.height as nat)
}

impl Resolution {
    /// The resolution as `WxH`, e.g. `32x32`.
    pub fn to_string(&self) -> (s: String)
        ensures
            s@ == resolution_text(*self),
    {
        let mut s = String::new();
        push_decimal(&mut s, self.width as u64);
        s.push('x');
        push_decimal(&mut s, self.height as u64);
        s
    }

    /// Whether both sides reach `target`, so that a `target` x `target`
    /// entry made from this image is a downscale (or a copy), never an
    /// upscale.
    pub fn covers_size(&self, target: u32) -> (r: bool)
        ensures
            r == covers(*self, target),
    {
        self.width >= target && self.height >= target
    }
}

/// An image dropped into the packer: where it lies, its file name, its
/// resolution and its size on disk in bytes.
#[derive(Debug)]
pub struct IcoImage {
    pub path: String,
    pub file_name: String,
    pub resolution: Resolution,
    pub size: u64,
}

} // verus!

verus! {

impl IcoImage {
    /// An image record; a path without a file name shows as `-`.
    pub fn new(path: String, file_name: Option<String>, resolution: Resolution, size: u64) -> (r:
        IcoImage)
        ensures
            r.path == path,
            r.resolution == resolution,
            r.size == size,
            match file_name {
                Some(n) => r.file_name == n,
                None => r.file_name@ == seq!['-'],
            },
    {
        let file_name = match file_name {
            Some(n) => n,
            None => {
                let mut s = String::new();
                s.push('-');
                s
            },
        };
        IcoImage { path, file_name, resolution, size }
    }

    /// The record of the image at `path` whose file holds `bytes` and takes
    /// `size` bytes on disk: its resolution is the one in the image's header,
    /// read in the format its extension names. `None` when the header cannot
    /// be read.
    pub fn from_bytes(path: String, file_name: Option<String>, bytes: &[u8], size: u64) -> (r:
        Option<IcoImage>)
        ensures
            match image_size_of(path@, bytes@) {
                None => r is None,
                Some((w, h)) => r matches Some(img) && img.path == path && img.resolution
                    == Resolution { width: w, height: h } && img.size == size && match file_name {
                    Some(n) => img.file_name == n,
                    None => img.file_name@ == seq!['-'],
                },
            },
    {
        match image_size(path.as_str(), bytes) {
            None => None,
            Some(resolution) => Some(IcoImage::new(path, file_name, resolution, size)),
        }
    }
}

/// The width and height in the header of an image file holding `bytes`,
/// read in the format that the extension of `path` names, as the `image`
/// crate reads it; `None` when the format is unknown or the header does not
/// parse.
pub uninterp spec fn image_size_of(path: Seq<char>, bytes: Seq<u8>) -> Option<(u32, u32)>;

/// Calls `image::ImageFormat::from_path` and
/// `image::ImageReader::into_dimensions` on `bytes`: the size the header
/// gives, a function of the extension and the bytes.
#[verifier::external_body]
pub fn image_size(path: &str, bytes: &[u8]) -> (r: Option<Resolution>)
    ensures
        match r {
            Some(x) => image_size_of(path@, bytes@) == Some((x.width, x.height)),
            None => image_size_of(path@, bytes@) is None,
        },
{
    let format = image::ImageFormat::from_path(path).ok()?;
    let reader = image::ImageReader::with_format(std::io::Cursor::new(bytes), format);
    let (width, height) = reader.into_dimensions().ok()?;
    Some(Resolution { width, height })
}

/// Two to the power `k`.
pub open spec fn pow2(k: nat) -> nat
    decreases k,
{
    if k == 0 {
        1
    } else {
        2 * pow2((k - 1) as nat)
    }
}

/// The number of binary digits of `n` (zero for zero).
pub open spec fn bit_length(n: nat) -> nat
    decreases n,
{
    if n == 0 {
        0
    } else {
        1 + bit_length(n / 2)
    }
}

/// How many low bits of `n` a conversion to `f64` rounds away: the bits
/// beyond the 53 significant ones.
pub open spec fn f64_shift(n: nat) -> nat {
    if bit_length(n) > 53 {
        (bit_length(n) - 53) as nat
    } else {
        0
    }
}

/// The value of `n as f64`: `n` rounded to 53 significant bits, ties to
/// the even neighbour.
pub open spec fn as_f64_value(n: nat) -> nat {
    let p = pow2(f64_shift(n));
    let m = n / p;
    let rem = n % p;
    if 2 * rem > p || (2 * rem == p && m % 2 == 1) {
        (m + 1) * p
    } else {
        m * p
    }
}

/// Which of `Б`, `КБ`, `МБ`, `ГБ` a size is shown in: the first unit in
/// which the value is below 1024, and gigabytes beyond.
pub open spec fn size_unit_index(f: nat) -> nat {
    if f < 1024 {
        0
    } else if f < 1024 * 1024 {
        1
    } else if f < 1024 * 1024 * 1024 {
        2
    } else {
        3
    }
}

/// The name of unit `k`.
pub open spec fn unit_name(k: nat) -> Seq<char> {
    if k == 0 {
        seq!['Б']
    } else if k == 1 {
        seq!['К', 'Б']
    } else if k == 2 {
        seq!['М', 'Б']
    } else {
        seq!['Г', 'Б']
    }
}

/// `f / 1024^k` in tenths, rounded to the nearest tenth, ties to the even
/// tenth (as `{:.1}` rounds an exact binary value).
pub open spec fn size_tenths(f: nat, k: nat) -> nat {
    let d = pow2(10 * k);
    let q = (10 * f) / d;
    let r = (10 * f) % d;
    if 2 * r > d || (2 * r == d && q % 2 == 1) {
        q + 1
    } else {
        q
    }
}

/// The size text: the size in its unit with one decimal, a space, and the
/// unit, e.g. `1.5 КБ`.
pub open spec fn formatted_size_text(size: nat) -> Seq<char> {
    let f = as_f64_value(size);
    let k = size_unit_index(f);
    let t = size_tenths(f, k);
    decimal(t / 10) + seq!['.', digit_char(t % 10), ' '] + unit_name(k)
}

proof fn lemma_bit_length_bound(n: nat, k: nat)
    requires
        n < pow2(k),
    ensures
        bit_length(n) <= k,
    decreases n,
{
    if n > 0 {
        if k == 0 {
        } else {
            lemma_bit_length_bound(n / 2, (k - 1) as nat);
        }
    }
}

fn bit_length_exec(n: u64) -> (r: u64)
    ensures
        r == bit_length(n as nat),
    decreases n,
{
    if n == 0 {
        0
    } else {
        proof {
            lemma_pow2_64();
            lemma_bit_length_bound(n as nat, 64);
        }
        1 + bit_length_exec(n / 2)
    }
}

fn pow2_exec(k: u64) -> (r: u128)
    requires
        k <= 11,
    ensures
        r == pow2(k as nat),
        r <= 2048,
    decreases k,
{
    if k == 0 {
        1
    } else {
        let p = pow2_exec(k - 1);
        proof {
            lemma_pow2_mono((k - 1) as nat, 10);
            reveal_with_fuel(pow2, 11);
        }
        2 * p
    }
}

proof fn lemma_pow2_64()
    ensures
        pow2(64) == 0x1_0000_0000_0000_0000nat,
{
    reveal_with_fuel(pow2, 65);
}

proof fn lemma_pow2_mono(a: nat, b: nat)
    requires
        a <= b,
    ensures
        pow2(a) <= pow2(b),
    decreases b,
{
    if a < b {
        lemma_pow2_mono(a, (b - 1) as nat);
    }
}

/// `n as f64`, as an exact integer.
fn as_f64_exact(n: u64) -> (f: u128)
    ensures
        f == as_f64_value(n as nat),
        f <= 0x1_0000_0000_0000_0000,
{
    let bl = bit_length_exec(n);
    proof {
        lemma_pow2_64();
        lemma_bit_length_bound(n as nat, 64);
    }
    let s: u64 = if bl > 53 {
        bl - 53
    } else {
        0
    };
    let p = pow2_exec(s);
    proof {
        lemma_pow2_mono(s as nat, 11);
        reveal_with_fuel(pow2, 12);
        assert(pow2(11) == 2048);
        assert(p >= 1) by {
            lemma_pow2_mono(0, s as nat);
        }
    }
    let nn = n as u128;
    let m = nn / p;
    let rem = nn % p;
    proof {
        vstd::arithmetic::div_mod::lemma_fundamental_div_mod(nn as int, p as int);
        assert(nn == p * m + rem);
        assert(m * p == p * m) by (nonlinear_arith);
        assert(m * p <= nn);
        assert((m + 1) * p == m * p + p) by (nonlinear_arith);
    }
    if 2 * rem > p || (2 * rem == p && m % 2 == 1) {
        proof {
            assert(rem < p);
            assert((m + 1) * p <= nn + p);
            if (m + 1) * p > 0x1_0000_0000_0000_0000 {
                // m * p is a multiple of p at most n, so the next multiple
                // cannot pass 2^64, a multiple of p too.
                lemma_pow2_divides_2_64(s as nat);
                let q = 0x1_0000_0000_0000_0000nat / (p as nat);
                assert(q * p == 0x1_0000_0000_0000_0000nat);
                assert(m * p < q * p);
                assert(m < q) by (nonlinear_arith)
                    requires
                        m * p < q * p,
                        p > 0,
                ;
                assert((m + 1) * p <= q * p) by (nonlinear_arith)
                    requires
                        m + 1 <= q,
                        p > 0,
                ;
            }
        }
        (m + 1) * p
    } else {
        m * p
    }
}

proof fn lemma_pow2_divides_2_64(s: nat)
    requires
        s <= 11,
    ensures
        (0x1_0000_0000_0000_0000nat / pow2(s)) * pow2(s) == 0x1_0000_0000_0000_0000nat,
{
    reveal_with_fuel(pow2, 12);
    if s == 0 {
        assert(pow2(0) == 1);
        assert(0x1_0000_0000_0000_0000nat / 1 == 18446744073709551616nat);
        assert(18446744073709551616nat * 1 == 0x1_0000_0000_0000_0000nat);
        assert(pow2(s) == 1);
        assert((0x1_0000_0000_0000_0000nat / pow2(s)) * pow2(s) == 18446744073709551616nat * 1);
    } else if s == 1 {
        assert(pow2(1) == 2);
        assert(0x1_0000_0000_0000_0000nat / 2 == 9223372036854775808nat);
        assert(9223372036854775808nat * 2 == 0x1_0000_0000_0000_0000nat);
        assert(pow2(s) == 2);
        assert((0x1_0000_0000_0000_0000nat / pow2(s)) * pow2(s) == 9223372036854775808nat * 2);
    } else if s == 2 {
        assert(pow2(2) == 4);
        assert(0x1_0000_0000_0000_0000nat / 4 == 4611686018427387904nat);
        assert(4611686018427387904nat * 4 == 0x1_0000_0000_0000_0000nat);
        assert(pow2(s) == 4);
        assert((0x1_0000_0000_0000_0000nat / pow2(s)) * pow2(s) == 4611686018427387904nat * 4);
    } else if s == 3 {
        assert(pow2(3) == 8);
        assert(0x1_0000_0000_0000_0000nat / 8 == 2305843009213693952nat);
        assert(2305843009213693952nat * 8 == 0x1_0000_0000_0000_0000nat);
        assert(pow2(s) == 8);
        assert((0x1_0000_0000_0000_0000nat / pow2(s)) * pow2(s) == 2305843009213693952nat * 8);
    } else if s == 4 {
        assert(pow2(4) == 16);
        assert(0x1_0000_0000_0000_0000nat / 16 == 1152921504606846976nat);
        assert(1152921504606846976nat * 16 == 0x1_0000_0000_0000_0000nat);
        assert(pow2(s) == 16);
        assert((0x1_0000_0000_0000_0000nat / pow2(s)) * pow2(s) == 1152921504606846976nat * 16);
    } else if s == 5 {
        assert(pow2(5) == 32);
        assert(0x1_0000_0000_0000_0000nat / 32 == 576460752303423488nat);
        assert(576460752303423488nat * 32 == 0x1_0000_0000_0000_0000nat);
        assert(pow2(s) == 32);
        assert((0x1_0000_0000_0000_0000nat / pow2(s)) * pow2(s) == 576460752303423488nat * 32);
    } else if s == 6 {
        assert(pow2(6) == 64);
        assert(0x1_0000_0000_0000_0000nat / 64 == 288230376151711744nat);
        assert(288230376151711744nat * 64 == 0x1_0000_0000_0000_0000nat);
        assert(pow2(s) == 64);
        assert((0x1_0000_0000_0000_0000nat / pow2(s)) * pow2(s) == 288230376151711744nat * 64);
    } else if s == 7 {
        assert(pow2(7) == 128);
        assert(0x1_0000_0000_0000_0000nat / 128 == 144115188075855872nat);
        assert(144115188075855872nat * 128 == 0x1_0000_0000_0000_0000nat);
        assert(pow2(s) == 128);
        assert((0x1_0000_0000_0000_0000nat / pow2(s)) * pow2(s) == 144115188075855872nat * 128);
    } else if s == 8 {
        assert(pow2(8) == 256);
        assert(0x1_0000_0000_0000_0000nat / 256 == 72057594037927936nat);
        assert(72057594037927936nat * 256 == 0x1_0000_0000_0000_0000nat);
        assert(pow2(s) == 256);
        assert((0x1_0000_0000_0000_0000nat / pow2(s)) * pow2(s) == 72057594037927936nat * 256);
    } else if s == 9 {
        assert(pow2(9) == 512);
        assert(0x1_0000_0000_0000_0000nat / 512 == 36028797018963968nat);
        assert(36028797018963968nat * 512 == 0x1_0000_0000_0000_0000nat);
        assert(pow2(s) == 512);
        assert((0x1_0000_0000_0000_0000nat / pow2(s)) * pow2(s) == 36028797018963968nat * 512);
    } else if s == 10 {
        assert(pow2(10) == 1024);
        assert(0x1_0000_0000_0000_0000nat / 1024 == 18014398509481984nat);
        assert(18014398509481984nat * 1024 == 0x1_0000_0000_0000_0000nat);
        assert(pow2(s) == 1024);
        assert((0x1_0000_0000_0000_0000nat / pow2(s)) * pow2(s) == 18014398509481984nat * 1024);
    } else {
        assert(pow2(11) == 2048);
        assert(0x1_0000_0000_0000_0000nat / 2048 == 9007199254740992nat);
        assert((0x1_0000_0000_0000_0000nat / pow2(s)) * pow2(s) == 9007199254740992nat * 2048);
    }
}

} // verus!

verus! {

fn push_unit(out: &mut String, k: u64)
    requires
        k <= 3,
    ensures
        final(out)@ == old(out)@ + unit_name(k as nat),
{
    if k == 1 {
        out.push('К');
    } else if k == 2 {
        out.push('М');
    } else if k == 3 {
        out.push('Г');
    }
    out.push('Б');
    assert(out@ =~= old(out)@ + unit_name(k as nat));
}

impl IcoImage {
    /// The size on disk with one decimal in the largest fitting unit, e.g.
    /// `512.0 Б`, `1.5 КБ`, `2.0 ГБ`.
    pub fn formatted_size(&self) -> (r: String)
        ensures
            r@ == formatted_size_text(self.size as nat),
    {
        let f = as_f64_exact(self.size);
        let k: u64 = if f < 1024 {
            0
        } else if f < 1024 * 1024 {
            1
        } else if f < 1024 * 1024 * 1024 {
            2
        } else {
            3
        };
        let d: u128 = if k == 0 {
            1
        } else if k == 1 {
            1024
        } else if k == 2 {
            1024 * 1024
        } else {
            1024 * 1024 * 1024
        };
        proof {
            reveal_with_fuel(pow2, 31);
            assert(pow2(10) == 1024);
            assert(pow2(20) == 1024 * 1024);
            assert(pow2(30) == 1024 * 1024 * 1024);
            assert(d == pow2(10 * (k as nat)));
        }
        let n = f * 10;
        let q = n / d;
        let rem = n % d;
        let t = if 2 * rem > d || (2 * rem == d && q % 2 == 1) {
            q + 1
        } else {
            q
        };
        proof {
            assert(k == size_unit_index(f as nat));
            assert(t == size_tenths(f as nat, k as nat));
            if k == 3 {
                assert(d == 1073741824);
                assert(q <= 171798691840);
            } else if k == 2 {
                assert(d == 1048576);
                assert(q <= n);
            } else if k == 1 {
                assert(d == 1024);
                assert(q <= n);
            } else {
                assert(d == 1);
                assert(q <= n);
            }
            assert(t / 10 <= 0xffff_ffff_ffff_ffff);
        }
        let mut r = String::new();
        push_decimal(&mut r, (t / 10) as u64);
        r.push('.');
        r.push(crate::text::digit((t % 10) as u64));
        r.push(' ');
        push_unit(&mut r, k);
        assert(r@ =~= formatted_size_text(self.size as nat));
        r
    }
}

} // verus!

verus! {

/// How an image row stands with respect to building an `.ico`.
#[derive(Debug, Clone, Copy, PartialEq, Eq, Structural)]
pub enum RowState {
    Valid,
    /// Wider or taller than 256 pixels, the most an `.ico` entry holds.
    Oversized,
    /// Another image has the same resolution.
    DuplicateResolution,
}

/// The resolutions of the images, in order.
pub open spec fn resolutions(images: Seq<IcoImage>) -> Seq<Resolution> {
    images.map_values(|img: IcoImage| img.resolution)
}

/// Wider or taller than 256 pixels.
pub open spec fn is_oversized(r: Resolution) -> bool {
    r.width > 256 || r.height > 256
}

/// Some other image has the resolution of image `i`.
pub open spec fn has_duplicate(rs: Seq<Resolution>, i: int) -> bool {
    exists|j: int| 0 <= j < rs.len() && j != i && rs[j] == rs[i]
}

/// The state of image `i`: oversized first, then duplicated, else fine.
pub open spec fn row_state(rs: Seq<Resolution>, i: int) -> RowState {
    if is_oversized(rs[i]) {
        RowState::Oversized
    } else if has_duplicate(rs, i) {
        RowState::DuplicateResolution
    } else {
        RowState::Valid
    }
}

/// The state of each image, in order.
pub fn row_states(images: &[IcoImage]) -> (states: Vec<RowState>)
    ensures
        states@.len() == images@.len(),
        forall|i: int|
            0 <= i < images@.len() ==> #[trigger] states@[i] == row_state(
                resolutions(images@),
                i,
            ),
{
    let ghost rs = resolutions(images@);
    let n = images.len();
    let mut states: Vec<RowState> = Vec::new();
    for i in 0..n
        invariant
            n == images@.len(),
            rs == resolutions(images@),
            states@.len() == i,
            forall|k: int| 0 <= k < i ==> #[trigger] states@[k] == row_state(rs, k),
    {
        let ri = images[i].resolution;
        assert(ri == rs[i as int]);
        if ri.width > 256 || ri.height > 256 {
            states.push(RowState::Oversized);
        } else {
            let mut dup = false;
            for j in 0..n
                invariant
                    n == images@.len(),
                    rs == resolutions(images@),
                    i < n,
                    ri == rs[i as int],
                    dup == exists|k: int| 0 <= k < j && k != i && rs[k] == rs[i as int],
            {
                let rj = images[j].resolution;
                assert(rj == rs[j as int]);
                if j != i && rj.width == ri.width && rj.height == ri.height {
                    dup = true;
                }
            }
            if dup {
                states.push(RowState::DuplicateResolution);
            } else {
                states.push(RowState::Valid);
            }
        }
    }
    states
}

/// The largest side of a resolution.
pub open spec fn longest_side(r: Resolution) -> u32 {
    if r.width >= r.height {
        r.width
    } else {
        r.height
    }
}

/// Both sides are at least `target`.
pub open spec fn covers(r: Resolution, target: u32) -> bool {
    r.width >= target && r.height >= target
}

/// Some image covers `target`.
pub open spec fn some_covers(rs: Seq<Resolution>, target: u32) -> bool {
    exists|j: int| 0 <= j < rs.len() && covers(rs[j], target)
}

/// Image `i` is the first, among those covering `target`, with the
/// smallest longest side.
pub open spec fn is_best_down(rs: Seq<Resolution>, target: u32, i: int) -> bool {
    &&& 0 <= i < rs.len()
    &&& covers(rs[i], target)
    &&& forall|j: int|
        0 <= j < rs.len() && covers(rs[j], target) ==> longest_side(rs[i]) <= longest_side(
            #[trigger] rs[j],
        )
    &&& forall|j: int|
        0 <= j < i && covers(rs[j], target) ==> longest_side(rs[i]) < longest_side(
            #[trigger] rs[j],
        )
}

/// Image `i` is the last one with the largest longest side.
pub open spec fn is_best_up(rs: Seq<Resolution>, i: int) -> bool {
    &&& 0 <= i < rs.len()
    &&& forall|j: int| 0 <= j < rs.len() ==> longest_side(#[trigger] rs[j]) <= longest_side(rs[i])
    &&& forall|j: int| i < j < rs.len() ==> longest_side(#[trigger] rs[j]) < longest_side(rs[i])
}

/// The image `best_source_idx` picks for `target`.
pub open spec fn best_source(rs: Seq<Resolution>, target: u32) -> Option<int> {
    if rs.len() == 0 {
        None
    } else if some_covers(rs, target) {
        Some(choose|i: int| is_best_down(rs, target, i))
    } else {
        Some(choose|i: int| is_best_up(rs, i))
    }
}

/// At most one image is the best source for a target.
pub proof fn lemma_best_source_unique(rs: Seq<Resolution>, target: u32, i: int)
    requires
        if some_covers(rs, target) {
            is_best_down(rs, target, i)
        } else {
            is_best_up(rs, i)
        },
    ensures
        best_source(rs, target) == Some(i),
{
    if some_covers(rs, target) {
        let j = choose|j: int| is_best_down(rs, target, j);
        assert(is_best_down(rs, target, j));
        if j < i {
            assert(longest_side(rs[i]) < longest_side(rs[j]));
        } else if i < j {
            assert(longest_side(rs[j]) < longest_side(rs[i]));
        }
    } else {
        let j = choose|j: int| is_best_up(rs, j);
        assert(is_best_up(rs, j));
        if j < i {
            assert(longest_side(rs[i]) < longest_side(rs[j]));
        } else if i < j {
            assert(longest_side(rs[j]) < longest_side(rs[i]));
        }
    }
}

/// The image to resize from to make a `target` x `target` entry: the
/// smallest one (by longest side, the first among equals) that covers the
/// target, or else the largest one (the last among equals). `None` when
/// there is no image.
pub fn best_source_idx(images: &[IcoImage], target: u32) -> (r: Option<usize>)
    ensures
        r is None <==> images@.len() == 0,
        r matches Some(i) ==> if some_covers(resolutions(images@), target) {
            is_best_down(resolutions(images@), target, i as int)
        } else {
            is_best_up(resolutions(images@), i as int)
        },
        r matches Some(i) ==> best_source(resolutions(images@), target) == Some(i as int),
        r is None ==> best_source(resolutions(images@), target) is None,
{
    let ghost rs = resolutions(images@);
    let n = images.len();
    if n == 0 {
        return None;
    }
    let mut best_down: Option<usize> = None;
    for i in 0..n
        invariant
            n == images@.len(),
            rs == resolutions(images@),
            match best_down {
                None => forall|j: int| 0 <= j < i ==> !covers(#[trigger] rs[j], target),
                Some(b) => b < i && is_best_down(rs.take(i as int), target, b as int),
            },
    {
        let r = images[i].resolution;
        assert(r == rs[i as int]);
        let side = if r.width >= r.height {
            r.width
        } else {
            r.height
        };
        if r.width >= target && r.height >= target {
            match best_down {
                None => {
                    best_down = Some(i);
                },
                Some(b) => {
                    let rb = images[b].resolution;
                    assert(rb == rs[b as int]);
                    let best_side = if rb.width >= rb.height {
                        rb.width
                    } else {
                        rb.height
                    };
                    if side < best_side {
                        best_down = Some(i);
                    }
                },
            }
        }
        assert(rs.take(i + 1) =~= rs.take(i as int).push(rs[i as int]));
    }
    assert(rs.take(n as int) =~= rs);
    if best_down.is_some() {
        proof {
            let b = best_down.unwrap();
            assert(covers(rs[b as int], target));
            lemma_best_source_unique(rs, target, b as int);
        }
        return best_down;
    }
    let mut best_up: usize = 0;
    for i in 1..n
        invariant
            n == images@.len(),
            n >= 1,
            rs == resolutions(images@),
            forall|j: int| 0 <= j < rs.len() ==> !covers(#[trigger] rs[j], target),
            is_best_up(rs.take(i as int), best_up as int),
    {
        let r = images[i].resolution;
        let rb = images[best_up].resolution;
        assert(r == rs[i as int]);
        assert(rb == rs[best_up as int]);
        let side = if r.width >= r.height {
            r.width
        } else {
            r.height
        };
        let best_side = if rb.width >= rb.height {
            rb.width
        } else {
            rb.height
        };
        if side >= best_side {
            best_up = i;
        }
        assert(rs.take(i + 1) =~= rs.take(i as int).push(rs[i as int]));
    }
    assert(rs.take(n as int) =~= rs);
    proof {
        lemma_best_source_unique(rs, target, best_up as int);
    }
    Some(best_up)
}

} // verus!

verus! {

/// The extensions the packer takes, compared after ASCII lowercasing.
pub open spec fn allowed_extension(e: Seq<char>) -> bool {
    let l = e.map_values(|c: char| ascii_lower(c));
    l == seq!['p', 'n', 'g'] || l == seq!['b', 'm', 'p'] || l == seq!['j', 'p', 'g'] || l == seq![
        'j',
        'p',
        'e',
        'g',
    ]
}

fn ascii_lower_exec(c: char) -> (r: char)
    ensures
        r == ascii_lower(c),
{
    if 'A' <= c && c <= 'Z' {
        let v: u32 = (c as u32) + 32;
        let b: u8 = v as u8;
        b as char
    } else {
        c
    }
}

/// Whether an extension names an image format the packer takes: `png`,
/// `bmp`, `jpg` or `jpeg`, in any ASCII case. No extension is not allowed.
pub fn is_allowed_extension(ext: Option<&str>) -> (r: bool)
    ensures
        r == match ext {
            Some(e) => allowed_extension(e@),
            None => false,
        },
{
    match ext {
        None => false,
        Some(e) => {
            let chars = chars_of(e);
            let mut lower: Vec<char> = Vec::new();
            let n = chars.len();
            for i in 0..n
                invariant
                    n == chars@.len(),
                    chars@ == e@,
                    lower@ == chars@.take(i as int).map_values(|c: char| ascii_lower(c)),
            {
                lower.push(ascii_lower_exec(chars[i]));
                assert(chars@.take(i + 1).map_values(|c: char| ascii_lower(c)) =~= chars@.take(
                    i as int,
                ).map_values(|c: char| ascii_lower(c)).push(ascii_lower(chars@[i as int])));
            }
            assert(chars@.take(n as int) =~= chars@);
            assert(lower@ == e@.map_values(|c: char| ascii_lower(c)));
            let a = &['p', 'n', 'g'];
            let b = &['b', 'm', 'p'];
            let c = &['j', 'p', 'g'];
            let d = &['j', 'p', 'e', 'g'];
            assert(a@ == seq!['p', 'n', 'g']);
            assert(b@ == seq!['b', 'm', 'p']);
            assert(c@ == seq!['j', 'p', 'g']);
            assert(d@ == seq!['j', 'p', 'e', 'g']);
            chars_eq(lower.as_slice(), a) || chars_eq(lower.as_slice(), b) || chars_eq(
                lower.as_slice(),
                c,
            ) || chars_eq(lower.as_slice(), d)
        },
    }
}

/// `e` stands in `p` right after a `.`.
pub open spec fn follows_dot(p: Seq<char>, e: Seq<char>) -> bool {
    exists|i: int|
        1 <= i && i + e.len() <= p.len() && p[i - 1] == '.' && #[trigger] p.subrange(
            i,
            i + e.len(),
        ) == e
}

/// The extension `Path::extension` finds in a path: the part of the path's
/// last component after its last `.`, if that component has one that is not
/// its first character. Which characters separate components is fixed by the
/// platform the program is built for.
pub uninterp spec fn path_extension_of(path: Seq<char>) -> Option<Seq<char>>;

/// The extension of `path`, when it has one the packer takes.
pub open spec fn allowed_path_text(path: Seq<char>) -> bool {
    match path_extension_of(path) {
        Some(e) => allowed_extension(e),
        None => false,
    }
}

/// Calls `Path::extension` on `path`, converted back to text (a path made
/// from text converts back without loss). Claims that the answer is the
/// path's extension, a function of the text for the platform built for, and
/// that an extension is text of `path` following a `.`.
#[verifier::external_body]
fn path_extension(path: &str) -> (r: Option<String>)
    ensures
        match r {
            Some(e) => path_extension_of(path@) == Some(e@) && follows_dot(path@, e@),
            None => path_extension_of(path@) is None,
        },
{
    std::path::Path::new(path).extension().and_then(|e| e.to_str()).map(|e| e.to_owned())
}

/// Whether `a` and `b` are the same path as `std::path::Path` compares
/// them: component by component, so `dir//a.png` and `dir/a.png` are the
/// same. Which texts the platform splits into which components is fixed by
/// the platform the program is built for.
pub uninterp spec fn same_path(a: Seq<char>, b: Seq<char>) -> bool;

/// Calls `==` on two `std::path::Path`s. Claims that the answer is
/// `same_path` of the two texts, and (as `Path` is `Eq`) that a text is the
/// same path as itself.
#[verifier::external_body]
fn paths_equal(a: &str, b: &str) -> (r: bool)
    ensures
        r == same_path(a@, b@),
        a@ == b@ ==> r,
{
    std::path::Path::new(a) == std::path::Path::new(b)
}

/// Whether the file at `path` has an extension the packer takes.
pub fn is_allowed(path: &str) -> (r: bool)
    ensures
        r == allowed_path_text(path@),
{
    let ext = path_extension(path);
    match ext {
        Some(e) => is_allowed_extension(Some(e.as_str())),
        None => is_allowed_extension(None),
    }
}

} // verus!

verus! {

/// What `best_source_idx` answers for `target`.
pub open spec fn is_best_source(rs: Seq<Resolution>, target: u32, r: Option<usize>) -> bool {
    &&& (r is None <==> rs.len() == 0)
    &&& r matches Some(i) ==> if some_covers(rs, target) {
        is_best_down(rs, target, i as int)
    } else {
        is_best_up(rs, i as int)
    }
}

/// The sizes of the square images.
pub open spec fn present_sizes(images: Seq<IcoImage>) -> Set<u32> {
    Set::new(
        |s: u32|
            exists|i: int|
                0 <= i < images.len() && images[i].resolution.width == s
                    && #[trigger] images[i].resolution.height == s,
    )
}

/// The sizes offered as extra entries, in this order.
pub open spec fn standard_sizes() -> Seq<u32> {
    seq![16, 24, 32, 48, 64, 128, 256]
}

/// Strictly increasing.
pub open spec fn strictly_increasing(s: Seq<u32>) -> bool {
    forall|i: int, j: int| 0 <= i < j < s.len() ==> s[i] < s[j]
}

/// The images dropped into the packer and the extra square sizes to make by
/// resizing.
pub struct IconPacker {
    images: Vec<IcoImage>,
    extra_sizes: HashSet<u32>,
}

/// Where `size` goes in the ascending `v`: after every smaller size.
fn sorted_position(v: &Vec<u32>, size: u32) -> (r: usize)
    requires
        strictly_increasing(v@),
    ensures
        r <= v@.len(),
        forall|i: int| 0 <= i < r ==> v@[i] < size,
        forall|i: int| r <= i < v@.len() ==> size <= v@[i],
{
    let n = v.len();
    let mut i: usize = 0;
    while i < n && v[i] < size
        invariant
            n == v@.len(),
            i <= n,
            strictly_increasing(v@),
            forall|k: int| 0 <= k < i ==> v@[k] < size,
        decreases n - i,
    {
        i = i + 1;
    }
    i
}

/// Puts `size`, which the ascending `v` does not hold, in its place.
fn insert_sorted(v: &mut Vec<u32>, size: u32)
    requires
        strictly_increasing(old(v)@),
        !old(v)@.contains(size),
    ensures
        strictly_increasing(final(v)@),
        final(v)@.to_set() == old(v)@.to_set().insert(size),
{
    let pos = sorted_position(v, size);
    let ghost before = v@;
    proof {
        if pos < before.len() {
            assert(before[pos as int] != size);
        }
    }
    v.insert(pos, size);
    assert(v@ =~= before.take(pos as int).push(size) + before.skip(pos as int));
    assert(strictly_increasing(v@)) by {
        assert forall|i: int, j: int| 0 <= i < j < v@.len() implies v@[i] < v@[j] by {
            if j < pos {
            } else if j == pos {
            } else if i < pos {
                assert(v@[j] == before[j - 1]);
            } else if i == pos {
                assert(v@[j] == before[j - 1]);
            } else {
                assert(v@[j] == before[j - 1]);
                assert(v@[i] == before[i - 1]);
            }
        }
    }
    assert(v@.to_set() =~= before.to_set().insert(size)) by {
        assert forall|x: u32| v@.contains(x) <==> before.to_set().insert(size).contains(x) by {
            if v@.contains(x) {
                let k = choose|k: int| 0 <= k < v@.len() && v@[k] == x;
                if k < pos {
                    assert(before[k] == x);
                } else if k > pos {
                    assert(before[k - 1] == x);
                }
            }
            if before.contains(x) {
                let k = choose|k: int| 0 <= k < before.len() && before[k] == x;
                if k < pos {
                    assert(v@[k] == x);
                } else {
                    assert(v@[k + 1] == x);
                }
            }
            if x == size {
                assert(v@[pos as int] == x);
            }
        }
    }
}

impl IconPacker {
    /// The images, in the order they came.
    pub closed spec fn image_seq(&self) -> Seq<IcoImage> {
        self.images@
    }

    /// The extra sizes asked for.
    pub closed spec fn extras(&self) -> Set<u32> {
        self.extra_sizes@
    }

    /// No image, no extra size.
    pub fn new() -> (p: IconPacker)
        ensures
            p.image_seq() == Seq::<IcoImage>::empty(),
            p.extras() == Set::<u32>::empty(),
    {
        IconPacker { images: Vec::new(), extra_sizes: HashSet::new() }
    }

    /// The images, in the order they came.
    pub fn images(&self) -> (r: &[IcoImage])
        ensures
            r@ == self.image_seq(),
    {
        self.images.as_slice()
    }

    /// Asks for an extra entry of `size` x `size`.
    pub fn add_extra_size(&mut self, size: u32)
        ensures
            final(self).extras() == old(self).extras().insert(size),
            final(self).image_seq() == old(self).image_seq(),
    {
        broadcast use vstd::std_specs::hash::group_hash_axioms;

        self.extra_sizes.insert(size);
    }

    /// Drops the extra entry of `size` x `size`, if asked for.
    pub fn remove_extra_size(&mut self, size: u32)
        ensures
            final(self).extras() == old(self).extras().remove(size),
            final(self).image_seq() == old(self).image_seq(),
    {
        broadcast use vstd::std_specs::hash::group_hash_axioms;

        self.extra_sizes.remove(&size);
    }

    /// Adds a dropped image; a square one also drops the extra entry of its
    /// size, which the image now provides.
    pub fn add_image(&mut self, img: IcoImage)
        ensures
            final(self).image_seq() == old(self).image_seq().push(img),
            final(self).extras() == if img.resolution.width == img.resolution.height {
                old(self).extras().remove(img.resolution.width)
            } else {
                old(self).extras()
            },
    {
        if img.resolution.width == img.resolution.height {
            self.remove_extra_size(img.resolution.width);
        }
        self.images.push(img);
    }

    /// Removes image `i`.
    pub fn remove_image(&mut self, i: usize)
        requires
            i < old(self).image_seq().len(),
        ensures
            final(self).image_seq() == old(self).image_seq().remove(i as int),
            final(self).extras() == old(self).extras(),
    {
        self.images.remove(i);
    }
}

} // verus!

verus! {

/// Whether image `i` of `images` is square with side `s`.
fn square_of_size(images: &[IcoImage], s: u32) -> (r: bool)
    ensures
        r == present_sizes(images@).contains(s),
{
    let n = images.len();
    for i in 0..n
        invariant
            n == images@.len(),
            forall|k: int|
                0 <= k < i ==> !(images@[k].resolution.width == s
                    && #[trigger] images@[k].resolution.height == s),
    {
        if images[i].resolution.width == s && images[i].resolution.height == s {
            assert(images@[i as int].resolution.height == s);
            return true;
        }
    }
    false
}

impl IconPacker {
    /// The extra sizes not already given by a square image, ascending.
    pub fn sorted_extra(&self) -> (r: Vec<u32>)
        ensures
            strictly_increasing(r@),
            r@.to_set() == self.extras().difference(present_sizes(self.image_seq())),
    {
        broadcast use vstd::std_specs::hash::group_hash_axioms;

        let ghost present = present_sizes(self.image_seq());
        let mut r: Vec<u32> = Vec::new();
        let keys = self.extra_sizes.iter();
        let ghost walk = keys.remaining().unref();
        assert(r@.to_set() =~= walk.take(0).to_set().difference(present));
        for s in it: keys
            invariant
                it.seq().unref() == walk,
                walk.to_set() == self.extras(),
                walk.no_duplicates(),
                present == present_sizes(self.images@),
                strictly_increasing(r@),
                r@.to_set() == walk.take(it.index() as int).to_set().difference(present),
        {
            let x = *s;
            let ghost i = it.index();
            let ghost before = r@;
            assert(walk[i as int] == x);
            assert(walk.take(i + 1) =~= walk.take(i as int).push(x));
            assert(!walk.take(i as int).contains(x)) by {
                if walk.take(i as int).contains(x) {
                    let m = choose|m: int| 0 <= m < i && #[trigger] walk.take(i as int)[m] == x;
                    assert(walk[m] == walk[i as int]);
                }
            }
            if !square_of_size(self.images.as_slice(), x) {
                assert(!before.contains(x)) by {
                    if before.contains(x) {
                        assert(before.to_set().contains(x));
                    }
                }
                insert_sorted(&mut r, x);
            }
            assert(walk.take(i + 1).to_set() =~= walk.take(i as int).to_set().insert(x)) by {
                assert forall|y: u32| walk.take(i + 1).contains(y) <==> (walk.take(
                    i as int,
                ).contains(y) || y == x) by {
                    if walk.take(i + 1).contains(y) {
                        let m = choose|m: int| 0 <= m < i + 1 && #[trigger] walk.take(i + 1)[m] == y;
                        if m < i {
                            assert(walk.take(i as int)[m] == y);
                        }
                    }
                    if walk.take(i as int).contains(y) {
                        let m = choose|m: int| 0 <= m < i && #[trigger] walk.take(i as int)[m] == y;
                        assert(walk.take(i + 1)[m] == y);
                    }
                    if y == x {
                        assert(walk.take(i + 1)[i as int] == y);
                    }
                }
            }
            assert(r@.to_set() =~= walk.take(i + 1).to_set().difference(present));
        }
        assert(walk.take(walk.len() as int) =~= walk);
        r
    }
}

} // verus!

verus! {

/// The standard sizes, in order.
pub fn standard_sizes_exec() -> (r: Vec<u32>)
    ensures
        r@ == standard_sizes(),
{
    let r = vec![16u32, 24, 32, 48, 64, 128, 256];
    assert(r@ =~= standard_sizes());
    r
}

/// The standard sizes neither given by a square image nor already asked
/// for, in the standard order.
pub open spec fn addable_sizes(images: Seq<IcoImage>, extras: Set<u32>) -> Seq<u32> {
    standard_sizes().filter(|s: u32| !present_sizes(images).contains(s) && !extras.contains(s))
}

impl IconPacker {
    /// Whether a file dropped at `path` is taken: its extension is one the
    /// packer takes and no image in the list has the same path.
    pub fn accepts_drop(&self, path: &str) -> (r: bool)
        ensures
            r == (allowed_path_text(path@) && forall|i: int|
                0 <= i < self.image_seq().len() ==> !same_path(
                    (#[trigger] self.image_seq()[i]).path@,
                    path@,
                )),
    {
        if !is_allowed(path) {
            return false;
        }
        let n = self.images.len();
        for i in 0..n
            invariant
                n == self.images@.len(),
                forall|j: int| 0 <= j < i ==> !same_path((#[trigger] self.images@[j]).path@, path@),
        {
            if paths_equal(self.images[i].path.as_str(), path) {
                assert(same_path(self.image_seq()[i as int].path@, path@));
                return false;
            }
        }
        true
    }

    /// Whether `size` is asked for as an extra entry.
    pub fn has_extra_size(&self, size: u32) -> (r: bool)
        ensures
            r == self.extras().contains(size),
    {
        broadcast use vstd::std_specs::hash::group_hash_axioms;

        self.extra_sizes.contains(&size)
    }

    /// Each extra size not given by a square image, ascending, with the
    /// image it would be resized from.
    pub fn auto_entries(&self) -> (r: Vec<(u32, Option<usize>)>)
        ensures
            strictly_increasing(r@.map_values(|e: (u32, Option<usize>)| e.0)),
            r@.map_values(|e: (u32, Option<usize>)| e.0).to_set() == self.extras().difference(
                present_sizes(self.image_seq()),
            ),
            forall|k: int|
                0 <= k < r@.len() ==> is_best_source(
                    resolutions(self.image_seq()),
                    #[trigger] r@[k].0,
                    r@[k].1,
                ),
    {
        let sizes = self.sorted_extra();
        let mut r: Vec<(u32, Option<usize>)> = Vec::new();
        let n = sizes.len();
        for i in 0..n
            invariant
                n == sizes@.len(),
                r@.map_values(|e: (u32, Option<usize>)| e.0) == sizes@.take(i as int),
                forall|k: int|
                    0 <= k < r@.len() ==> is_best_source(
                        resolutions(self.image_seq()),
                        #[trigger] r@[k].0,
                        r@[k].1,
                    ),
        {
            let s = sizes[i];
            let src = best_source_idx(self.images.as_slice(), s);
            let ghost before = r@;
            r.push((s, src));
            assert(sizes@.take(i + 1) =~= sizes@.take(i as int).push(s));
            assert(r@ =~= before.push((s, src)));
            assert(r@.map_values(|e: (u32, Option<usize>)| e.0) =~= before.map_values(
                |e: (u32, Option<usize>)| e.0,
            ).push(s));
        }
        assert(sizes@.take(n as int) =~= sizes@);
        r
    }

    /// The standard sizes that can still be asked for.
    pub fn available_to_add(&self) -> (r: Vec<u32>)
        ensures
            r@ == addable_sizes(self.image_seq(), self.extras()),
    {
        let std_sizes = standard_sizes_exec();
        let mut r: Vec<u32> = Vec::new();
        let n = std_sizes.len();
        let ghost pred = |s: u32|
            !present_sizes(self.image_seq()).contains(s) && !self.extras().contains(s);
        for i in 0..n
            invariant
                n == std_sizes@.len(),
                std_sizes@ == standard_sizes(),
                pred == (|s: u32|
                    !present_sizes(self.image_seq()).contains(s) && !self.extras().contains(s)),
                r@ == std_sizes@.take(i as int).filter(pred),
        {
            let s = std_sizes[i];
            reveal_with_fuel(Seq::filter, 1);
            assert(std_sizes@.take(i + 1).drop_last() =~= std_sizes@.take(i as int));
            if !square_of_size(self.images.as_slice(), s) && !self.has_extra_size(s) {
                r.push(s);
            }
        }
        assert(std_sizes@.take(n as int) =~= std_sizes@);
        r
    }

    /// Whether an `.ico` can be built: there is an image and every row is
    /// fine.
    pub fn can_build(&self) -> (r: bool)
        ensures
            r == (self.image_seq().len() > 0 && forall|i: int|
                0 <= i < self.image_seq().len() ==> row_state(resolutions(self.image_seq()), i)
                    == RowState::Valid),
    {
        let states = row_states(self.images.as_slice());
        if self.images.len() == 0 {
            return false;
        }
        let n = states.len();
        for i in 0..n
            invariant
                n == states@.len(),
                n == self.images@.len(),
                forall|k: int|
                    0 <= k < self.images@.len() ==> #[trigger] states@[k] == row_state(
                        resolutions(self.images@),
                        k,
                    ),
                forall|k: int| 0 <= k < i ==> states@[k] == RowState::Valid,
        {
            if states[i] != RowState::Valid {
                return false;
            }
        }
        assert forall|i: int| 0 <= i < self.image_seq().len() implies row_state(
            resolutions(self.image_seq()),
            i,
        ) == RowState::Valid by {
            assert(states@[i] == RowState::Valid);
        }
        true
    }
}

impl RowState {
    /// The hint shown over a row's resolution.
    pub fn tooltip(&self) -> (r: &'static str)
        ensures
            r@ == match self {
                RowState::Oversized => "Превышает максимальный размер 256x256"@,
                RowState::DuplicateResolution => "Дублирующееся разрешение"@,
                RowState::Valid => ""@,
            },
    {
        match self {
            RowState::Oversized => "Превышает максимальный размер 256x256",
            RowState::DuplicateResolution => "Дублирующееся разрешение",
            RowState::Valid => "",
        }
    }
}

/// The warning shown under the table, from which problems the rows have.
pub open spec fn problem_message(has_oversized: bool, has_duplicates: bool) -> Seq<char> {
    if has_oversized && has_duplicates {
        "Есть файлы больше 256×256 и дублирующиеся разрешения"@
    } else if has_oversized {
        "Есть файлы больше 256×256"@
    } else if has_duplicates {
        "Есть файлы с одинаковым разрешением"@
    } else {
        ""@
    }
}

/// The warning for a table whose rows have `states`: which of oversized
/// and duplicated rows occur.
pub fn problem_text(states: &[RowState]) -> (r: &'static str)
    ensures
        r@ == problem_message(
            states@.contains(RowState::Oversized),
            states@.contains(RowState::DuplicateResolution),
        ),
{
    let mut has_oversized = false;
    let mut has_duplicates = false;
    let n = states.len();
    for i in 0..n
        invariant
            n == states@.len(),
            has_oversized == exists|k: int| 0 <= k < i && states@[k] == RowState::Oversized,
            has_duplicates == exists|k: int|
                0 <= k < i && states@[k] == RowState::DuplicateResolution,
    {
        if states[i] == RowState::Oversized {
            has_oversized = true;
        }
        if states[i] == RowState::DuplicateResolution {
            has_duplicates = true;
        }
    }
    if has_oversized && has_duplicates {
        "Есть файлы больше 256×256 и дублирующиеся разрешения"
    } else if has_oversized {
        "Есть файлы больше 256×256"
    } else if has_duplicates {
        "Есть файлы с одинаковым разрешением"
    } else {
        ""
    }
}

} // verus!

verus! {

/// Duplicated resolutions come in groups: a row marked duplicated has a
/// partner row, with the same resolution, marked duplicated too.
pub proof fn lemma_duplicates_pair(rs: Seq<Resolution>, i: int)
    requires
        0 <= i < rs.len(),
        row_state(rs, i) == RowState::DuplicateResolution,
    ensures
        exists|j: int|
            0 <= j < rs.len() && j != i && rs[j] == rs[i] && row_state(rs, j)
                == RowState::DuplicateResolution,
{
    let j = choose|j: int| 0 <= j < rs.len() && j != i && rs[j] == rs[i];
    assert(has_duplicate(rs, j));
    assert(row_state(rs, j) == RowState::DuplicateResolution);
}

/// An `.ico` can be built exactly when there is an image and the warning
/// under the table is empty.
pub proof fn lemma_can_build_iff_no_warning(images: Seq<IcoImage>, states: Seq<RowState>)
    requires
        states.len() == images.len(),
        forall|i: int| 0 <= i < images.len() ==> #[trigger] states[i] == row_state(resolutions(images), i),
    ensures
        (images.len() > 0 && forall|i: int|
            0 <= i < images.len() ==> row_state(resolutions(images), i) == RowState::Valid) <==> (
        images.len() > 0 && problem_message(
            states.contains(RowState::Oversized),
            states.contains(RowState::DuplicateResolution),
        ).len() == 0),
{
    reveal_strlit("Есть файлы больше 256×256 и дублирующиеся разрешения");
    reveal_strlit("Есть файлы больше 256×256");
    reveal_strlit("Есть файлы с одинаковым разрешением");
    reveal_strlit("");
    if states.contains(RowState::Oversized) {
        let k = choose|k: int| 0 <= k < states.len() && states[k] == RowState::Oversized;
        assert(row_state(resolutions(images), k) != RowState::Valid);
    }
    if states.contains(RowState::DuplicateResolution) {
        let k = choose|k: int| 0 <= k < states.len() && states[k] == RowState::DuplicateResolution;
        assert(row_state(resolutions(images), k) != RowState::Valid);
    }
    if !states.contains(RowState::Oversized) && !states.contains(RowState::DuplicateResolution) {
        assert forall|i: int| 0 <= i < images.len() implies row_state(resolutions(images), i)
            == RowState::Valid by {
            assert(states[i] != RowState::Oversized);
            assert(states[i] != RowState::DuplicateResolution);
        }
    }
}

/// Asking for an extra size and dropping it again leaves the extra sizes as
/// they were, when the size was not asked for before.
pub proof fn lemma_extra_size_round_trip(a: IconPacker, b: IconPacker, c: IconPacker, size: u32)
    requires
        !a.extras().contains(size),
        b.extras() == a.extras().insert(size),
        c.extras() == b.extras().remove(size),
    ensures
        c.extras() == a.extras(),
{
    assert(c.extras() =~= a.extras());
}

/// Sizes below 1024 bytes are shown exactly, as `N.0 Б`.
pub proof fn lemma_small_sizes_exact(size: nat)
    requires
        size < 1024,
    ensures
        formatted_size_text(size) == decimal(size) + seq!['.', '0', ' ', 'Б'],
{
    assert(pow2(11) == 2048) by {
        reveal_with_fuel(pow2, 12);
    }
    lemma_pow2_mono(11, 53);
    lemma_bit_length_bound(size, 53);
    assert(f64_shift(size) == 0);
    assert(pow2(0) == 1);
    assert(size / 1 == size);
    assert(size % 1 == 0);
    assert(as_f64_value(size) == size);
    assert(pow2(10 * 0) == 1);
    assert((10 * size) / 1 == 10 * size);
    assert((10 * size) % 1 == 0);
    assert(size_tenths(size, 0) == 10 * size);
    assert((10 * size) / 10 == size);
    assert((10 * size) % 10 == 0);
    assert(digit_char(0) == '0');
}

} // verus!

verus! {

/// How the files dragged over the window look to the packer.
#[derive(Debug, Clone, Copy, PartialEq, Eq, Structural)]
pub enum HoverState {
    /// Nothing is dragged over the window.
    NoFiles,
    /// Every dragged file has a path with an extension the packer takes.
    Valid,
    /// Some dragged file has no path or another extension.
    Invalid,
}

/// A dragged file has a path whose extension the packer takes.
pub open spec fn allowed_path(p: Option<String>) -> bool {
    match p {
        Some(p) => allowed_path_text(p@),
        None => false,
    }
}

/// The state of the files dragged over the window, given their paths.
pub fn hover_state(paths: &[Option<String>]) -> (r: HoverState)
    ensures
        r == if paths@.len() == 0 {
            HoverState::NoFiles
        } else if forall|i: int| 0 <= i < paths@.len() ==> allowed_path(#[trigger] paths@[i]) {
            HoverState::Valid
        } else {
            HoverState::Invalid
        },
{
    let n = paths.len();
    if n == 0 {
        return HoverState::NoFiles;
    }
    for i in 0..n
        invariant
            n == paths@.len(),
            forall|k: int| 0 <= k < i ==> allowed_path(#[trigger] paths@[k]),
    {
        match &paths[i] {
            None => {
                return HoverState::Invalid;
            },
            Some(p) => {
                if !is_allowed(p.as_str()) {
                    return HoverState::Invalid;
                }
            },
        }
    }
    HoverState::Valid
}

} // verus!

verus! {

/// An image wider or taller than 256 pixels is marked oversized, whatever
/// the other rows hold, and a row within 256 x 256 never is; so a packer
/// holding such an image cannot build.
pub proof fn lemma_oversized_rows(images: Seq<IcoImage>)
    ensures
        forall|i: int|
            0 <= i < images.len() ==> ((images[i].resolution.width > 256
                || images[i].resolution.height > 256) <==> #[trigger] row_state(
                resolutions(images),
                i,
            ) == RowState::Oversized),
        (exists|i: int|
            0 <= i < images.len() && (images[i].resolution.width > 256
                || images[i].resolution.height > 256)) ==> !(forall|i: int|
            0 <= i < images.len() ==> #[trigger] row_state(resolutions(images), i)
                == RowState::Valid),
{
    assert forall|i: int| 0 <= i < images.len() implies ((images[i].resolution.width > 256
        || images[i].resolution.height > 256) <==> #[trigger] row_state(resolutions(images), i)
        == RowState::Oversized) by {
        assert(resolutions(images)[i] == images[i].resolution);
    }
    if exists|i: int|
        0 <= i < images.len() && (images[i].resolution.width > 256
            || images[i].resolution.height > 256) {
        let i = choose|i: int|
            0 <= i < images.len() && (images[i].resolution.width > 256
                || images[i].resolution.height > 256);
        assert(resolutions(images)[i] == images[i].resolution);
        assert(row_state(resolutions(images), i) == RowState::Oversized);
    }
}

/// An index of the first `n` resolutions that covers `t` with the shortest
/// longest side, the first such.
proof fn best_down_index(rs: Seq<Resolution>, t: u32, n: int) -> (i: int)
    requires
        0 < n <= rs.len(),
        exists|j: int| 0 <= j < n && covers(rs[j], t),
    ensures
        0 <= i < n,
        covers(rs[i], t),
        forall|j: int| 0 <= j < n && covers(rs[j], t) ==> longest_side(rs[i]) <= longest_side(
            #[trigger] rs[j],
        ),
        forall|j: int| 0 <= j < i && covers(rs[j], t) ==> longest_side(rs[i]) < longest_side(
            #[trigger] rs[j],
        ),
    decreases n,
{
    let k = n - 1;
    if exists|j: int| 0 <= j < k && covers(rs[j], t) {
        let i0 = best_down_index(rs, t, k);
        if covers(rs[k], t) && longest_side(rs[k]) < longest_side(rs[i0]) {
            k
        } else {
            i0
        }
    } else {
        k
    }
}

/// An index of the first `n` resolutions with the longest longest side, the
/// last such.
proof fn best_up_index(rs: Seq<Resolution>, n: int) -> (i: int)
    requires
        0 < n <= rs.len(),
    ensures
        0 <= i < n,
        forall|j: int| 0 <= j < n ==> longest_side(#[trigger] rs[j]) <= longest_side(rs[i]),
        forall|j: int| i < j < n ==> longest_side(#[trigger] rs[j]) < longest_side(rs[i]),
    decreases n,
{
    if n == 1 {
        0
    } else {
        let i0 = best_up_index(rs, n - 1);
        if longest_side(rs[n - 1]) >= longest_side(rs[i0]) {
            n - 1
        } else {
            i0
        }
    }
}

/// The source chosen for an extra size `t`: when some image has both sides
/// at least `t`, the chosen one has both sides at least `t` (a downscale,
/// never a stretch) and no covering image has a shorter longest side; when
/// none does, the chosen one has the longest longest side of all.
pub proof fn lemma_source_covers_when_possible(rs: Seq<Resolution>, t: u32)
    requires
        rs.len() > 0,
    ensures
        best_source(rs, t) is Some,
        0 <= best_source(rs, t)->0 < rs.len(),
        (exists|j: int| 0 <= j < rs.len() && rs[j].width >= t && rs[j].height >= t) ==> {
            let i = best_source(rs, t)->0;
            &&& rs[i].width >= t
            &&& rs[i].height >= t
            &&& forall|j: int|
                0 <= j < rs.len() && rs[j].width >= t && rs[j].height >= t ==> longest_side(
                    rs[i],
                ) <= longest_side(#[trigger] rs[j])
        },
        !(exists|j: int| 0 <= j < rs.len() && rs[j].width >= t && rs[j].height >= t) ==> forall|
            j: int,
        |
            0 <= j < rs.len() ==> longest_side(#[trigger] rs[j]) <= longest_side(
                rs[best_source(rs, t)->0],
            ),
{
    if exists|j: int| 0 <= j < rs.len() && rs[j].width >= t && rs[j].height >= t {
        let j = choose|j: int| 0 <= j < rs.len() && rs[j].width >= t && rs[j].height >= t;
        assert(covers(rs[j], t));
        assert(some_covers(rs, t));
        let i = best_down_index(rs, t, rs.len() as int);
        assert(is_best_down(rs, t, i));
    } else {
        assert(!some_covers(rs, t)) by {
            if some_covers(rs, t) {
                let j = choose|j: int| 0 <= j < rs.len() && covers(rs[j], t);
                assert(rs[j].width >= t && rs[j].height >= t);
            }
        }
        let i = best_up_index(rs, rs.len() as int);
        assert(is_best_up(rs, i));
    }
}

/// The sizes offered to add are the standard icon sizes 16, 24, 32, 48, 64,
/// 128 and 256, in that order, less those a square image gives and those
/// already asked for.
pub proof fn lemma_offered_sizes(images: Seq<IcoImage>, extras: Set<u32>)
    ensures
        addable_sizes(images, extras) == seq![16u32, 24, 32, 48, 64, 128, 256].filter(
            |s: u32| !present_sizes(images).contains(s) && !extras.contains(s),
        ),
{
}

/// Case does not matter for the extensions the packer takes: an extension
/// is taken exactly when its ASCII-lowered form is, and `png`, `bmp`, `jpg`
/// and `jpeg` are taken in lower and in upper case.
pub proof fn lemma_extension_case_ignored(e: Seq<char>)
    ensures
        allowed_extension(e) == allowed_extension(e.map_values(|c: char| ascii_lower(c))),
        allowed_extension(seq!['p', 'n', 'g']),
        allowed_extension(seq!['b', 'm', 'p']),
        allowed_extension(seq!['j', 'p', 'g']),
        allowed_extension(seq!['j', 'p', 'e', 'g']),
        allowed_extension(seq!['P', 'N', 'G']),
        allowed_extension(seq!['B', 'M', 'P']),
        allowed_extension(seq!['J', 'P', 'G']),
        allowed_extension(seq!['J', 'P', 'E', 'G']),
{
    let l = e.map_values(|c: char| ascii_lower(c));
    let ll = l.map_values(|c: char| ascii_lower(c));
    assert(ll =~= l) by {
        assert forall|i: int| 0 <= i < l.len() implies #[trigger] ll[i] == l[i] by {
            crate::text::lemma_lower_char(e[i]);
        }
    }
    assert(seq!['p', 'n', 'g'].map_values(|c: char| ascii_lower(c)) =~= seq!['p', 'n', 'g']);
    assert(seq!['b', 'm', 'p'].map_values(|c: char| ascii_lower(c)) =~= seq!['b', 'm', 'p']);
    assert(seq!['j', 'p', 'g'].map_values(|c: char| ascii_lower(c)) =~= seq!['j', 'p', 'g']);
    assert(seq!['j', 'p', 'e', 'g'].map_values(|c: char| ascii_lower(c)) =~= seq![
        'j',
        'p',
        'e',
        'g',
    ]);
    assert(seq!['P', 'N', 'G'].map_values(|c: char| ascii_lower(c)) =~= seq!['p', 'n', 'g']);
    assert(seq!['B', 'M', 'P'].map_values(|c: char| ascii_lower(c)) =~= seq!['b', 'm', 'p']);
    assert(seq!['J', 'P', 'G'].map_values(|c: char| ascii_lower(c)) =~= seq!['j', 'p', 'g']);
    assert(seq!['J', 'P', 'E', 'G'].map_values(|c: char| ascii_lower(c)) =~= seq![
        'j',
        'p',
        'e',
        'g',
    ]);
}

} // verus!
