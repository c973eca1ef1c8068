//! The bitmap font loader: a PSF2 resource of 8-pixel-wide glyphs to one
//! byte per pixel.
use vstd::prelude::*;

use byteorder::ByteOrder;

verus! {

/// The value of the four bytes of `b` at `i`, least significant first.
pub open spec fn le_u32_at(b: Seq<u8>, i: int) -> nat {
    b[i] as nat + 256 * b[i + 1] as nat + 65536 * b[i + 2] as nat + 16777216 * b[i + 3] as nat
}

/// The signature that a PSF2 resource starts with.
pub open spec fn psf2_magic() -> Seq<u8> {
    seq![0x72u8, 0xb5u8, 0x4au8, 0x86u8]
}

/// Length of the fixed header: the signature and seven 32-bit fields.
pub const HEADER_LEN: usize = 32;

/// The only glyph width this engine draws.
pub const GLYPH_WIDTH: u32 = 8;

/// Pixel `i` (from the left) of a glyph row: lit where bit `7 - i` is set.
pub open spec fn bit_pixel(b: u8, i: int) -> u8 {
    if (b >> ((7 - i) as u8)) & 1u8 == 1u8 {
        255
    } else {
        0
    }
}

/// Each bit of `bytes`, most significant first, as a byte of 0 or 255.
pub open spec fn unpack_bits(bytes: Seq<u8>) -> Seq<u8> {
    Seq::new(bytes.len() * 8, |k: int| bit_pixel(bytes[k / 8], k % 8))
}

/// A bitmap font: `length` glyphs of `width` by `height` pixels, stacked in
/// one column, one byte per pixel. Glyph `c` starts at row `c * height`.
#[derive(Debug, PartialEq, Eq)]
pub struct Font {
    pub length: u32,
    pub width: u32,
    pub height: u32,
    pub data: Vec<u8>,
}

#[derive(Clone, Copy, Debug, PartialEq, Eq)]
pub enum FontError {
    /// The resource does not start with the PSF2 signature (or is shorter
    /// than it).
    NotPsf2,
    /// Glyphs are not 8 pixels wide.
    UnsupportedWidth { width: u32 },
    /// The resource ends before its header or glyph bitmap does.
    Truncated,
}

/// Header field `k` (0 = version, ..., 6 = width).
pub open spec fn header_field(b: Seq<u8>, k: int) -> nat {
    le_u32_at(b, 4 + 4 * k)
}

/// What a PSF2 resource loads to: `Ok((length, height, bitmap))`, the bitmap
/// taken from the header's declared offset. A resource too short to hold the
/// signature does not start with it either.
pub open spec fn psf2_of(b: Seq<u8>) -> Result<(nat, nat, Seq<u8>), FontError> {
    if b.len() < 4 || b.take(4) != psf2_magic() {
        Err(FontError::NotPsf2)
    } else if b.len() < HEADER_LEN {
        Err(FontError::Truncated)
    } else if header_field(b, 6) != GLYPH_WIDTH {
        Err(FontError::UnsupportedWidth { width: header_field(b, 6) as u32 })
    } else {
        let start = header_field(b, 1);
        let nbytes = header_field(b, 3) * header_field(b, 5);
        if start + nbytes > b.len() {
            Err(FontError::Truncated)
        } else {
            Ok(
                (
                    header_field(b, 3),
                    header_field(b, 5),
                    b.subrange(start as int, (start + nbytes) as int),
                ),
            )
        }
    }
}

/// Relies on byteorder's `LittleEndian::read_u32`: the four bytes at `at`,
/// least significant first.
#[verifier::external_body]
fn read_u32_le(b: &[u8], at: usize) -> (r: u32)
    requires
        at + 4 <= b@.len(),
    ensures
        r as nat == le_u32_at(b@, at as int),
{
    byteorder::LittleEndian::read_u32(&b[at..])
}

fn header_field_exec(b: &[u8], k: usize) -> (r: u32)
    requires
        k < 7,
        b@.len() >= HEADER_LEN,
    ensures
        r as nat == header_field(b@, k as int),
{
    read_u32_le(b, 4 + 4 * k)
}

/// Unpacks each bit of `b[start..start + n]` into a byte of 0 or 255.
fn unpack(b: &[u8], start: usize, n: usize) -> (r: Vec<u8>)
    requires
        start + n <= b@.len(),
    ensures
        r@ == unpack_bits(b@.subrange(start as int, start + n)),
{
    let ghost src = b@.subrange(start as int, start + n);
    let blen = b.len();
    let mut data: Vec<u8> = Vec::new();
    let mut j: usize = 0;
    while j < n
        invariant
            j <= n,
            blen == b@.len(),
            start + n <= b@.len(),
            src == b@.subrange(start as int, start + n),
            data@.len() == 8 * j,
            forall|k: int| 0 <= k < 8 * j ==> #[trigger] data@[k] == bit_pixel(src[k / 8], k % 8),
        decreases n - j,
    {
        let byte = b[start + j];
        let mut i: u8 = 0;
        while i < 8
            invariant
                j < n,
                i <= 8,
                start + n <= b@.len(),
                    byte == src[j as int],
                src == b@.subrange(start as int, start + n),
                data@.len() == 8 * j + i,
                forall|k: int|
                    0 <= k < 8 * j + i ==> #[trigger] data@[k] == bit_pixel(src[k / 8], k % 8),
            decreases 8 - i,
        {
            let pixel: u8 = if (byte >> (7 - i)) & 1 == 1 {
                255
            } else {
                0
            };
            data.push(pixel);
            proof {
                let k = 8 * j + i;
                assert(k / 8 == j && k % 8 == i as int) by (nonlinear_arith)
                    requires
                        k == 8 * j + i,
                        0 <= i < 8,
                        j >= 0,
                ;
                assert(data@[k] == bit_pixel(src[k / 8], k % 8));
            }
            i = i + 1;
        }
        j = j + 1;
    }
    proof {
        assert(data@ =~= unpack_bits(src));
    }
    data
}

impl Font {
    /// Loads a PSF2 resource (see `psf2_of`). The font is built only once
    /// the whole resource has been checked.
    pub fn from_psf2(b: &[u8]) -> (r: Result<Font, FontError>)
        ensures
            psf2_of(b@) matches Err(e) ==> r == Err::<Font, FontError>(e),
            psf2_of(b@) matches Ok((length, height, bits)) ==> r matches Ok(f) && f.length
                == length && f.height == height && f.width == GLYPH_WIDTH && f.data@
                == unpack_bits(bits),
    {
        if b.len() < 4 {
            return Err(FontError::NotPsf2);
        }
        if !(b[0] == 0x72 && b[1] == 0xb5 && b[2] == 0x4a && b[3] == 0x86) {
            proof {
                if b@.take(4) == psf2_magic() {
                    assert(b@.take(4)[0] == 0x72 && b@.take(4)[1] == 0xb5);
                    assert(b@.take(4)[2] == 0x4a && b@.take(4)[3] == 0x86);
                }
            }
            return Err(FontError::NotPsf2);
        }
        proof {
            assert(b@.take(4) =~= psf2_magic());
        }
        if b.len() < HEADER_LEN {
            return Err(FontError::Truncated);
        }
        let header_size = header_field_exec(b, 1);
        let length = header_field_exec(b, 3);
        let height = header_field_exec(b, 5);
        let width = header_field_exec(b, 6);
        if width != GLYPH_WIDTH {
            return Err(FontError::UnsupportedWidth { width });
        }
        assert(length as u64 * height as u64 <= 0xffff_fffe_0000_0001u64) by (nonlinear_arith)
            requires
                length <= 0xffff_ffffu32,
                height <= 0xffff_ffffu32,
        ;
        let nbytes: u64 = length as u64 * height as u64;
        if header_size as u64 + nbytes > b.len() as u64 {
            return Err(FontError::Truncated);
        }
        let start = header_size as usize;
        let n = nbytes as usize;
        let data = unpack(b, start, n);
        Ok(Font { length, width, height, data })
    }
}


/// A PSF2 resource whose header declares a glyph width other than 8 fails
/// with the width error, naming that width; the loader takes the resource
/// by shared reference and builds no font, so nothing of the caller's
/// changes.
pub proof fn other_width_is_refused(b: Seq<u8>)
    requires
        b.len() >= HEADER_LEN,
        b.take(4) == psf2_magic(),
        header_field(b, 6) != GLYPH_WIDTH,
    ensures
        psf2_of(b) == Err::<(nat, nat, Seq<u8>), FontError>(
            FontError::UnsupportedWidth { width: header_field(b, 6) as u32 },
        ),
{
}

} // verus!
