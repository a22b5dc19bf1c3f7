use vstd::prelude::*;
use crate::error::MapError;
use crate::definitions::{ProvinceDefinition, def_color_index, color_index};

verus! {

/// Length of the fixed raster header.
pub const HEADER_LEN: usize = 54;

/// Number of entries of the direct color table: one per 24-bit color.
pub const COLOR_SPACE: usize = 16777216;

/// Little-endian unsigned value of two bytes at `i`.
pub open spec fn le_u16(b: Seq<u8>, i: int) -> int {
    b[i] as int + 256 * b[i + 1]
}

/// Little-endian unsigned value of four bytes at `i`.
pub open spec fn le_u32(b: Seq<u8>, i: int) -> int {
    b[i] as int + 256 * b[i + 1] + 65536 * b[i + 2] + 16777216 * b[i + 3]
}

/// The fields of the raster header that decoding needs.
#[derive(Debug, Clone, Copy, PartialEq, Eq, Structural)]
pub struct RasterHeader {
    pub pixel_offset: u32,
    pub width: u32,
    pub height: u32,
    pub bits_per_pixel: u16,
}

/// Whether the header of `b` is one this decoder accepts.
pub open spec fn header_ok(b: Seq<u8>) -> bool {
    &&& b.len() >= HEADER_LEN
    &&& b[0] == 0x42u8 && b[1] == 0x4du8
    &&& le_u16(b, 28) == 24
}

/// The header fields as they stand in `b`.
pub open spec fn header_of(b: Seq<u8>) -> RasterHeader {
    RasterHeader {
        pixel_offset: le_u32(b, 10) as u32,
        width: le_u32(b, 18) as u32,
        height: le_u32(b, 22) as u32,
        bits_per_pixel: le_u16(b, 28) as u16,
    }
}

fn read_le_u16(b: &[u8], i: usize) -> (r: u16)
    requires
        i + 2 <= b@.len(),
    ensures
        r as int == le_u16(b@, i as int),
{
    b[i] as u16 + 256 * (b[i + 1] as u16)
}

fn read_le_u32(b: &[u8], i: usize) -> (r: u32)
    requires
        i + 4 <= b@.len(),
    ensures
        r as int == le_u32(b@, i as int),
{
    b[i] as u32 + 256 * (b[i + 1] as u32) + 65536 * (b[i + 2] as u32) + 16777216 * (b[i + 3] as u32)
}

/// Reads the fixed header: fails with `FormatError` on a short header, a
/// wrong signature or a bit depth other than 24.
pub fn parse_raster_header(b: &[u8]) -> (r: Result<RasterHeader, MapError>)
    ensures
        header_ok(b@) ==> r == Ok::<RasterHeader, MapError>(header_of(b@)),
        !header_ok(b@) ==> r == Err::<RasterHeader, MapError>(MapError::FormatError),
{
    if b.len() < HEADER_LEN {
        return Err(MapError::FormatError);
    }
    if b[0] != 0x42u8 || b[1] != 0x4du8 {
        return Err(MapError::FormatError);
    }
    let bpp = read_le_u16(b, 28);
    if bpp != 24 {
        return Err(MapError::FormatError);
    }
    Ok(RasterHeader {
        pixel_offset: read_le_u32(b, 10),
        width: read_le_u32(b, 18),
        height: read_le_u32(b, 22),
        bits_per_pixel: bpp,
    })
}

} // verus!

verus! {

/// Id of the last definition in `defs` whose color has index `c`, or 0.
pub open spec fn color_owner(defs: Seq<ProvinceDefinition>, c: int) -> u32
    decreases defs.len(),
{
    if defs.len() == 0 {
        0
    } else if def_color_index(defs.last()) == c {
        defs.last().id
    } else {
        color_owner(defs.drop_last(), c)
    }
}

/// Builds the direct color table: entry `c` holds the id of the last
/// definition with color index `c`, or 0 where no definition has it.
pub fn build_color_lut(defs: &[ProvinceDefinition]) -> (lut: Vec<u32>)
    ensures
        lut@.len() == COLOR_SPACE,
        forall|c: int| 0 <= c < COLOR_SPACE ==> #[trigger] lut@[c] == color_owner(defs@, c),
{
    let mut lut: Vec<u32> = vec![0u32; COLOR_SPACE];
    let mut k: usize = 0;
    while k < defs.len()
        invariant
            k <= defs@.len(),
            lut@.len() == COLOR_SPACE,
            forall|c: int| 0 <= c < COLOR_SPACE ==> #[trigger] lut@[c] == color_owner(defs@.take(k as int), c),
        decreases defs@.len() - k,
    {
        let d = &defs[k];
        let idx: usize = (d.r as usize) * 65536 + (d.g as usize) * 256 + (d.b as usize);
        lut.set(idx, d.id);
        assert(defs@.take(k as int + 1).drop_last() =~= defs@.take(k as int));
        k = k + 1;
    }
    assert(defs@.take(defs@.len() as int) =~= defs@);
    lut
}

} // verus!

verus! {

/// Bytes per stored pixel row: three per pixel, padded to a multiple of four.
pub open spec fn row_bytes(width: int) -> int {
    ((3 * width + 3) / 4) * 4
}

/// Whether `b` holds every pixel row that header `h` announces.
pub open spec fn pixels_fit(b: Seq<u8>, h: RasterHeader) -> bool {
    h.pixel_offset + row_bytes(h.width as int) * h.height <= b.len()
}

/// Offset of the stored pixel at logical `(x, y)`, `y` counted from the top:
/// rows are stored bottom to top.
pub open spec fn pixel_start(h: RasterHeader, x: int, y: int) -> int {
    h.pixel_offset + row_bytes(h.width as int) * (h.height - 1 - y) + 3 * x
}

/// Color index of the stored pixel at `(x, y)`; channels are stored B, G, R.
pub open spec fn stored_color(b: Seq<u8>, h: RasterHeader, x: int, y: int) -> int {
    let s = pixel_start(h, x, y);
    color_index(b[s + 2], b[s + 1], b[s])
}

/// Province id of the pixel at `(x, y)` by the color table `lut`.
pub open spec fn decoded_id(b: Seq<u8>, h: RasterHeader, lut: Seq<u32>, x: int, y: int) -> u32 {
    lut[stored_color(b, h, x, y)]
}

proof fn lemma_row_in_bounds(b: Seq<u8>, h: RasterHeader, y: int)
    requires
        pixels_fit(b, h),
        0 <= y < h.height,
    ensures
        row_bytes(h.width as int) >= 3 * h.width,
        row_bytes(h.width as int) * (h.height - 1 - y) >= 0,
        h.pixel_offset + row_bytes(h.width as int) * (h.height - 1 - y) + row_bytes(h.width as int) <= b.len(),
{
    let row = row_bytes(h.width as int);
    let hh = h.height as int;
    assert(row >= 3 * h.width) by (nonlinear_arith)
        requires row == ((3 * h.width as int + 3) / 4) * 4;
    assert(row * (hh - 1 - y) + row <= row * hh) by (nonlinear_arith)
        requires row >= 0, 0 <= y < hh;
    assert(row * (hh - 1 - y) >= 0) by (nonlinear_arith)
        requires row >= 0, 0 <= y < hh;
}

/// Decodes the pixel rows of `b` into province ids, row-major from the top
/// left: fails with `FormatError` when the rows do not fit in `b`.
pub fn decode_province_ids(b: &[u8], h: RasterHeader, lut: &Vec<u32>) -> (r: Result<Vec<u32>, MapError>)
    requires
        lut@.len() == COLOR_SPACE,
    ensures
        r is Ok <==> pixels_fit(b@, h),
        r is Err ==> r == Err::<Vec<u32>, MapError>(MapError::FormatError),
        r matches Ok(ids) ==> {
            &&& ids@.len() == h.width * h.height
            &&& ids@.len() <= usize::MAX
            &&& forall|i: int| 0 <= i < ids@.len() ==> #[trigger] ids@[i]
                == decoded_id(b@, h, lut@, i % h.width as int, i / h.width as int)
        },
{
    let off = h.pixel_offset as u64;
    let w = h.width as u64;
    let hh = h.height as u64;
    let len = b.len() as u64;
    let row64: u64 = ((3 * w + 3) / 4) * 4;
    if off > len {
        return Err(MapError::FormatError);
    }
    if w == 0 || hh == 0 {
        proof {
            assert(row_bytes(h.width as int) * h.height == 0) by (nonlinear_arith)
                requires h.width == 0 || h.height == 0, h.width == 0 ==> row_bytes(h.width as int) == 0;
        }
        let empty: Vec<u32> = Vec::new();
        return Ok(empty);
    }
    if hh > 0 && row64 > (len - off) / hh {
        proof {
            let a: int = (len - off) as int;
            let r: int = row64 as int;
            let n: int = hh as int;
            let q: int = a / n;
            assert(r >= q + 1);
            assert(r * n >= (q + 1) * n) by (nonlinear_arith)
                requires r >= q + 1, n > 0;
            assert((q + 1) * n > a) by (nonlinear_arith)
                requires q == a / n, n > 0, a >= 0;
        }
        return Err(MapError::FormatError);
    }
    proof {
        let a: int = (len - off) as int;
        let r: int = row64 as int;
        let n: int = hh as int;
        if hh > 0 {
            let q: int = a / n;
            assert(r * n <= q * n) by (nonlinear_arith)
                requires r <= q, n > 0;
            assert(q * n <= a) by (nonlinear_arith)
                requires q == a / n, n > 0, a >= 0;
        }
        assert(row_bytes(h.width as int) == r);
        assert(r * n <= a);
        assert(w as int * n <= r * n) by (nonlinear_arith)
            requires r >= 3 * w, n >= 0;
        assert(r <= r * n) by (nonlinear_arith)
            requires r >= 0, n >= 1;
    }
    let blen: usize = b.len();
    let row: usize = row64 as usize;
    let wu: usize = h.width as usize;
    let hu: usize = h.height as usize;
    let mut ids: Vec<u32> = Vec::new();
    let mut y: usize = 0;
    while y < hu
        invariant
            y <= hu,
            wu == h.width,
            hu == h.height,
            row == row_bytes(h.width as int),
            lut@.len() == COLOR_SPACE,
            pixels_fit(b@, h),
            wu * hu <= b@.len(),
            b@.len() <= usize::MAX,
            ids@.len() == y * wu,
            forall|i: int| 0 <= i < ids@.len() ==> #[trigger] ids@[i]
                == decoded_id(b@, h, lut@, i % wu as int, i / wu as int),
        decreases hu - y,
    {
        proof {
            lemma_row_in_bounds(b@, h, y as int);
        }
        let row_start: usize = h.pixel_offset as usize + row * (hu - 1 - y);
        let mut x: usize = 0;
        while x < wu
            invariant
                x <= wu,
                y < hu,
                wu == h.width,
                hu == h.height,
                row == row_bytes(h.width as int),
                row_start == h.pixel_offset + row_bytes(h.width as int) * (h.height - 1 - y),
                lut@.len() == COLOR_SPACE,
                pixels_fit(b@, h),
                wu * hu <= b@.len(),
                b@.len() <= usize::MAX,
                ids@.len() == y * wu + x,
                forall|i: int| 0 <= i < ids@.len() ==> #[trigger] ids@[i]
                    == decoded_id(b@, h, lut@, i % wu as int, i / wu as int),
            decreases wu - x,
        {
            proof {
                lemma_row_in_bounds(b@, h, y as int);
                assert(pixel_start(h, x as int, y as int) == row_start + 3 * x);
            }
            let s: usize = row_start + 3 * x;
            let c: usize = (b[s + 2] as usize) * 65536 + (b[s + 1] as usize) * 256 + (b[s] as usize);
            let id = lut[c];
            proof {
                vstd::arithmetic::div_mod::lemma_fundamental_div_mod_converse(
                    (y * wu + x) as int, wu as int, y as int, x as int);
                assert((y * wu + x) as int == y as int * wu as int + x as int);
            }
            ids.push(id);
            x = x + 1;
        }
        proof {
            assert((y + 1) * wu == y * wu + wu) by (nonlinear_arith);
            assert(y + 1 <= hu);
            assert((y + 1) * wu <= hu * wu) by (nonlinear_arith)
                requires y + 1 <= hu;
        }
        y = y + 1;
    }
    proof {
        assert(hu * wu == h.width * h.height) by (nonlinear_arith)
            requires hu == h.height, wu == h.width;
    }
    Ok(ids)
}

} // verus!
