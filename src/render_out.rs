use vstd::prelude::*;
use crate::context::MapContext;
use crate::text::same_text;
use crate::error::MapError;
use crate::outline::{id_at, lemma_index};
use crate::render::RGBColor;

verus! {

/// Side of a square map tile, in pixels.
pub const TILE_SIZE: u32 = 512;

/// The render table that `mode` selects; unknown modes fall back to province mode.
pub open spec fn mode_lut(ctx: MapContext, mode: Seq<char>) -> Seq<RGBColor> {
    if mode == "state"@ {
        ctx.state_color_lut@
    } else if mode == "country"@ {
        ctx.country_color_lut@
    } else if mode == "terrain"@ {
        ctx.terrain_color_lut@
    } else {
        ctx.province_color_lut@
    }
}

fn lut_for_mode<'a>(ctx: &'a MapContext, mode: &str) -> (r: &'a Vec<RGBColor>)
    ensures
        r@ == mode_lut(*ctx, mode@),
{
    if same_text(mode, "state") {
        &ctx.state_color_lut
    } else if same_text(mode, "country") {
        &ctx.country_color_lut
    } else if same_text(mode, "terrain") {
        &ctx.terrain_color_lut
    } else {
        &ctx.province_color_lut
    }
}

/// Byte `k` (R, G, B, then alpha) of an output pixel: all zero when nothing
/// was drawn there, else the color with full alpha.
pub open spec fn rgba_byte(c: Option<RGBColor>, k: int) -> u8 {
    match c {
        None => 0,
        Some(c) => if k == 0 { c.r } else if k == 1 { c.g } else if k == 2 { c.b } else { 255 },
    }
}

/// Whether `out` is the RGBA buffer of pixels `0..n`, pixel `i` drawn as `f(i)`.
pub open spec fn rgba_buffer(out: Seq<u8>, n: int, f: spec_fn(int) -> Option<RGBColor>) -> bool {
    &&& out.len() == 4 * n
    &&& forall|j: int| 0 <= j < out.len() ==> #[trigger] out[j] == rgba_byte(f(j / 4), j % 4)
}

fn push_pixel(out: &mut Vec<u8>, c: Option<RGBColor>, Ghost(n): Ghost<int>, Ghost(f): Ghost<spec_fn(int) -> Option<RGBColor>>)
    requires
        rgba_buffer(old(out)@, n, f),
        f(n) == c,
    ensures
        rgba_buffer(final(out)@, n + 1, f),
{
    let ghost before = out@;
    match c {
        None => {
            out.push(0);
            out.push(0);
            out.push(0);
            out.push(0);
        },
        Some(c) => {
            out.push(c.r);
            out.push(c.g);
            out.push(c.b);
            out.push(255);
        },
    }
    assert forall|j: int| 0 <= j < out@.len() implies #[trigger] out@[j] == rgba_byte(f(j / 4), j % 4) by {
        if j < 4 * n {
            assert(out@[j] == before[j]);
        } else {
            vstd::arithmetic::div_mod::lemma_fundamental_div_mod_converse(j, 4, n, j - 4 * n);
        }
    }
}

/// What the preview shows at output pixel `(x, y)`: the source pixel at
/// `(x * width / tw, y * height / th)`, colored by `lut`, black for an id
/// beyond the table.
pub open spec fn preview_color(ctx: MapContext, lut: Seq<RGBColor>, tw: int, th: int, x: int, y: int) -> Option<RGBColor> {
    let sx = x * ctx.width / tw;
    let sy = y * ctx.height / th;
    if sx < ctx.width && sy < ctx.height {
        let pid = id_at(ctx.province_ids@, ctx.width as int, sx, sy);
        if (pid as int) < lut.len() {
            Some(lut[pid as int])
        } else {
            Some(RGBColor { r: 0, g: 0, b: 0, a: 255 })
        }
    } else {
        None
    }
}

/// The preview's output pixels, numbered row-major.
pub open spec fn preview_pixels(ctx: MapContext, lut: Seq<RGBColor>, tw: int, th: int) -> spec_fn(int) -> Option<RGBColor> {
    |i: int| preview_color(ctx, lut, tw, th, i % tw, i / tw)
}

/// A downsampled RGBA preview of `target_width` by `target_height` pixels,
/// colored by the table that `mode` selects.
pub fn get_map_preview(slot: &Option<MapContext>, target_width: u32, target_height: u32, mode: &str) -> (r: Result<Vec<u8>, MapError>)
    requires
        slot matches Some(ctx) ==> ctx.wf(),
        4 * target_width * target_height <= usize::MAX,
    ensures
        slot is None ==> r == Err::<Vec<u8>, MapError>(MapError::NotInitialized),
        slot matches Some(ctx) ==> (r matches Ok(v) && rgba_buffer(v@, target_width * target_height,
            preview_pixels(*ctx, mode_lut(*ctx, mode@), target_width as int, target_height as int))),
{
    let ctx = match slot {
        None => return Err(MapError::NotInitialized),
        Some(ctx) => ctx,
    };
    let lut = lut_for_mode(ctx, mode);
    let ghost f = preview_pixels(*ctx, mode_lut(*ctx, mode@), target_width as int, target_height as int);
    let mut out: Vec<u8> = Vec::new();
    let mut y: u32 = 0;
    while y < target_height
        invariant
            ctx.wf(),
            lut@ == mode_lut(*ctx, mode@),
            4 * target_width * target_height <= usize::MAX,
            f == preview_pixels(*ctx, mode_lut(*ctx, mode@), target_width as int, target_height as int),
            y <= target_height,
            rgba_buffer(out@, y * target_width, f),
        decreases target_height - y,
    {
        let mut x: u32 = 0;
        while x < target_width
            invariant
                ctx.wf(),
                lut@ == mode_lut(*ctx, mode@),
                4 * target_width * target_height <= usize::MAX,
                f == preview_pixels(*ctx, mode_lut(*ctx, mode@), target_width as int, target_height as int),
                y < target_height,
                x <= target_width,
                rgba_buffer(out@, y * target_width + x, f),
            decreases target_width - x,
        {
            proof {
                assert((x as int) * (ctx.width as int) <= u64::MAX) by (nonlinear_arith)
                    requires x <= u32::MAX, ctx.width <= u32::MAX;
                assert((y as int) * (ctx.height as int) <= u64::MAX) by (nonlinear_arith)
                    requires y <= u32::MAX, ctx.height <= u32::MAX;
            }
            let sx: u64 = (x as u64) * (ctx.width as u64) / (target_width as u64);
            let sy: u64 = (y as u64) * (ctx.height as u64) / (target_height as u64);
            let c: Option<RGBColor> = if sx < ctx.width as u64 && sy < ctx.height as u64 {
                proof {
                    lemma_index(ctx.width as int, ctx.height as int, sx as int, sy as int);
                }
                    let pid = ctx.province_ids[(sy as usize) * (ctx.width as usize) + (sx as usize)];
                if (pid as usize) < lut.len() {
                    Some(lut[pid as usize])
                } else {
                    Some(RGBColor { r: 0, g: 0, b: 0, a: 255 })
                }
            } else {
                None
            };
            proof {
                let i: int = y as int * target_width as int + x as int;
                lemma_index(target_width as int, target_height as int, x as int, y as int);
                assert(i % (target_width as int) == x && i / (target_width as int) == y);
                assert(sx == (x as int) * (ctx.width as int) / (target_width as int));
                assert(sy == (y as int) * (ctx.height as int) / (target_height as int));
                assert(f(i) == preview_color(*ctx, mode_lut(*ctx, mode@), target_width as int, target_height as int,
                    i % (target_width as int), i / (target_width as int)));
                assert(f(i) == preview_color(*ctx, lut@, target_width as int, target_height as int, x as int, y as int));
                assert(f(i) == c);
                assert(4 * (i + 1) <= 4 * target_width * target_height) by (nonlinear_arith)
                    requires i == y * target_width + x, x < target_width, y < target_height;
            }
            push_pixel(&mut out, c, Ghost((y * target_width + x) as int), Ghost(f));
            x = x + 1;
        }
        proof {
            assert((y + 1) * target_width == y * target_width + target_width) by (nonlinear_arith);
        }
        y = y + 1;
    }
    proof {
        assert(target_height * target_width == target_width * target_height) by (nonlinear_arith);
    }
    Ok(out)
}

} // verus!

verus! {

/// What tile `(tx, ty)` at stride `scale` shows at its pixel `(x, y)`: the
/// source pixel at `((tx * 512 + x) * scale, (ty * 512 + y) * scale)` colored
/// by `lut`; nothing outside the raster or for an id beyond the table.
pub open spec fn tile_color(ctx: MapContext, lut: Seq<RGBColor>, tx: int, ty: int, scale: int, x: int, y: int) -> Option<RGBColor> {
    let sx = (tx * TILE_SIZE + x) * scale;
    let sy = (ty * TILE_SIZE + y) * scale;
    if sx < ctx.width && sy < ctx.height {
        let pid = id_at(ctx.province_ids@, ctx.width as int, sx, sy);
        if (pid as int) < lut.len() {
            Some(lut[pid as int])
        } else {
            None
        }
    } else {
        None
    }
}

/// The tile's output pixels, numbered row-major.
pub open spec fn tile_pixels(ctx: MapContext, lut: Seq<RGBColor>, tx: int, ty: int, scale: int) -> spec_fn(int) -> Option<RGBColor> {
    |i: int| tile_color(ctx, lut, tx, ty, scale, i % (TILE_SIZE as int), i / (TILE_SIZE as int))
}

/// The sampling stride of zoom level `zoom`: at least 1.
pub open spec fn zoom_scale(zoom: u32) -> int {
    if zoom < 1 { 1 } else { zoom as int }
}

/// A 512 by 512 RGBA tile at grid position `(x, y)`, sampling every
/// `zoom`-th source pixel, colored by the table that `mode` selects.
pub fn get_map_tile_direct(slot: &Option<MapContext>, x: u32, y: u32, zoom: u32, mode: &str) -> (r: Result<Vec<u8>, MapError>)
    requires
        slot matches Some(ctx) ==> ctx.wf(),
    ensures
        slot is None ==> r == Err::<Vec<u8>, MapError>(MapError::NotInitialized),
        slot matches Some(ctx) ==> (r matches Ok(v) && rgba_buffer(v@, TILE_SIZE * TILE_SIZE,
            tile_pixels(*ctx, mode_lut(*ctx, mode@), x as int, y as int, zoom_scale(zoom)))),
{
    let ctx = match slot {
        None => return Err(MapError::NotInitialized),
        Some(ctx) => ctx,
    };
    let lut = lut_for_mode(ctx, mode);
    let scale: u32 = if zoom < 1 { 1 } else { zoom };
    let ghost f = tile_pixels(*ctx, mode_lut(*ctx, mode@), x as int, y as int, zoom_scale(zoom));
    let mut out: Vec<u8> = Vec::new();
    let mut ty: u32 = 0;
    while ty < TILE_SIZE
        invariant
            ctx.wf(),
            lut@ == mode_lut(*ctx, mode@),
            scale == zoom_scale(zoom),
            f == tile_pixels(*ctx, mode_lut(*ctx, mode@), x as int, y as int, zoom_scale(zoom)),
            ty <= TILE_SIZE,
            rgba_buffer(out@, ty * TILE_SIZE, f),
        decreases TILE_SIZE - ty,
    {
        let mut tx: u32 = 0;
        while tx < TILE_SIZE
            invariant
                ctx.wf(),
                lut@ == mode_lut(*ctx, mode@),
                scale == zoom_scale(zoom),
                f == tile_pixels(*ctx, mode_lut(*ctx, mode@), x as int, y as int, zoom_scale(zoom)),
                ty < TILE_SIZE,
                tx <= TILE_SIZE,
                rgba_buffer(out@, ty * TILE_SIZE + tx, f),
            decreases TILE_SIZE - tx,
        {
            proof {
                assert(((x as int) * 512 + tx) * scale <= u128::MAX) by (nonlinear_arith)
                    requires x <= u32::MAX, tx < 512, scale <= u32::MAX, scale >= 1;
                assert(((y as int) * 512 + ty) * scale <= u128::MAX) by (nonlinear_arith)
                    requires y <= u32::MAX, ty < 512, scale <= u32::MAX, scale >= 1;
            }
            let sx: u128 = ((x as u128) * 512 + (tx as u128)) * (scale as u128);
            let sy: u128 = ((y as u128) * 512 + (ty as u128)) * (scale as u128);
            let mut c: Option<RGBColor> = None;
            if sx < ctx.width as u128 && sy < ctx.height as u128 {
                proof {
                    lemma_index(ctx.width as int, ctx.height as int, sx as int, sy as int);
                }
                    let pid = ctx.province_ids[(sy as usize) * (ctx.width as usize) + (sx as usize)];
                if (pid as usize) < lut.len() {
                    c = Some(lut[pid as usize]);
                }
            }
            proof {
                let i: int = ty as int * 512 + tx as int;
                lemma_index(512, 512, tx as int, ty as int);
                assert(f(i) == tile_color(*ctx, lut@, x as int, y as int, scale as int, tx as int, ty as int));
                assert(f(i) == c);
            }
            push_pixel(&mut out, c, Ghost((ty * TILE_SIZE + tx) as int), Ghost(f));
            tx = tx + 1;
        }
        ty = ty + 1;
    }
    Ok(out)
}

} // verus!
