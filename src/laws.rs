use vstd::prelude::*;
use crate::context::{MapContext, assembled_from, raster_id};
use crate::definitions::{ProvinceDefinition, StateDefinition};
use crate::edges::{ProvinceEdge, is_edge_set, pair_recorded, on_boundary, neighbors};
use crate::outline::{id_at, is_outline, is_outline_pixel, in_set, lemma_index};
use crate::raster::header_of;
use crate::render::RGBColor;
use crate::render_out::{rgba_buffer, tile_pixels, preview_pixels, mode_lut, zoom_scale, TILE_SIZE};
use crate::spatial::bounds_entry_ok;

verus! {

/// The id at a pixel of an assembled map is the id that decoding the raster
/// through the color table gives there; and a province's bounding box holds
/// that pixel, with each side of the box touched by a pixel of the province.
pub proof fn law_point_round_trip(
    ctx: MapContext,
    raster: Seq<u8>,
    defs: Seq<ProvinceDefinition>,
    states: Seq<StateDefinition>,
    colors: Seq<(String, RGBColor)>,
    x: u32,
    y: u32,
)
    requires
        assembled_from(ctx, raster, defs, states, colors),
        x < ctx.width,
        y < ctx.height,
    ensures
        id_at(ctx.province_ids@, ctx.width as int, x as int, y as int) == raster_id(raster, header_of(raster), defs, x as int, y as int),
        ({
            let id = id_at(ctx.province_ids@, ctx.width as int, x as int, y as int);
            let w = ctx.width as int;
            id != 0 ==> (ctx.province_bounds@[id as int] matches Some(bb) && {
                &&& bb.min_x <= x <= bb.max_x
                &&& bb.min_y <= y <= bb.max_y
                &&& exists|yy: int| 0 <= yy < ctx.height && #[trigger] id_at(ctx.province_ids@, w, bb.min_x as int, yy) == id
                &&& exists|yy: int| 0 <= yy < ctx.height && #[trigger] id_at(ctx.province_ids@, w, bb.max_x as int, yy) == id
                &&& exists|xx: int| 0 <= xx < ctx.width && #[trigger] id_at(ctx.province_ids@, w, xx, bb.min_y as int) == id
                &&& exists|xx: int| 0 <= xx < ctx.width && #[trigger] id_at(ctx.province_ids@, w, xx, bb.max_y as int) == id
            })
        }),
{
    let w = ctx.width as int;
    let h = ctx.height as int;
    let ids = ctx.province_ids@;
    lemma_index(w, h, x as int, y as int);
    let i = y * w + x;
    let id = ids[i];
    assert(ids[i] == raster_id(raster, header_of(raster), defs, i % w, i / w));
    if id != 0 {
        assert((id as int) < ctx.lut_size());
        assert(bounds_entry_ok(ids, w, ids.len() as int, id, ctx.province_bounds@[id as int]));
        let bb = ctx.province_bounds@[id as int]->Some_0;
        let j1 = choose|j: int| 0 <= j < ids.len() && #[trigger] ids[j] == id && j % w == bb.min_x;
        let j2 = choose|j: int| 0 <= j < ids.len() && #[trigger] ids[j] == id && j % w == bb.max_x;
        let j3 = choose|j: int| 0 <= j < ids.len() && #[trigger] ids[j] == id && j / w == bb.min_y;
        let j4 = choose|j: int| 0 <= j < ids.len() && #[trigger] ids[j] == id && j / w == bb.max_y;
        lemma_split_index(w, h, j1);
        lemma_split_index(w, h, j2);
        lemma_split_index(w, h, j3);
        lemma_split_index(w, h, j4);
        assert(id_at(ids, w, bb.min_x as int, j1 / w) == id);
        assert(id_at(ids, w, bb.max_x as int, j2 / w) == id);
        assert(id_at(ids, w, j3 % w, bb.min_y as int) == id);
        assert(id_at(ids, w, j4 % w, bb.max_y as int) == id);
    }
}

proof fn lemma_split_index(w: int, h: int, j: int)
    requires
        0 <= j < w * h,
        w >= 0,
        h >= 0,
    ensures
        w > 0,
        0 <= j % w < w,
        0 <= j / w < h,
        (j / w) * w + j % w == j,
{
    assert(w > 0) by (nonlinear_arith) requires 0 <= j < w * h, w >= 0, h >= 0;
    vstd::arithmetic::div_mod::lemma_fundamental_div_mod(j, w);
    assert(j / w < h) by (nonlinear_arith)
        requires j == w * (j / w) + j % w, 0 <= j % w, j < w * h, w > 0;
    assert(j / w >= 0) by (nonlinear_arith) requires j >= 0, w > 0, j == w * (j / w) + j % w, j % w < w;
    assert((j / w) * w == w * (j / w)) by (nonlinear_arith);
}

/// A province with a pixel on the map has a bounding box, so its outline
/// query succeeds; and any outline of it is nonempty, each of its pixels
/// belonging to the province and lying on the raster border or next to
/// another id.
pub proof fn law_outline_nonempty(ctx: MapContext, province_id: u32, px: u32, py: u32, v: Seq<(u32, u32)>)
    requires
        ctx.wf(),
        province_id != 0,
        px < ctx.width,
        py < ctx.height,
        id_at(ctx.province_ids@, ctx.width as int, px as int, py as int) == province_id,
        is_outline(ctx.province_ids@, ctx.width as int, ctx.height as int, seq![province_id], v),
    ensures
        (province_id as int) < ctx.lut_size() && ctx.province_bounds@[province_id as int] is Some,
        v.len() > 0,
        forall|k: int| 0 <= k < v.len() ==> {
            let (x, y) = #[trigger] v[k];
            let w = ctx.width as int;
            let ids = ctx.province_ids@;
            &&& x < ctx.width && y < ctx.height
            &&& id_at(ids, w, x as int, y as int) == province_id
            &&& (x == 0 || y == 0 || x + 1 == ctx.width || y + 1 == ctx.height
                || id_at(ids, w, x - 1, y as int) != province_id || id_at(ids, w, x + 1, y as int) != province_id
                || id_at(ids, w, x as int, y - 1) != province_id || id_at(ids, w, x as int, y + 1) != province_id)
        },
{
    let w = ctx.width as int;
    let h = ctx.height as int;
    let ids = ctx.province_ids@;
    let m = seq![province_id];
    assert(m[0] == province_id);
    assert forall|id: u32| in_set(m, id) <==> id == province_id by {
        if id == province_id {
            assert(m.contains(id));
        }
    }
    lemma_index(w, h, px as int, py as int);
    assert(ids[py * w + px] == province_id);
    assert((province_id as int) < ctx.lut_size());
    assert(bounds_entry_ok(ids, w, ids.len() as int, province_id, ctx.province_bounds@[province_id as int]));
    let bb = ctx.province_bounds@[province_id as int]->Some_0;
    let j = choose|j: int| 0 <= j < ids.len() && #[trigger] ids[j] == province_id && j / w == bb.min_y;
    lemma_split_index(w, h, j);
    let tx = j % w;
    let ty = j / w;
    assert(id_at(ids, w, tx, ty) == province_id);
    if ty > 0 {
        lemma_index(w, h, tx, ty - 1);
        if id_at(ids, w, tx, ty - 1) == province_id {
            assert(ids[(ty - 1) * w + tx] == province_id);
            assert(bb.min_y <= (ty - 1));
        }
    }
    assert(is_outline_pixel(ids, w, h, m, tx, ty));
    assert(v.contains((tx as u32, ty as u32)));
}

/// Two neighboring pixels with different ids are recorded under the same
/// sorted id pair when their ids are swapped: the pair key does not depend
/// on which side holds which id.
pub proof fn law_edge_pair_normalized(
    ids1: Seq<u32>,
    ids2: Seq<u32>,
    w: int,
    h: int,
    e1: Seq<ProvinceEdge>,
    e2: Seq<ProvinceEdge>,
    x: int,
    y: int,
    x2: int,
    y2: int,
)
    requires
        is_edge_set(ids1, w, h, e1),
        is_edge_set(ids2, w, h, e2),
        0 <= x < w && 0 <= y < h,
        (x2 == x + 1 && y2 == y && x2 < w) || (x2 == x && y2 == y + 1 && y2 < h),
        id_at(ids1, w, x, y) != id_at(ids1, w, x2, y2),
        id_at(ids2, w, x, y) == id_at(ids1, w, x2, y2),
        id_at(ids2, w, x2, y2) == id_at(ids1, w, x, y),
    ensures
        ({
            let a = id_at(ids1, w, x, y);
            let b = id_at(ids1, w, x2, y2);
            let lo = if a < b { a } else { b };
            let hi = if a < b { b } else { a };
            &&& lo < hi
            &&& exists|k: int| 0 <= k < e1.len() && (#[trigger] e1[k]).from_id == lo && e1[k].to_id == hi
            &&& exists|k: int| 0 <= k < e2.len() && (#[trigger] e2[k]).from_id == lo && e2[k].to_id == hi
        }),
{
    if x2 == x + 1 {
        assert(pair_recorded(ids1, w, e1, x, y, x + 1, y));
        assert(pair_recorded(ids2, w, e2, x, y, x + 1, y));
    } else {
        assert(pair_recorded(ids1, w, e1, x, y, x, y + 1));
        assert(pair_recorded(ids2, w, e2, x, y, x, y + 1));
    }
}

/// Whether ids `a` and `b` stand side by side somewhere in the raster: a
/// pixel and its right or bottom neighbor hold them, in either order.
pub open spec fn touching(ids: Seq<u32>, w: int, h: int, a: u32, b: u32) -> bool {
    exists|x: int, y: int| 0 <= x < w && 0 <= y < h && {
        let p = #[trigger] id_at(ids, w, x, y);
        ||| (x + 1 < w && ((p == a && id_at(ids, w, x + 1, y) == b) || (p == b && id_at(ids, w, x + 1, y) == a)))
        ||| (y + 1 < h && ((p == a && id_at(ids, w, x, y + 1) == b) || (p == b && id_at(ids, w, x, y + 1) == a)))
    }
}

/// An edge set holds an edge keyed `(a, b)` exactly when `a < b` and the two
/// ids touch as right or bottom neighbors somewhere in the raster.
pub proof fn law_edge_exists_iff_touching(ids: Seq<u32>, w: int, h: int, e: Seq<ProvinceEdge>, a: u32, b: u32)
    requires
        is_edge_set(ids, w, h, e),
    ensures
        (exists|k: int| 0 <= k < e.len() && (#[trigger] e[k]).from_id == a && e[k].to_id == b)
            <==> (a < b && touching(ids, w, h, a, b)),
{
    if exists|k: int| 0 <= k < e.len() && (#[trigger] e[k]).from_id == a && e[k].to_id == b {
        let k = choose|k: int| 0 <= k < e.len() && (#[trigger] e[k]).from_id == a && e[k].to_id == b;
        assert(e[k].points@.len() > 0);
        let p = e[k].points@[0];
        assert(on_boundary(ids, w, h, a, b, p.0 as int, p.1 as int));
        let x = p.0 as int;
        let y = p.1 as int;
        let (x2, y2) = choose|x2: int, y2: int|
            0 <= x2 < w && 0 <= y2 < h && neighbors(x, y, x2, y2) && {
                ||| id_at(ids, w, x, y) == a && #[trigger] id_at(ids, w, x2, y2) == b
                ||| id_at(ids, w, x, y) == b && id_at(ids, w, x2, y2) == a
            };
        if x2 == x + 1 || y2 == y + 1 {
            assert(id_at(ids, w, x, y) == id_at(ids, w, x, y));
        } else {
            assert(id_at(ids, w, x2, y2) == id_at(ids, w, x2, y2));
            if x2 == x - 1 {
                assert(x2 + 1 == x && y2 == y);
            } else {
                assert(y2 + 1 == y && x2 == x);
            }
        }
    }
    if a < b && touching(ids, w, h, a, b) {
        let (x, y) = choose|x: int, y: int| 0 <= x < w && 0 <= y < h && {
            let p = #[trigger] id_at(ids, w, x, y);
            ||| (x + 1 < w && ((p == a && id_at(ids, w, x + 1, y) == b) || (p == b && id_at(ids, w, x + 1, y) == a)))
            ||| (y + 1 < h && ((p == a && id_at(ids, w, x, y + 1) == b) || (p == b && id_at(ids, w, x, y + 1) == a)))
        };
        let p = id_at(ids, w, x, y);
        if x + 1 < w && ((p == a && id_at(ids, w, x + 1, y) == b) || (p == b && id_at(ids, w, x + 1, y) == a)) {
            assert(pair_recorded(ids, w, e, x, y, x + 1, y));
        } else {
            assert(pair_recorded(ids, w, e, x, y, x, y + 1));
        }
    }
}

/// Asking twice for the same tile of an unchanged map gives byte-identical
/// buffers: the tile contract fixes every byte.
pub proof fn law_tile_idempotent(ctx: MapContext, x: u32, y: u32, zoom: u32, mode: Seq<char>, a: Seq<u8>, b: Seq<u8>)
    requires
        rgba_buffer(a, TILE_SIZE * TILE_SIZE, tile_pixels(ctx, mode_lut(ctx, mode), x as int, y as int, zoom_scale(zoom))),
        rgba_buffer(b, TILE_SIZE * TILE_SIZE, tile_pixels(ctx, mode_lut(ctx, mode), x as int, y as int, zoom_scale(zoom))),
    ensures
        a == b,
        a.len() == 4 * 512 * 512,
{
    assert(a =~= b);
}

/// Asking twice for the same preview of an unchanged map gives
/// byte-identical buffers of four bytes per output pixel.
pub proof fn law_preview_idempotent(ctx: MapContext, tw: u32, th: u32, mode: Seq<char>, a: Seq<u8>, b: Seq<u8>)
    requires
        rgba_buffer(a, tw * th, preview_pixels(ctx, mode_lut(ctx, mode), tw as int, th as int)),
        rgba_buffer(b, tw * th, preview_pixels(ctx, mode_lut(ctx, mode), tw as int, th as int)),
    ensures
        a == b,
        a.len() == 4 * (tw * th),
{
    assert(a =~= b);
}

} // verus!
