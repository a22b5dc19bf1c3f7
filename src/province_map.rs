use vstd::prelude::*;
use crate::context::{is_max_id, max_province_id, raster_decodes, raster_id};
use crate::definitions::ProvinceDefinition;
use crate::edges::{ProvinceEdge, detect_edges, is_edge_set};
use crate::error::MapError;
use crate::raster::{header_of, stored_color, color_owner, build_color_lut, decode_province_ids, parse_raster_header, COLOR_SPACE};
use crate::spatial::{BoundingBox, bounds_entry_ok, compute_province_bounds};

verus! {

/// A province definition with where it lies on the map.
pub struct ProvinceInstance {
    pub definition: ProvinceDefinition,
    pub bounding_box: Option<BoundingBox>,
    pub pixels_count: usize,
}

/// A decoded raster with its provinces and boundaries.
pub struct ProvinceMapData {
    pub width: u32,
    pub height: u32,
    pub province_ids: Vec<u32>,
    pub instances: Vec<ProvinceInstance>,
    pub edges: Vec<ProvinceEdge>,
}

/// Number of pixels of `ids` that hold `id`.
pub open spec fn count_id(ids: Seq<u32>, id: u32) -> nat
    decreases ids.len(),
{
    if ids.len() == 0 {
        0
    } else {
        count_id(ids.drop_last(), id) + if ids.last() == id { 1nat } else { 0nat }
    }
}

proof fn lemma_count_bounded(ids: Seq<u32>, id: u32)
    ensures
        count_id(ids, id) <= ids.len(),
    decreases ids.len(),
{
    if ids.len() > 0 {
        lemma_count_bounded(ids.drop_last(), id);
    }
}

/// Pixel counts of the ids below `size`; the background id 0 counts none.
pub fn count_pixels(ids: &Vec<u32>, size: usize) -> (r: Vec<usize>)
    ensures
        r@.len() == size,
        forall|id: u32| (id as int) < size ==> #[trigger] r@[id as int] == if id == 0 { 0 } else { count_id(ids@, id) },
{
    let mut r: Vec<usize> = Vec::new();
    let mut t: usize = 0;
    while t < size
        invariant
            t <= size,
            r@.len() == t,
            forall|i: int| 0 <= i < t ==> #[trigger] r@[i] == 0,
        decreases size - t,
    {
        r.push(0);
        t = t + 1;
    }
    let mut k: usize = 0;
    while k < ids.len()
        invariant
            k <= ids@.len(),
            r@.len() == size,
            forall|id: u32| (id as int) < size ==> #[trigger] r@[id as int] == if id == 0 { 0 } else { count_id(ids@.take(k as int), id) },
        decreases ids@.len() - k,
    {
        assert(ids@.take(k as int + 1).drop_last() =~= ids@.take(k as int));
        let p = ids[k];
        let pu = p as usize;
        if p > 0 && pu < size {
            proof {
                lemma_count_bounded(ids@.take(k as int), p);
            }
            let c = r[pu];
            r.set(pu, c + 1);
        }
        k = k + 1;
    }
    assert(ids@.take(ids@.len() as int) =~= ids@);
    r
}

/// Whether `data` is the map that raster bytes `b` and definitions `defs` give.
pub open spec fn map_data_of(data: ProvinceMapData, b: Seq<u8>, defs: Seq<ProvinceDefinition>) -> bool {
    let h = header_of(b);
    let ids = data.province_ids@;
    &&& data.width == h.width
    &&& data.height == h.height
    &&& ids.len() == h.width * h.height
    &&& forall|i: int| 0 <= i < ids.len() ==> #[trigger] ids[i] == raster_id(b, h, defs, i % (h.width as int), i / (h.width as int))
    &&& data.instances@.len() == defs.len()
    &&& forall|k: int| 0 <= k < defs.len() ==> {
        let inst = #[trigger] data.instances@[k];
        &&& inst.definition == defs[k]
        &&& bounds_entry_ok(ids, h.width as int, ids.len() as int, defs[k].id, inst.bounding_box)
        &&& inst.pixels_count == if defs[k].id == 0 { 0 } else { count_id(ids, defs[k].id) }
    }
    &&& is_edge_set(ids, h.width as int, h.height as int, data.edges@)
}

/// Decodes raster bytes into province ids and lists, for each definition in
/// order, its bounding box and pixel count, plus all province boundaries;
/// fails with `FormatError` exactly when the raster does not decode.
pub fn parse_provinces_bmp(raster: &[u8], definitions: Vec<ProvinceDefinition>) -> (r: Result<ProvinceMapData, MapError>)
    requires
        forall|k: int| 0 <= k < definitions@.len() ==> (#[trigger] definitions@[k]).id < usize::MAX,
    ensures
        r is Ok <==> raster_decodes(raster@),
        r is Err ==> r == Err::<ProvinceMapData, MapError>(MapError::FormatError),
        r matches Ok(data) ==> map_data_of(data, raster@, definitions@),
{
    let h = match parse_raster_header(raster) {
        Ok(h) => h,
        Err(e) => return Err(e),
    };
    let color_lut = build_color_lut(definitions.as_slice());
    let province_ids = match decode_province_ids(raster, h, &color_lut) {
        Ok(ids) => ids,
        Err(e) => return Err(e),
    };
    proof {
        assert forall|i: int| 0 <= i < province_ids@.len() implies #[trigger] province_ids@[i]
            == raster_id(raster@, h, definitions@, i % (h.width as int), i / (h.width as int)) by {
            let c = stored_color(raster@, h, i % (h.width as int), i / (h.width as int));
            assert(0 <= c < COLOR_SPACE);
            assert(color_lut@[c] == color_owner(definitions@, c));
        }
    }
    let max_id = max_province_id(&definitions);
    proof {
        if definitions@.len() > 0 {
            let k = choose|k: int| 0 <= k < definitions@.len() && (#[trigger] definitions@[k]).id == max_id;
            assert(definitions@[k].id < usize::MAX);
        }
    }
    let size: usize = max_id as usize + 1;
    let bounds = compute_province_bounds(h.width, h.height, &province_ids, size);
    let counts = count_pixels(&province_ids, size);
    let ghost defs = definitions@;
    let mut definitions = definitions;
    let mut instances: Vec<ProvinceInstance> = Vec::new();
    let ghost n = defs.len();
    while definitions.len() > 0
        invariant
            defs.len() == n,
            definitions@.len() <= n,
            definitions@ == defs.subrange(n - definitions@.len(), n as int),
            is_max_id(defs, max_id),
            size == max_id + 1,
            bounds@.len() == size,
            counts@.len() == size,
            forall|id: u32| (id as int) < size ==> bounds_entry_ok(province_ids@, h.width as int, province_ids@.len() as int, id, #[trigger] bounds@[id as int]),
            forall|id: u32| (id as int) < size ==> #[trigger] counts@[id as int] == if id == 0 { 0 } else { count_id(province_ids@, id) },
            instances@.len() == n - definitions@.len(),
            forall|k: int| 0 <= k < instances@.len() ==> {
                let inst = #[trigger] instances@[k];
                &&& inst.definition == defs[k]
                &&& bounds_entry_ok(province_ids@, h.width as int, province_ids@.len() as int, defs[k].id, inst.bounding_box)
                &&& inst.pixels_count == if defs[k].id == 0 { 0 } else { count_id(province_ids@, defs[k].id) }
            },
        decreases definitions@.len(),
    {
        let ghost k = n - definitions@.len();
        assert(definitions@[0] == defs[k]);
        let d = definitions.remove(0);
        let idx = d.id as usize;
        assert(defs[k].id <= max_id);
        let bb = bounds[idx];
        let cnt = counts[idx];
        instances.push(ProvinceInstance { definition: d, bounding_box: bb, pixels_count: cnt });
        assert(definitions@ =~= defs.subrange(n - definitions@.len(), n as int));
    }
    let edges = detect_edges(h.width, h.height, &province_ids);
    Ok(ProvinceMapData { width: h.width, height: h.height, province_ids, instances, edges })
}

/// The little-endian bytes of `ids`, four per id.
pub open spec fn le_bytes_ok(ids: Seq<u32>, out: Seq<u8>) -> bool {
    &&& out.len() == 4 * ids.len()
    &&& forall|j: int| 0 <= j < out.len() ==> #[trigger] out[j] == (ids[j / 4] as int / pow256(j % 4)) % 256
}

/// `256` to the power `k`, for `k < 4`.
pub open spec fn pow256(k: int) -> int {
    if k == 0 { 1 } else if k == 1 { 256 } else if k == 2 { 65536 } else { 16777216 }
}

/// The province ids of a raster as little-endian bytes; fails with
/// `FormatError` exactly when the raster does not decode.
pub fn get_province_map_binary(raster: &[u8], definitions: &Vec<ProvinceDefinition>) -> (r: Result<Vec<u8>, MapError>)
    ensures
        r is Ok <==> raster_decodes(raster@),
        r is Err ==> r == Err::<Vec<u8>, MapError>(MapError::FormatError),
        r matches Ok(out) ==> {
            let h = header_of(raster@);
            exists|ids: Seq<u32>| {
                &&& ids.len() == h.width * h.height
                &&& (forall|i: int| 0 <= i < ids.len() ==> #[trigger] ids[i] == raster_id(raster@, h, definitions@, i % (h.width as int), i / (h.width as int)))
                &&& le_bytes_ok(ids, out@)
            }
        },
{
    let h = match parse_raster_header(raster) {
        Ok(h) => h,
        Err(e) => return Err(e),
    };
    let color_lut = build_color_lut(definitions.as_slice());
    let ids = match decode_province_ids(raster, h, &color_lut) {
        Ok(ids) => ids,
        Err(e) => return Err(e),
    };
    proof {
        assert forall|i: int| 0 <= i < ids@.len() implies #[trigger] ids@[i]
            == raster_id(raster@, h, definitions@, i % (h.width as int), i / (h.width as int)) by {
            let c = stored_color(raster@, h, i % (h.width as int), i / (h.width as int));
            assert(0 <= c < COLOR_SPACE);
            assert(color_lut@[c] == color_owner(definitions@, c));
        }
    }
    let mut out: Vec<u8> = Vec::new();
    let mut k: usize = 0;
    while k < ids.len()
        invariant
            k <= ids@.len(),
            out@.len() == 4 * k,
            forall|j: int| 0 <= j < out@.len() ==> #[trigger] out@[j] == (ids@[j / 4] as int / pow256(j % 4)) % 256,
        decreases ids@.len() - k,
    {
        let v = ids[k];
        let ghost before = out@;
        out.push((v % 256) as u8);
        out.push(((v / 256) % 256) as u8);
        out.push(((v / 65536) % 256) as u8);
        out.push(((v / 16777216) % 256) as u8);
        assert forall|j: int| 0 <= j < out@.len() implies #[trigger] out@[j] == (ids@[j / 4] as int / pow256(j % 4)) % 256 by {
            if j < 4 * k {
                assert(out@[j] == before[j]);
            } else {
                vstd::arithmetic::div_mod::lemma_fundamental_div_mod_converse(j, 4, k as int, j - 4 * k);
            }
        }
        k = k + 1;
    }
    Ok(out)
}

} // verus!
