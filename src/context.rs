use vstd::prelude::*;
use crate::definitions::{ProvinceDefinition, StateDefinition};
use crate::error::MapError;
use crate::raster::{
    RasterHeader, header_ok, header_of, pixels_fit, stored_color, color_owner, build_color_lut,
    decode_province_ids, parse_raster_header, COLOR_SPACE,
};
use crate::render::{RGBColor, RenderLuts, luts_ok, build_render_luts};
use crate::spatial::{BoundingBox, bounds_entry_ok, compute_province_bounds};

verus! {

/// The assembled world snapshot: raster, definitions, states, owner colors,
/// the four render tables and the per-province bounding boxes.
pub struct MapContext {
    pub width: u32,
    pub height: u32,
    pub province_ids: Vec<u32>,
    pub definitions: Vec<ProvinceDefinition>,
    pub states: Vec<StateDefinition>,
    pub country_colors: Vec<(String, RGBColor)>,
    pub province_color_lut: Vec<RGBColor>,
    pub state_color_lut: Vec<RGBColor>,
    pub country_color_lut: Vec<RGBColor>,
    pub terrain_color_lut: Vec<RGBColor>,
    pub province_bounds: Vec<Option<BoundingBox>>,
}

/// Cheap status projection of a map.
#[derive(Debug, Clone, Copy, PartialEq, Eq, Structural)]
pub struct MapMetadata {
    pub width: u32,
    pub height: u32,
    pub province_count: usize,
}

/// The largest id among `defs`, or 0 when there is none.
pub open spec fn is_max_id(defs: Seq<ProvinceDefinition>, m: u32) -> bool {
    &&& forall|k: int| 0 <= k < defs.len() ==> (#[trigger] defs[k]).id <= m
    &&& (defs.len() == 0 ==> m == 0)
    &&& (defs.len() > 0 ==> exists|k: int| 0 <= k < defs.len() && (#[trigger] defs[k]).id == m)
}

/// Largest province id among the definitions, 0 for none.
pub fn max_province_id(defs: &Vec<ProvinceDefinition>) -> (m: u32)
    ensures
        is_max_id(defs@, m),
{
    let mut m: u32 = 0;
    let mut k: usize = 0;
    while k < defs.len()
        invariant
            k <= defs@.len(),
            forall|j: int| 0 <= j < k ==> (#[trigger] defs@[j]).id <= m,
            k == 0 ==> m == 0,
            k > 0 ==> exists|j: int| 0 <= j < k && (#[trigger] defs@[j]).id == m,
        decreases defs@.len() - k,
    {
        if k == 0 || defs[k].id > m {
            m = defs[k].id;
            assert(defs@[k as int].id == m);
        }
        k = k + 1;
    }
    m
}

proof fn lemma_color_owner_bounded(defs: Seq<ProvinceDefinition>, c: int, m: u32)
    requires
        forall|k: int| 0 <= k < defs.len() ==> (#[trigger] defs[k]).id <= m,
    ensures
        color_owner(defs, c) <= m,
    decreases defs.len(),
{
    if defs.len() > 0 {
        assert(defs[defs.len() - 1].id <= m);
        assert forall|k: int| 0 <= k < defs.drop_last().len() implies (#[trigger] defs.drop_last()[k]).id <= m by {
            assert(defs.drop_last()[k] == defs[k]);
        }
        lemma_color_owner_bounded(defs.drop_last(), c, m);
    }
}

/// Province id of raster pixel `(x, y)`: the last definition of its stored color, or 0.
pub open spec fn raster_id(b: Seq<u8>, h: RasterHeader, defs: Seq<ProvinceDefinition>, x: int, y: int) -> u32 {
    color_owner(defs, stored_color(b, h, x, y))
}

impl MapContext {
    /// Number of entries of each per-id table.
    pub open spec fn lut_size(&self) -> int {
        self.province_bounds@.len() as int
    }

    /// The invariant of an assembled map.
    pub open spec fn wf(&self) -> bool {
        &&& self.province_ids@.len() == self.width * self.height
        &&& self.province_ids@.len() <= usize::MAX
        &&& exists|m: u32| is_max_id(self.definitions@, m) && self.lut_size() == m + 1
        &&& forall|i: int| 0 <= i < self.province_ids@.len() ==> (#[trigger] self.province_ids@[i]) < self.lut_size()
        &&& luts_ok(self.luts_view(), self.definitions@, self.states@, self.country_colors@, self.lut_size())
        &&& forall|id: u32| (id as int) < self.lut_size() ==> bounds_entry_ok(self.province_ids@, self.width as int,
            self.province_ids@.len() as int, id, #[trigger] self.province_bounds@[id as int])
    }

    /// The four render tables together.
    pub open spec fn luts_view(&self) -> RenderLuts {
        RenderLuts {
            province: self.province_color_lut,
            state: self.state_color_lut,
            country: self.country_color_lut,
            terrain: self.terrain_color_lut,
        }
    }
}

/// Whether `ctx` is the map assembled from raster bytes `b` and the given data.
pub open spec fn assembled_from(
    ctx: MapContext,
    b: Seq<u8>,
    defs: Seq<ProvinceDefinition>,
    states: Seq<StateDefinition>,
    colors: Seq<(String, RGBColor)>,
) -> bool {
    let h = header_of(b);
    &&& ctx.wf()
    &&& ctx.width == h.width
    &&& ctx.height == h.height
    &&& ctx.definitions@ == defs
    &&& ctx.states@ == states
    &&& ctx.country_colors@ == colors
    &&& forall|i: int| 0 <= i < ctx.province_ids@.len() ==> #[trigger] ctx.province_ids@[i]
        == raster_id(b, h, defs, i % (h.width as int), i / (h.width as int))
}

/// Whether raster bytes `b` decode: a valid header and every pixel row present.
pub open spec fn raster_decodes(b: Seq<u8>) -> bool {
    header_ok(b) && pixels_fit(b, header_of(b))
}

/// Assembles a map from raster bytes, definitions, states and owner colors;
/// fails with `FormatError` exactly when the raster does not decode.
pub fn build_map_context(
    raster: &[u8],
    definitions: Vec<ProvinceDefinition>,
    states: Vec<StateDefinition>,
    country_colors: Vec<(String, RGBColor)>,
) -> (r: Result<MapContext, MapError>)
    requires
        forall|k: int| 0 <= k < definitions@.len() ==> (#[trigger] definitions@[k]).id < usize::MAX,
    ensures
        r is Ok <==> raster_decodes(raster@),
        r is Err ==> r == Err::<MapContext, MapError>(MapError::FormatError),
        r matches Ok(ctx) ==> assembled_from(ctx, raster@, definitions@, states@, country_colors@),
{
    let h = match parse_raster_header(raster) {
        Ok(h) => h,
        Err(e) => return Err(e),
    };
    let color_lut = build_color_lut(definitions.as_slice());
    let province_ids = match decode_province_ids(raster, h, &color_lut) {
        Ok(ids) => ids,
        Err(e) => return Err(e),
    };
    let max_id = max_province_id(&definitions);
    proof {
        if definitions@.len() > 0 {
            let k = choose|k: int| 0 <= k < definitions@.len() && (#[trigger] definitions@[k]).id == max_id;
            assert(definitions@[k].id < usize::MAX);
        }
    }
    let size: usize = max_id as usize + 1;
    proof {
        assert forall|i: int| 0 <= i < province_ids@.len() implies #[trigger] province_ids@[i]
            == raster_id(raster@, h, definitions@, i % (h.width as int), i / (h.width as int)) by {
            let c = stored_color(raster@, h, i % (h.width as int), i / (h.width as int));
            assert(0 <= c < COLOR_SPACE);
            assert(color_lut@[c] == color_owner(definitions@, c));
        }
        assert forall|i: int| 0 <= i < province_ids@.len() implies (#[trigger] province_ids@[i]) < size by {
            let c = stored_color(raster@, h, i % (h.width as int), i / (h.width as int));
            lemma_color_owner_bounded(definitions@, c, max_id);
        }
    }
    let luts = build_render_luts(&definitions, &states, &country_colors, size);
    let bounds = compute_province_bounds(h.width, h.height, &province_ids, size);
    let ctx = MapContext {
        width: h.width,
        height: h.height,
        province_ids,
        definitions,
        states,
        country_colors,
        province_color_lut: luts.province,
        state_color_lut: luts.state,
        country_color_lut: luts.country,
        terrain_color_lut: luts.terrain,
        province_bounds: bounds,
    };
    assert(ctx.luts_view() == luts);
    assert(is_max_id(ctx.definitions@, max_id) && ctx.lut_size() == max_id + 1);
    Ok(ctx)
}

/// Installs a freshly assembled map in `slot`, replacing the previous one; on
/// failure the slot keeps what it held.
pub fn initialize_map_context(
    slot: &mut Option<MapContext>,
    raster: &[u8],
    definitions: Vec<ProvinceDefinition>,
    states: Vec<StateDefinition>,
    country_colors: Vec<(String, RGBColor)>,
) -> (r: Result<MapMetadata, MapError>)
    requires
        forall|k: int| 0 <= k < definitions@.len() ==> (#[trigger] definitions@[k]).id < usize::MAX,
    ensures
        r is Ok <==> raster_decodes(raster@),
        r is Err ==> r == Err::<MapMetadata, MapError>(MapError::FormatError) && *final(slot) == *old(slot),
        r matches Ok(md) ==> {
            &&& *final(slot) matches Some(ctx)
            &&& assembled_from(ctx, raster@, definitions@, states@, country_colors@)
            &&& md == (MapMetadata { width: ctx.width, height: ctx.height, province_count: ctx.province_ids@.len() as usize })
        },
{
    match build_map_context(raster, definitions, states, country_colors) {
        Ok(ctx) => {
            let md = MapMetadata { width: ctx.width, height: ctx.height, province_count: ctx.province_ids.len() };
            *slot = Some(ctx);
            Ok(md)
        },
        Err(e) => Err(e),
    }
}

} // verus!
