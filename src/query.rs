use vstd::prelude::*;
use crate::context::{MapContext, MapMetadata};
use crate::definitions::StateDefinition;
use crate::error::MapError;
use crate::outline::{is_outline, is_outline_pixel, in_set, id_at, scan_outline, lemma_index};
use crate::spatial::{BoundingBox, bounds_exact, bounds_entry_ok};

verus! {

/// Status of the installed map: fails with `NotInitialized` when there is none.
pub fn get_map_metadata(slot: &Option<MapContext>) -> (r: Result<MapMetadata, MapError>)
    ensures
        slot is None ==> r == Err::<MapMetadata, MapError>(MapError::NotInitialized),
        slot matches Some(ctx) ==> r == Ok::<MapMetadata, MapError>(MapMetadata {
            width: ctx.width,
            height: ctx.height,
            province_count: ctx.province_ids@.len() as usize,
        }),
{
    match slot {
        None => Err(MapError::NotInitialized),
        Some(ctx) => Ok(MapMetadata { width: ctx.width, height: ctx.height, province_count: ctx.province_ids.len() }),
    }
}

/// The province id at pixel `(x, y)`, `None` outside the raster.
pub fn get_province_at_point(slot: &Option<MapContext>, x: u32, y: u32) -> (r: Result<Option<u32>, MapError>)
    requires
        slot matches Some(ctx) ==> ctx.wf(),
    ensures
        slot is None ==> r == Err::<Option<u32>, MapError>(MapError::NotInitialized),
        slot matches Some(ctx) ==> r == Ok::<Option<u32>, MapError>(
            if x < ctx.width && y < ctx.height {
                Some(id_at(ctx.province_ids@, ctx.width as int, x as int, y as int))
            } else {
                None
            },
        ),
{
    match slot {
        None => Err(MapError::NotInitialized),
        Some(ctx) => {
            if x >= ctx.width || y >= ctx.height {
                return Ok(None);
            }
            proof {
                lemma_index(ctx.width as int, ctx.height as int, x as int, y as int);
            }
            let idx: usize = (y as usize) * (ctx.width as usize) + (x as usize);
            Ok(Some(ctx.province_ids[idx]))
        },
    }
}

proof fn lemma_box_in_raster(ids: Seq<u32>, w: int, h: int, id: u32, bb: BoundingBox)
    requires
        w >= 0,
        h >= 0,
        ids.len() == w * h,
        bounds_exact(ids, w, ids.len() as int, id, bb),
    ensures
        bb.max_x < w,
        bb.max_y < h,
        bb.min_x <= bb.max_x,
        bb.min_y <= bb.max_y,
        forall|x: int, y: int| 0 <= x < w && 0 <= y < h && #[trigger] id_at(ids, w, x, y) == id ==>
            bb.min_x <= x <= bb.max_x && bb.min_y <= y <= bb.max_y,
{
    let j = choose|j: int| 0 <= j < ids.len() && #[trigger] ids[j] == id && j % w == bb.max_x;
    let j2 = choose|j: int| 0 <= j < ids.len() && #[trigger] ids[j] == id && j / w == bb.max_y;
    assert(w > 0) by (nonlinear_arith) requires ids.len() == w * h, 0 <= j < ids.len(), h >= 0;
    vstd::arithmetic::div_mod::lemma_fundamental_div_mod(j2, w);
    assert(j2 / w < h) by (nonlinear_arith)
        requires j2 == w * (j2 / w) + j2 % w, 0 <= j2 % w, j2 < w * h, w > 0;
    assert(ids[j] == id);
    assert forall|x: int, y: int| 0 <= x < w && 0 <= y < h && #[trigger] id_at(ids, w, x, y) == id implies
        bb.min_x <= x <= bb.max_x && bb.min_y <= y <= bb.max_y by {
        lemma_index(w, h, x, y);
        assert(ids[y * w + x] == id);
    }
}

/// The outline pixels of province `province_id`: fails with `NotFound` when
/// the id has no pixel on the map.
pub fn get_province_outline(slot: &Option<MapContext>, province_id: u32) -> (r: Result<Vec<(u32, u32)>, MapError>)
    requires
        slot matches Some(ctx) ==> ctx.wf(),
    ensures
        slot is None ==> r == Err::<Vec<(u32, u32)>, MapError>(MapError::NotInitialized),
        slot matches Some(ctx) ==> {
            let found = (province_id as int) < ctx.lut_size() && ctx.province_bounds@[province_id as int] is Some;
            &&& !found ==> r == Err::<Vec<(u32, u32)>, MapError>(MapError::NotFound)
            &&& found ==> (r matches Ok(v) && is_outline(ctx.province_ids@, ctx.width as int, ctx.height as int, seq![province_id], v@))
        },
{
    match slot {
        None => Err(MapError::NotInitialized),
        Some(ctx) => {
            let pu = province_id as usize;
            if pu >= ctx.province_bounds.len() {
                return Err(MapError::NotFound);
            }
            match ctx.province_bounds[pu] {
                None => Err(MapError::NotFound),
                Some(bb) => {
                    let members: Vec<u32> = vec![province_id];
                    let ghost w = ctx.width as int;
                    let ghost h = ctx.height as int;
                    proof {
                        assert(bounds_entry_ok(ctx.province_ids@, w, ctx.province_ids@.len() as int, province_id,
                            ctx.province_bounds@[province_id as int]));
                        lemma_box_in_raster(ctx.province_ids@, w, h, province_id, bb);
                        assert(members@ =~= seq![province_id]);
                        assert forall|x: int, y: int| 0 <= x < w && 0 <= y < h && in_set(members@, #[trigger] id_at(ctx.province_ids@, w, x, y))
                            implies bb.min_x <= x <= bb.max_x && bb.min_y <= y <= bb.max_y by {
                            let q = choose|q: int| 0 <= q < members@.len() && members@[q] == id_at(ctx.province_ids@, w, x, y);
                            assert(members@[0] == province_id);
                        }
                    }
                    let v = scan_outline(ctx.width, ctx.height, &ctx.province_ids, &members, bb);
                    Ok(v)
                },
            }
        },
    }
}

} // verus!

verus! {

/// The last state in `states` with id `id`.
pub open spec fn state_with_id(states: Seq<StateDefinition>, id: u32) -> Option<StateDefinition>
    decreases states.len(),
{
    if states.len() == 0 {
        None
    } else if states.last().id == id {
        Some(states.last())
    } else {
        state_with_id(states.drop_last(), id)
    }
}

fn find_state(states: &Vec<StateDefinition>, id: u32) -> (r: Option<usize>)
    ensures
        r is None ==> state_with_id(states@, id) is None,
        r matches Some(k) ==> k < states@.len() && state_with_id(states@, id) == Some(states@[k as int]),
{
    let mut found: Option<usize> = None;
    let mut k: usize = 0;
    while k < states.len()
        invariant
            k <= states@.len(),
            found is None ==> state_with_id(states@.take(k as int), id) is None,
            found matches Some(j) ==> j < k && state_with_id(states@.take(k as int), id) == Some(states@[j as int]),
        decreases states@.len() - k,
    {
        if states[k].id == id {
            found = Some(k);
        }
        assert(states@.take(k as int + 1).drop_last() =~= states@.take(k as int));
        k = k + 1;
    }
    assert(states@.take(states@.len() as int) =~= states@);
    found
}

/// The outline pixels of state `state_id`, the union of its provinces: fails
/// with `NotFound` when no state has that id.
pub fn get_state_outline(slot: &Option<MapContext>, state_id: u32) -> (r: Result<Vec<(u32, u32)>, MapError>)
    requires
        slot matches Some(ctx) ==> ctx.wf(),
    ensures
        slot is None ==> r == Err::<Vec<(u32, u32)>, MapError>(MapError::NotInitialized),
        slot matches Some(ctx) ==> match state_with_id(ctx.states@, state_id) {
            None => r == Err::<Vec<(u32, u32)>, MapError>(MapError::NotFound),
            Some(s) => r matches Ok(v) && is_outline(ctx.province_ids@, ctx.width as int, ctx.height as int, s.provinces@, v@),
        },
{
    let ctx = match slot {
        None => return Err(MapError::NotInitialized),
        Some(ctx) => ctx,
    };
    let k = match find_state(&ctx.states, state_id) {
        None => return Err(MapError::NotFound),
        Some(k) => k,
    };
    let members = &ctx.states[k].provinces;
    let ghost ids = ctx.province_ids@;
    let ghost w = ctx.width as int;
    let ghost h = ctx.height as int;
    let size = ctx.province_bounds.len();
    let mut any = false;
    let mut ub = BoundingBox { min_x: u32::MAX, min_y: u32::MAX, max_x: 0, max_y: 0 };
    let mut q: usize = 0;
    while q < members.len()
        invariant
            ctx.wf(),
            ids == ctx.province_ids@,
            w == ctx.width,
            h == ctx.height,
            size == ctx.lut_size(),
            q <= members@.len(),
            any ==> ub.max_x < w && ub.max_y < h,
            !any ==> ub.max_x == 0 && ub.max_y == 0,
            forall|p: int| 0 <= p < q && (members@[p] as int) < size && #[trigger] ctx.province_bounds@[members@[p] as int] is Some ==> {
                let bb = ctx.province_bounds@[members@[p] as int]->Some_0;
                any && ub.min_x <= bb.min_x && bb.max_x <= ub.max_x && ub.min_y <= bb.min_y && bb.max_y <= ub.max_y
            },
        decreases members@.len() - q,
    {
        let m = members[q];
        let mu = m as usize;
        if mu < size {
            if let Some(bb) = ctx.province_bounds[mu] {
                proof {
                    assert(bounds_entry_ok(ids, w, ids.len() as int, m, ctx.province_bounds@[m as int]));
                    lemma_box_in_raster(ids, w, h, m, bb);
                }
                ub = BoundingBox {
                    min_x: if bb.min_x < ub.min_x { bb.min_x } else { ub.min_x },
                    min_y: if bb.min_y < ub.min_y { bb.min_y } else { ub.min_y },
                    max_x: if bb.max_x > ub.max_x { bb.max_x } else { ub.max_x },
                    max_y: if bb.max_y > ub.max_y { bb.max_y } else { ub.max_y },
                };
                any = true;
            }
        }
        q = q + 1;
    }
    proof {
        assert forall|x: int, y: int| 0 <= x < w && 0 <= y < h && in_set(members@, #[trigger] id_at(ids, w, x, y))
            implies any && ub.min_x <= x <= ub.max_x && ub.min_y <= y <= ub.max_y by {
            let id = id_at(ids, w, x, y);
            let p = choose|p: int| 0 <= p < members@.len() && members@[p] == id;
            lemma_index(w, h, x, y);
            assert(ids[y * w + x] == id);
            assert((id as int) < size);
            assert(bounds_entry_ok(ids, w, ids.len() as int, id, ctx.province_bounds@[id as int]));
            let bb = ctx.province_bounds@[id as int]->Some_0;
            lemma_box_in_raster(ids, w, h, id, bb);
        }
    }
    if !any {
        let v: Vec<(u32, u32)> = Vec::new();
        proof {
            assert forall|x: int, y: int| #[trigger] is_outline_pixel(ids, w, h, members@, x, y) implies v@.contains((x as u32, y as u32)) by {
                assert(in_set(members@, id_at(ids, w, x, y)));
            }
        }
        return Ok(v);
    }
    let v = scan_outline(ctx.width, ctx.height, &ctx.province_ids, members, ub);
    Ok(v)
}

} // verus!
