use vstd::prelude::*;

verus! {

/// Inclusive pixel-space rectangle.
#[derive(Debug, Clone, Copy, PartialEq, Eq, Structural)]
pub struct BoundingBox {
    pub min_x: u32,
    pub min_y: u32,
    pub max_x: u32,
    pub max_y: u32,
}

/// Whether `bb` is the smallest box holding every pixel among the first `n`
/// of the row-major raster `ids` (rows of `w` pixels) whose id is `id`.
pub open spec fn bounds_exact(ids: Seq<u32>, w: int, n: int, id: u32, bb: BoundingBox) -> bool {
    &&& forall|j: int|
        0 <= j < n && #[trigger] ids[j] == id ==> bb.min_x <= j % w <= bb.max_x && bb.min_y <= j / w
            <= bb.max_y
    &&& exists|j: int| 0 <= j < n && #[trigger] ids[j] == id && j % w == bb.min_x
    &&& exists|j: int| 0 <= j < n && #[trigger] ids[j] == id && j % w == bb.max_x
    &&& exists|j: int| 0 <= j < n && #[trigger] ids[j] == id && j / w == bb.min_y
    &&& exists|j: int| 0 <= j < n && #[trigger] ids[j] == id && j / w == bb.max_y
}

/// Whether the box entry `e` of `id` is right for the first `n` pixels: a
/// box exactly when `id` is not the background 0 and has a pixel there.
pub open spec fn bounds_entry_ok(ids: Seq<u32>, w: int, n: int, id: u32, e: Option<BoundingBox>) -> bool {
    match e {
        None => id == 0 || forall|j: int| 0 <= j < n ==> #[trigger] ids[j] != id,
        Some(bb) => id != 0 && bounds_exact(ids, w, n, id, bb),
    }
}

/// Computes, for every id below `lut_size`, the bounding box of its pixels in
/// the row-major raster `ids` of width `width`; ids without pixels and the
/// background id 0 get no box.
pub fn compute_province_bounds(width: u32, height: u32, ids: &Vec<u32>, lut_size: usize) -> (r: Vec<Option<BoundingBox>>)
    requires
        ids@.len() == width * height,
    ensures
        r@.len() == lut_size,
        forall|id: u32| (id as int) < lut_size ==> bounds_entry_ok(ids@, width as int, ids@.len() as int, id, #[trigger] r@[id as int]),
{
    let mut r: Vec<Option<BoundingBox>> = Vec::new();
    let mut t: usize = 0;
    while t < lut_size
        invariant
            t <= lut_size,
            r@.len() == t,
            forall|id: int| 0 <= id < t ==> #[trigger] r@[id] == None::<BoundingBox>,
        decreases lut_size - t,
    {
        r.push(None);
        t = t + 1;
    }
    let n = ids.len();
    if n == 0 {
        return r;
    }
    proof {
        if width == 0 {
            assert(width * height == 0);
        }
    }
    let w = width as usize;
    let mut k: usize = 0;
    let mut x: u32 = 0;
    let mut y: u32 = 0;
    while k < n
        invariant
            w == width,
            w > 0,
            n == ids@.len(),
            ids@.len() == width * height,
            k <= n,
            x < w,
            k == y * w + x,
            r@.len() == lut_size,
            forall|id: u32| (id as int) < lut_size ==> bounds_entry_ok(ids@, w as int, k as int, id, #[trigger] r@[id as int]),
        decreases n - k,
    {
        proof {
            vstd::arithmetic::div_mod::lemma_fundamental_div_mod_converse(k as int, w as int, y as int, x as int);
        }
        let ghost old_r = r;
        let p = ids[k];
        let pu = p as usize;
        if p > 0 && pu < lut_size {
            let e = match r[pu] {
                None => BoundingBox { min_x: x, min_y: y, max_x: x, max_y: y },
                Some(bb) => BoundingBox {
                    min_x: if x < bb.min_x { x } else { bb.min_x },
                    min_y: if y < bb.min_y { y } else { bb.min_y },
                    max_x: if x > bb.max_x { x } else { bb.max_x },
                    max_y: if y > bb.max_y { y } else { bb.max_y },
                },
            };
            r.set(pu, Some(e));
        }
        proof {
            let ki = k as int;
            let wi = w as int;
            assert(ki % wi == x && ki / wi == y);
            assert forall|id: u32| (id as int) < lut_size implies bounds_entry_ok(ids@, wi, ki + 1, id, #[trigger] r@[id as int]) by {
                let old_e = old_r@[id as int];
                assert(bounds_entry_ok(ids@, wi, ki, id, old_e));
                if id == p && p > 0 && (pu as int) < lut_size {
                    let bb = r@[id as int]->Some_0;
                    match old_e {
                        None => {
                            assert(ids@[ki] == id);
                        },
                        Some(ob) => {
                            if x < ob.min_x { assert(ids@[ki] == id); }
                            if x > ob.max_x { assert(ids@[ki] == id); }
                            if y < ob.min_y { assert(ids@[ki] == id); }
                            if y > ob.max_y { assert(ids@[ki] == id); }
                            let j1 = choose|j: int| 0 <= j < ki && #[trigger] ids@[j] == id && j % wi == ob.min_x;
                            let j2 = choose|j: int| 0 <= j < ki && #[trigger] ids@[j] == id && j % wi == ob.max_x;
                            let j3 = choose|j: int| 0 <= j < ki && #[trigger] ids@[j] == id && j / wi == ob.min_y;
                            let j4 = choose|j: int| 0 <= j < ki && #[trigger] ids@[j] == id && j / wi == ob.max_y;
                            assert(ids@[j1] == id && ids@[j2] == id && ids@[j3] == id && ids@[j4] == id);
                        },
                    }
                } else {
                    assert(r@[id as int] == old_e);
                    match old_e {
                        None => {},
                        Some(ob) => {
                            let j1 = choose|j: int| 0 <= j < ki && #[trigger] ids@[j] == id && j % wi == ob.min_x;
                            let j2 = choose|j: int| 0 <= j < ki && #[trigger] ids@[j] == id && j % wi == ob.max_x;
                            let j3 = choose|j: int| 0 <= j < ki && #[trigger] ids@[j] == id && j / wi == ob.min_y;
                            let j4 = choose|j: int| 0 <= j < ki && #[trigger] ids@[j] == id && j / wi == ob.max_y;
                            assert(ids@[j1] == id && ids@[j2] == id && ids@[j3] == id && ids@[j4] == id);
                        },
                    }
                }
            }
        }
        k = k + 1;
        if x + 1 < width {
            x = x + 1;
        } else {
            proof {
                assert(k == (y + 1) * w) by (nonlinear_arith) requires k == y * w + x + 1, x + 1 == w;
                assert(y + 1 <= height) by (nonlinear_arith)
                    requires k == (y + 1) * w, k <= n, n == w * height, w > 0;
            }
            x = 0;
            y = y + 1;
        }
    }
    r
}

} // verus!
