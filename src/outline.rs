use vstd::prelude::*;
use crate::spatial::BoundingBox;

verus! {

/// Id of pixel `(x, y)` of the row-major raster `ids` with rows of `w` pixels.
pub open spec fn id_at(ids: Seq<u32>, w: int, x: int, y: int) -> u32 {
    ids[y * w + x]
}

/// Whether `id` is one of the provinces in `members`; the background id 0
/// never is.
pub open spec fn in_set(members: Seq<u32>, id: u32) -> bool {
    id != 0 && members.contains(id)
}

/// Whether `(x, y)` is an outline pixel of the province set `members` on a
/// `w` by `h` raster: it belongs to the set and lies on the raster border or
/// has a 4-neighbor outside the set.
pub open spec fn is_outline_pixel(ids: Seq<u32>, w: int, h: int, members: Seq<u32>, x: int, y: int) -> bool {
    &&& 0 <= x < w
    &&& 0 <= y < h
    &&& in_set(members, id_at(ids, w, x, y))
    &&& {
        ||| y == 0
        ||| y == h - 1
        ||| x == 0
        ||| x == w - 1
        ||| !in_set(members, id_at(ids, w, x, y - 1))
        ||| !in_set(members, id_at(ids, w, x, y + 1))
        ||| !in_set(members, id_at(ids, w, x - 1, y))
        ||| !in_set(members, id_at(ids, w, x + 1, y))
    }
}

/// Whether the list `r` holds exactly the outline pixels of `members`, each once.
pub open spec fn is_outline(ids: Seq<u32>, w: int, h: int, members: Seq<u32>, r: Seq<(u32, u32)>) -> bool {
    &&& forall|k: int| 0 <= k < r.len() ==> is_outline_pixel(ids, w, h, members, #[trigger] r[k].0 as int, r[k].1 as int)
    &&& forall|x: int, y: int| #[trigger] is_outline_pixel(ids, w, h, members, x, y) ==> r.contains((x as u32, y as u32))
    &&& r.no_duplicates()
}

/// Whether the box `bb` lies in the raster and holds every pixel of the set.
pub open spec fn box_covers(ids: Seq<u32>, w: int, h: int, members: Seq<u32>, bb: BoundingBox) -> bool {
    &&& bb.max_x < w
    &&& bb.max_y < h
    &&& forall|x: int, y: int|
        0 <= x < w && 0 <= y < h && in_set(members, #[trigger] id_at(ids, w, x, y)) ==> bb.min_x <= x <= bb.max_x
            && bb.min_y <= y <= bb.max_y
}

pub proof fn lemma_index(w: int, h: int, x: int, y: int)
    requires
        0 <= x < w,
        0 <= y < h,
    ensures
        0 <= y * w + x < w * h,
        (y * w + x) % w == x,
        (y * w + x) / w == y,
{
    assert(0 <= y * w + x < w * h) by (nonlinear_arith)
        requires 0 <= x < w, 0 <= y < h;
    vstd::arithmetic::div_mod::lemma_fundamental_div_mod_converse(y * w + x, w, y, x);
}

fn member(members: &Vec<u32>, id: u32) -> (r: bool)
    ensures
        r == in_set(members@, id),
{
    if id == 0 {
        return false;
    }
    let mut k: usize = 0;
    while k < members.len()
        invariant
            k <= members@.len(),
            id != 0,
            forall|j: int| 0 <= j < k ==> members@[j] != id,
        decreases members@.len() - k,
    {
        if members[k] == id {
            assert(members@[k as int] == id);
            assert(members@.contains(id));
            return true;
        }
        k = k + 1;
    }
    false
}

/// Scans the box `bb` row by row and lists the outline pixels of `members`.
pub fn scan_outline(width: u32, height: u32, ids: &Vec<u32>, members: &Vec<u32>, bb: BoundingBox) -> (r: Vec<(u32, u32)>)
    requires
        ids@.len() == width * height,
        box_covers(ids@, width as int, height as int, members@, bb),
    ensures
        is_outline(ids@, width as int, height as int, members@, r@),
{
    let ghost wi = width as int;
    let ghost hi = height as int;
    let w = width as usize;
    let mut r: Vec<(u32, u32)> = Vec::new();
    if bb.min_y > bb.max_y || bb.min_x > bb.max_x {
        assert forall|x: int, y: int| #[trigger] is_outline_pixel(ids@, wi, hi, members@, x, y) implies r@.contains((x as u32, y as u32)) by {}
        return r;
    }
    let n: usize = ids.len();
    let mut y: u32 = bb.min_y;
    while y <= bb.max_y
        invariant
            w == width,
            ids@.len() == width * height,
            ids@.len() <= usize::MAX,
            box_covers(ids@, wi, hi, members@, bb),
            wi == width,
            hi == height,
            bb.min_y <= y <= bb.max_y + 1,
            bb.min_x <= bb.max_x,
            forall|k: int| 0 <= k < r@.len() ==> is_outline_pixel(ids@, wi, hi, members@, #[trigger] r@[k].0 as int, r@[k].1 as int),
            forall|k: int| 0 <= k < r@.len() ==> (#[trigger] r@[k]).1 < y,
            forall|xx: int, yy: int|
                #[trigger] is_outline_pixel(ids@, wi, hi, members@, xx, yy) && yy < y ==> r@.contains((xx as u32, yy as u32)),
            r@.no_duplicates(),
        decreases bb.max_y + 1 - y,
    {
        let mut x: u32 = bb.min_x;
        let ghost r0 = r@;
        while x <= bb.max_x
            invariant
                w == width,
                ids@.len() == width * height,
                ids@.len() <= usize::MAX,
                box_covers(ids@, wi, hi, members@, bb),
                wi == width,
                hi == height,
                bb.min_y <= y <= bb.max_y,
                bb.min_x <= x <= bb.max_x + 1,
                r0.len() <= r@.len(),
                forall|k: int| 0 <= k < r0.len() ==> r@[k] == r0[k],
                forall|k: int| 0 <= k < r0.len() ==> (#[trigger] r0[k]).1 < y,
                forall|k: int| r0.len() <= k < r@.len() ==> (#[trigger] r@[k]).1 == y && r@[k].0 < x,
                forall|k: int| 0 <= k < r@.len() ==> is_outline_pixel(ids@, wi, hi, members@, #[trigger] r@[k].0 as int, r@[k].1 as int),
                forall|xx: int, yy: int|
                    #[trigger] is_outline_pixel(ids@, wi, hi, members@, xx, yy) && (yy < y || (yy == y && xx < x)) ==> r@.contains((xx as u32, yy as u32)),
                r@.no_duplicates(),
            decreases bb.max_x + 1 - x,
        {
            proof {
                lemma_index(wi, hi, x as int, y as int);
            }
            let ghost old_r = r@;
            let idx: usize = (y as usize) * w + (x as usize);
            let here = member(members, ids[idx]);
            if here {
                let mut edge = y == 0 || y == height - 1 || x == 0 || x == width - 1;
                if !edge {
                    proof {
                        lemma_index(wi, hi, x as int, y as int - 1);
                        lemma_index(wi, hi, x as int, y as int + 1);
                        lemma_index(wi, hi, x as int - 1, y as int);
                        lemma_index(wi, hi, x as int + 1, y as int);
                        assert(idx as int == y as int * wi + x as int);
                        assert((y as int - 1) * wi + x == idx - wi) by (nonlinear_arith)
                            requires idx as int == y as int * wi + x as int;
                        assert((y as int + 1) * wi + x == idx + wi) by (nonlinear_arith)
                            requires idx as int == y as int * wi + x as int;
                    }
                    edge = !member(members, ids[idx - w]) || !member(members, ids[idx + w])
                        || !member(members, ids[idx - 1]) || !member(members, ids[idx + 1]);
                    proof {
                        assert(idx - w == (y - 1) * wi + x);
                        assert(idx + w == (y + 1) * wi + x);
                    }
                }
                if edge {
                    proof {
                        assert forall|k: int| 0 <= k < r@.len() implies r@[k] != (x, y) by {
                            if k < r0.len() {
                                assert(r0[k].1 < y);
                            }
                        }
                    }
                    r.push((x, y));
                }
            }
            proof {
                assert forall|xx: int, yy: int|
                    #[trigger] is_outline_pixel(ids@, wi, hi, members@, xx, yy) && (yy < y || (yy == y && xx < x + 1)) implies r@.contains((xx as u32, yy as u32)) by {
                    if yy == y && xx == x {
                        assert(r@[r@.len() - 1] == (x, y));
                    } else {
                        let k = choose|k: int| 0 <= k < old_r.len() && old_r[k] == (xx as u32, yy as u32);
                        assert(r@[k] == (xx as u32, yy as u32));
                    }
                }
            }
            x = x + 1;
        }
        proof {
            assert forall|k: int| 0 <= k < r@.len() implies (#[trigger] r@[k]).1 < y + 1 by {
                if k < r0.len() {
                    assert(r0[k].1 < y);
                }
            }
            assert forall|xx: int, yy: int|
                #[trigger] is_outline_pixel(ids@, wi, hi, members@, xx, yy) && yy < y + 1 implies r@.contains((xx as u32, yy as u32)) by {
                if yy == y {
                    lemma_index(wi, hi, xx, yy);
                }
            }
        }
        y = y + 1;
    }
    proof {
        assert forall|xx: int, yy: int| #[trigger] is_outline_pixel(ids@, wi, hi, members@, xx, yy) implies r@.contains((xx as u32, yy as u32)) by {
            lemma_index(wi, hi, xx, yy);
        }
    }
    r
}

} // verus!
