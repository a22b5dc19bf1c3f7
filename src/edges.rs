use vstd::prelude::*;
use vstd::hash_map::HashMapWithView;
use vstd::hash_set::HashSetWithView;
use crate::outline::{id_at, lemma_index};

verus! {

broadcast use vstd::std_specs::hash::group_hash_axioms;

/// The pixels on either side of the boundary between two provinces, the
/// smaller id first.
#[derive(Debug, Clone)]
pub struct ProvinceEdge {
    pub from_id: u32,
    pub to_id: u32,
    pub points: Vec<(u32, u32)>,
}

/// Whether `(x2, y2)` is a 4-neighbor of `(x, y)`.
pub open spec fn neighbors(x: int, y: int, x2: int, y2: int) -> bool {
    ||| x2 == x + 1 && y2 == y
    ||| x2 == x - 1 && y2 == y
    ||| x2 == x && y2 == y + 1
    ||| x2 == x && y2 == y - 1
}

/// Whether pixel `(x, y)` of a `w` by `h` raster lies on the boundary between
/// provinces `a` and `b`: it holds one of them and a 4-neighbor holds the other.
pub open spec fn on_boundary(ids: Seq<u32>, w: int, h: int, a: u32, b: u32, x: int, y: int) -> bool {
    &&& 0 <= x < w
    &&& 0 <= y < h
    &&& exists|x2: int, y2: int|
        0 <= x2 < w && 0 <= y2 < h && neighbors(x, y, x2, y2) && {
            ||| id_at(ids, w, x, y) == a && #[trigger] id_at(ids, w, x2, y2) == b
            ||| id_at(ids, w, x, y) == b && id_at(ids, w, x2, y2) == a
        }
}

/// Key of the unordered id pair `(a, b)`, `a < b`.
pub open spec fn pair_key(a: u32, b: u32) -> u64 {
    (a as int * 0x1_0000_0000 + b as int) as u64
}

/// Key of point `(x, y)` of edge number `k`.
pub open spec fn point_rec(k: int, x: u32, y: u32) -> u128 {
    (k * 0x1_0000_0000_0000_0000 + y as int * 0x1_0000_0000 + x as int) as u128
}

proof fn lemma_pair_key_inj(a: u32, b: u32, c: u32, d: u32)
    requires
        pair_key(a, b) == pair_key(c, d),
    ensures
        a == c && b == d,
{
    let s = 0x1_0000_0000int;
    assert(a as int * s + b < 0x1_0000_0000_0000_0000int) by (nonlinear_arith)
        requires a < s, b < s, s == 0x1_0000_0000int;
    assert(c as int * s + d < 0x1_0000_0000_0000_0000int) by (nonlinear_arith)
        requires c < s, d < s, s == 0x1_0000_0000int;
    assert(a as int * s + b >= 0) by (nonlinear_arith) requires a >= 0, b >= 0, s > 0;
    assert(c as int * s + d >= 0) by (nonlinear_arith) requires c >= 0, d >= 0, s > 0;
    vstd::arithmetic::div_mod::lemma_fundamental_div_mod_converse(a as int * s + b, s, a as int, b as int);
    vstd::arithmetic::div_mod::lemma_fundamental_div_mod_converse(c as int * s + d, s, c as int, d as int);
}

proof fn lemma_point_rec_inj(k: int, x: u32, y: u32, k2: int, x2: u32, y2: u32)
    requires
        0 <= k < 0x1_0000_0000_0000_0000,
        0 <= k2 < 0x1_0000_0000_0000_0000,
        point_rec(k, x, y) == point_rec(k2, x2, y2),
    ensures
        k == k2 && x == x2 && y == y2,
{
    let s = 0x1_0000_0000int;
    let t = 0x1_0000_0000_0000_0000int;
    let lo1 = y as int * s + x;
    let lo2 = y2 as int * s + x2;
    assert(0 <= lo1 < t) by (nonlinear_arith) requires lo1 == y as int * s + x, 0 <= x < s, 0 <= y < s, s == 0x1_0000_0000int, t == s * s;
    assert(0 <= lo2 < t) by (nonlinear_arith) requires lo2 == y2 as int * s + x2, 0 <= x2 < s, 0 <= y2 < s, s == 0x1_0000_0000int, t == s * s;
    assert(0 <= k * t + lo1 <= u128::MAX) by (nonlinear_arith) requires 0 <= k < t, 0 <= lo1 < t, t == 0x1_0000_0000_0000_0000int;
    assert(0 <= k2 * t + lo2 <= u128::MAX) by (nonlinear_arith) requires 0 <= k2 < t, 0 <= lo2 < t, t == 0x1_0000_0000_0000_0000int;
    vstd::arithmetic::div_mod::lemma_fundamental_div_mod_converse(k * t + lo1, t, k, lo1);
    vstd::arithmetic::div_mod::lemma_fundamental_div_mod_converse(k2 * t + lo2, t, k2, lo2);
    vstd::arithmetic::div_mod::lemma_fundamental_div_mod_converse(lo1, s, y as int, x as int);
    vstd::arithmetic::div_mod::lemma_fundamental_div_mod_converse(lo2, s, y2 as int, x2 as int);
}

/// The bookkeeping of edge detection: every edge has its key in `index`,
/// `seen` holds exactly the recorded points, and every point is on its boundary.
pub open spec fn edges_inv(
    ids: Seq<u32>,
    w: int,
    h: int,
    edges: Seq<ProvinceEdge>,
    index: Map<u64, usize>,
    seen: Set<u128>,
) -> bool {
    &&& edges.len() <= 0x1_0000_0000_0000_0000
    &&& forall|k: int| 0 <= k < edges.len() ==> {
        &&& (#[trigger] edges[k]).from_id < edges[k].to_id
        &&& index.contains_key(pair_key(edges[k].from_id, edges[k].to_id))
        &&& index[pair_key(edges[k].from_id, edges[k].to_id)] == k
        &&& edges[k].points@.no_duplicates()
    }
    &&& forall|key: u64| #[trigger] index.contains_key(key) ==> index[key] < edges.len()
        && pair_key(edges[index[key] as int].from_id, edges[index[key] as int].to_id) == key
    &&& forall|k: int, x: u32, y: u32| 0 <= k < edges.len() ==>
        (seen.contains(#[trigger] point_rec(k, x, y)) <==> edges[k].points@.contains((x, y)))
    &&& forall|k: int, x: u32, y: u32| edges.len() <= k < 0x1_0000_0000_0000_0000 ==>
        !seen.contains(#[trigger] point_rec(k, x, y))
    &&& forall|k: int, j: int| 0 <= k < edges.len() && 0 <= j < edges[k].points@.len() ==>
        on_boundary(ids, w, h, edges[k].from_id, edges[k].to_id, #[trigger] edges[k].points@[j].0 as int, edges[k].points@[j].1 as int)
}

/// Whether the pair of neighbors `(x, y)`, `(x2, y2)` is recorded in `edges`
/// under its sorted id pair.
pub open spec fn pair_recorded(ids: Seq<u32>, w: int, edges: Seq<ProvinceEdge>, x: int, y: int, x2: int, y2: int) -> bool {
    let a = id_at(ids, w, x, y);
    let b = id_at(ids, w, x2, y2);
    let lo = if a < b { a } else { b };
    let hi = if a < b { b } else { a };
    exists|k: int| 0 <= k < edges.len() && (#[trigger] edges[k]).from_id == lo && edges[k].to_id == hi
        && edges[k].points@.contains((x as u32, y as u32)) && edges[k].points@.contains((x2 as u32, y2 as u32))
}

} // verus!

verus! {

/// Whether `new` keeps every edge of `old` with its ids and points.
pub open spec fn edges_grow(old: Seq<ProvinceEdge>, new: Seq<ProvinceEdge>) -> bool {
    &&& old.len() <= new.len()
    &&& forall|k: int| 0 <= k < old.len() ==> (#[trigger] new[k]).from_id == old[k].from_id && new[k].to_id == old[k].to_id
        && forall|p: (u32, u32)| old[k].points@.contains(p) ==> #[trigger] new[k].points@.contains(p)
}

fn add_point(
    edges: &mut Vec<ProvinceEdge>,
    seen: &mut HashSetWithView<u128>,
    k: usize,
    x: u32,
    y: u32,
    Ghost(ids): Ghost<Seq<u32>>,
    Ghost(w): Ghost<int>,
    Ghost(h): Ghost<int>,
    Ghost(index): Ghost<Map<u64, usize>>,
)
    requires
        edges_inv(ids, w, h, old(edges)@, index, old(seen)@),
        k < old(edges)@.len(),
        on_boundary(ids, w, h, old(edges)@[k as int].from_id, old(edges)@[k as int].to_id, x as int, y as int),
    ensures
        edges_inv(ids, w, h, final(edges)@, index, final(seen)@),
        final(edges)@.len() == old(edges)@.len(),
        edges_grow(old(edges)@, final(edges)@),
        final(edges)@[k as int].points@.contains((x, y)),
{
    let ghost e0 = edges@;
    let ghost s0 = seen@;
    proof {
        assert(0 <= k * 0x1_0000_0000_0000_0000int + y as int * 0x1_0000_0000 + x as int <= u128::MAX) by (nonlinear_arith)
            requires 0 <= k < 0x1_0000_0000_0000_0000int, x <= u32::MAX, y <= u32::MAX;
    }
    let rec: u128 = (k as u128) * 0x1_0000_0000_0000_0000u128 + (y as u128) * 0x1_0000_0000u128 + (x as u128);
    assert(rec == point_rec(k as int, x, y));
    if !seen.contains(&rec) {
        seen.insert(rec);
        let e = &mut edges[k];
        e.points.push((x, y));
        proof {
            let pts0 = e0[k as int].points@;
            assert(!pts0.contains((x, y)));
            assert(edges@[k as int].points@ == pts0.push((x, y)));
            assert forall|kk: int, xx: u32, yy: u32| 0 <= kk < edges@.len() implies
                (seen@.contains(#[trigger] point_rec(kk, xx, yy)) <==> edges@[kk].points@.contains((xx, yy))) by {
                if point_rec(kk, xx, yy) == rec {
                    lemma_point_rec_inj(kk, xx, yy, k as int, x, y);
                    assert(edges@[kk].points@[pts0.len() as int] == (x, y));
                }
                if kk == k as int && edges@[kk].points@.contains((xx, yy)) && (xx, yy) != (x, y) {
                    let j = choose|j: int| 0 <= j < edges@[kk].points@.len() && edges@[kk].points@[j] == (xx, yy);
                    assert(pts0[j] == (xx, yy));
                }
                if kk == k as int && pts0.contains((xx, yy)) {
                    let j = choose|j: int| 0 <= j < pts0.len() && pts0[j] == (xx, yy);
                    assert(edges@[kk].points@[j] == (xx, yy));
                }
            }
            assert forall|kk: int, xx: u32, yy: u32| edges@.len() <= kk < 0x1_0000_0000_0000_0000 implies
                !seen@.contains(#[trigger] point_rec(kk, xx, yy)) by {
                if point_rec(kk, xx, yy) == rec {
                    lemma_point_rec_inj(kk, xx, yy, k as int, x, y);
                }
            }
            assert forall|kk: int, j: int| 0 <= kk < edges@.len() && 0 <= j < edges@[kk].points@.len() implies
                on_boundary(ids, w, h, edges@[kk].from_id, edges@[kk].to_id, #[trigger] edges@[kk].points@[j].0 as int, edges@[kk].points@[j].1 as int) by {
                if kk == k as int && j < pts0.len() {
                    assert(edges@[kk].points@[j] == pts0[j]);
                }
                if kk != k as int {
                    assert(edges@[kk] == e0[kk]);
                }
            }
            assert forall|kk: int| 0 <= kk < e0.len() implies (#[trigger] edges@[kk]).from_id == e0[kk].from_id && edges@[kk].to_id == e0[kk].to_id
                && forall|p: (u32, u32)| e0[kk].points@.contains(p) ==> #[trigger] edges@[kk].points@.contains(p) by {
                if kk == k as int {
                    assert forall|p: (u32, u32)| e0[kk].points@.contains(p) implies #[trigger] edges@[kk].points@.contains(p) by {
                        let j = choose|j: int| 0 <= j < pts0.len() && pts0[j] == p;
                        assert(edges@[kk].points@[j] == p);
                    }
                }
            }
            assert(edges@[k as int].points@[pts0.len() as int] == (x, y));
        }
    } else {
        assert(edges@[k as int].points@.contains((x, y)));
    }
}

} // verus!

verus! {

fn add_pair(
    edges: &mut Vec<ProvinceEdge>,
    index: &mut HashMapWithView<u64, usize>,
    seen: &mut HashSetWithView<u128>,
    ids: &Vec<u32>,
    width: u32,
    height: u32,
    x: u32,
    y: u32,
    x2: u32,
    y2: u32,
)
    requires
        ids@.len() == width * height,
        edges_inv(ids@, width as int, height as int, old(edges)@, old(index)@, old(seen)@),
        x < width && y < height && x2 < width && y2 < height,
        neighbors(x as int, y as int, x2 as int, y2 as int),
        id_at(ids@, width as int, x as int, y as int) != id_at(ids@, width as int, x2 as int, y2 as int),
        forall|k: int| 0 <= k < old(edges)@.len() ==> (#[trigger] old(edges)@[k]).points@.len() > 0,
    ensures
        edges_inv(ids@, width as int, height as int, final(edges)@, final(index)@, final(seen)@),
        forall|k: int| 0 <= k < final(edges)@.len() ==> (#[trigger] final(edges)@[k]).points@.len() > 0,
        edges_grow(old(edges)@, final(edges)@),
        pair_recorded(ids@, width as int, final(edges)@, x as int, y as int, x2 as int, y2 as int),
{
    let ghost w = width as int;
    let ghost h = height as int;
    proof {
        lemma_index(w, h, x as int, y as int);
        lemma_index(w, h, x2 as int, y2 as int);
    }
    let n: usize = ids.len();
    let a = ids[(y as usize) * (width as usize) + (x as usize)];
    let b = ids[(y2 as usize) * (width as usize) + (x2 as usize)];
    let lo = if a < b { a } else { b };
    let hi = if a < b { b } else { a };
    let key: u64 = (lo as u64) * 0x1_0000_0000u64 + (hi as u64);
    assert(key == pair_key(lo, hi));
    let ghost e0 = edges@;
    let k: usize = match index.get(&key) {
        Some(k) => *k,
        None => {
            let k = edges.len();
            proof {
                assert forall|kk: int| 0 <= kk < edges@.len() implies
                    pair_key((#[trigger] edges@[kk]).from_id, edges@[kk].to_id) != key by {}
            }
            edges.push(ProvinceEdge { from_id: lo, to_id: hi, points: Vec::new() });
            index.insert(key, k);
            proof {
                assert(edges@[k as int].points@ =~= Seq::<(u32, u32)>::empty());
                assert forall|key2: u64| #[trigger] index@.contains_key(key2) implies index@[key2] < edges@.len()
                    && pair_key(edges@[index@[key2] as int].from_id, edges@[index@[key2] as int].to_id) == key2 by {
                    if key2 != key {
                        assert(edges@[index@[key2] as int] == e0[index@[key2] as int]);
                    }
                }
                assert forall|kk: int| 0 <= kk < edges@.len() implies {
                    &&& (#[trigger] edges@[kk]).from_id < edges@[kk].to_id
                    &&& index@.contains_key(pair_key(edges@[kk].from_id, edges@[kk].to_id))
                    &&& index@[pair_key(edges@[kk].from_id, edges@[kk].to_id)] == kk
                    &&& edges@[kk].points@.no_duplicates()
                } by {
                    if kk < k as int {
                        assert(edges@[kk] == e0[kk]);
                        if pair_key(edges@[kk].from_id, edges@[kk].to_id) == key {
                            lemma_pair_key_inj(edges@[kk].from_id, edges@[kk].to_id, lo, hi);
                        }
                    }
                }
                assert forall|kk: int, xx: u32, yy: u32| 0 <= kk < edges@.len() implies
                    (seen@.contains(#[trigger] point_rec(kk, xx, yy)) <==> edges@[kk].points@.contains((xx, yy))) by {
                    if kk < k as int {
                        assert(edges@[kk] == e0[kk]);
                    }
                }
                assert forall|kk: int, j: int| 0 <= kk < edges@.len() && 0 <= j < edges@[kk].points@.len() implies
                    on_boundary(ids@, w, h, edges@[kk].from_id, edges@[kk].to_id, #[trigger] edges@[kk].points@[j].0 as int, edges@[kk].points@[j].1 as int) by {
                    assert(edges@[kk] == e0[kk]);
                }
                assert forall|kk: int| 0 <= kk < e0.len() implies (#[trigger] edges@[kk]).from_id == e0[kk].from_id && edges@[kk].to_id == e0[kk].to_id
                    && forall|p: (u32, u32)| e0[kk].points@.contains(p) ==> #[trigger] edges@[kk].points@.contains(p) by {
                    assert(edges@[kk] == e0[kk]);
                }
            }
            k
        },
    };
    let ghost e1 = edges@;
    proof {
        assert(edges@[k as int].from_id == lo && edges@[k as int].to_id == hi) by {
            lemma_pair_key_inj(edges@[k as int].from_id, edges@[k as int].to_id, lo, hi);
        }
        let ghost_ids = ids@;
        assert(id_at(ghost_ids, w, x2 as int, y2 as int) == b);
        assert(on_boundary(ids@, w, h, lo, hi, x as int, y as int));
        assert(neighbors(x2 as int, y2 as int, x as int, y as int));
        assert(id_at(ghost_ids, w, x as int, y as int) == a);
        assert(on_boundary(ids@, w, h, lo, hi, x2 as int, y2 as int));
    }
    add_point(edges, seen, k, x, y, Ghost(ids@), Ghost(w), Ghost(h), Ghost(index@));
    let ghost e2 = edges@;
    add_point(edges, seen, k, x2, y2, Ghost(ids@), Ghost(w), Ghost(h), Ghost(index@));
    proof {
        assert(edges@[k as int].points@.contains((x, y)));
        assert(edges@[k as int].from_id == lo);
        assert forall|kk: int| 0 <= kk < e0.len() implies (#[trigger] edges@[kk]).from_id == e0[kk].from_id && edges@[kk].to_id == e0[kk].to_id
            && forall|p: (u32, u32)| e0[kk].points@.contains(p) ==> #[trigger] edges@[kk].points@.contains(p) by {
            assert(e1[kk].from_id == e0[kk].from_id);
            assert(e2[kk].from_id == e1[kk].from_id);
            assert forall|p: (u32, u32)| e0[kk].points@.contains(p) implies #[trigger] edges@[kk].points@.contains(p) by {
                assert(e1[kk].points@.contains(p));
                assert(e2[kk].points@.contains(p));
            }
        }
        assert forall|kk: int| 0 <= kk < edges@.len() implies (#[trigger] edges@[kk]).points@.len() > 0 by {
            if kk < e0.len() {
                assert(e0[kk].points@.contains(e0[kk].points@[0]));
                assert(edges@[kk].points@.contains(e0[kk].points@[0]));
            } else {
                assert(kk == k as int);
                assert(edges@[kk].points@.contains((x, y)));
            }
        }
    }
}

} // verus!

verus! {

/// Whether `edges` is the boundary set of the `w` by `h` raster `ids`: one
/// edge per id pair (smaller id first), every point on its boundary, each
/// once, and every pair of differing horizontal or vertical neighbors
/// recorded under its pair with both of its pixels.
pub open spec fn is_edge_set(ids: Seq<u32>, w: int, h: int, edges: Seq<ProvinceEdge>) -> bool {
    &&& forall|k: int| 0 <= k < edges.len() ==> (#[trigger] edges[k]).from_id < edges[k].to_id
    &&& forall|k1: int, k2: int| 0 <= k1 < edges.len() && 0 <= k2 < edges.len() && k1 != k2 ==>
        (#[trigger] edges[k1]).from_id != (#[trigger] edges[k2]).from_id || edges[k1].to_id != edges[k2].to_id
    &&& forall|k: int| 0 <= k < edges.len() ==> (#[trigger] edges[k]).points@.no_duplicates()
    &&& forall|k: int| 0 <= k < edges.len() ==> (#[trigger] edges[k]).points@.len() > 0
    &&& forall|k: int, j: int| 0 <= k < edges.len() && 0 <= j < edges[k].points@.len() ==>
        on_boundary(ids, w, h, edges[k].from_id, edges[k].to_id, #[trigger] edges[k].points@[j].0 as int, edges[k].points@[j].1 as int)
    &&& forall|x: int, y: int| 0 <= x && x + 1 < w && 0 <= y < h && #[trigger] id_at(ids, w, x, y) != id_at(ids, w, x + 1, y)
        ==> pair_recorded(ids, w, edges, x, y, x + 1, y)
    &&& forall|x: int, y: int| 0 <= x < w && 0 <= y && y + 1 < h && #[trigger] id_at(ids, w, x, y) != id_at(ids, w, x, y + 1)
        ==> pair_recorded(ids, w, edges, x, y, x, y + 1)
}

proof fn lemma_recorded_grows(ids: Seq<u32>, w: int, old: Seq<ProvinceEdge>, new: Seq<ProvinceEdge>, x: int, y: int, x2: int, y2: int)
    requires
        edges_grow(old, new),
        pair_recorded(ids, w, old, x, y, x2, y2),
    ensures
        pair_recorded(ids, w, new, x, y, x2, y2),
{
    let a = id_at(ids, w, x, y);
    let b = id_at(ids, w, x2, y2);
    let lo = if a < b { a } else { b };
    let hi = if a < b { b } else { a };
    let k = choose|k: int| 0 <= k < old.len() && (#[trigger] old[k]).from_id == lo && old[k].to_id == hi
        && old[k].points@.contains((x as u32, y as u32)) && old[k].points@.contains((x2 as u32, y2 as u32));
    assert(new[k].points@.contains((x as u32, y as u32)));
    assert(new[k].points@.contains((x2 as u32, y2 as u32)));
}

/// Finds every boundary between neighboring provinces of the `width` by
/// `height` raster `province_ids`, comparing each pixel with its right and
/// bottom neighbor.
pub fn detect_edges(width: u32, height: u32, province_ids: &Vec<u32>) -> (r: Vec<ProvinceEdge>)
    requires
        province_ids@.len() == width * height,
    ensures
        is_edge_set(province_ids@, width as int, height as int, r@),
{
    let ghost ids = province_ids@;
    let ghost w = width as int;
    let ghost h = height as int;
    let mut edges: Vec<ProvinceEdge> = Vec::new();
    let mut index: HashMapWithView<u64, usize> = HashMapWithView::new();
    let mut seen: HashSetWithView<u128> = HashSetWithView::new();
    let n: usize = province_ids.len();
    let mut y: u32 = 0;
    while y < height
        invariant
            ids == province_ids@,
            w == width,
            h == height,
            ids.len() == width * height,
            n == ids.len(),
            y <= height,
            edges_inv(ids, w, h, edges@, index@, seen@),
            forall|k: int| 0 <= k < edges@.len() ==> (#[trigger] edges@[k]).points@.len() > 0,
            forall|xx: int, yy: int| 0 <= xx && xx + 1 < w && 0 <= yy < y && #[trigger] id_at(ids, w, xx, yy) != id_at(ids, w, xx + 1, yy)
                ==> pair_recorded(ids, w, edges@, xx, yy, xx + 1, yy),
            forall|xx: int, yy: int| 0 <= xx < w && 0 <= yy < y && yy + 1 < h && #[trigger] id_at(ids, w, xx, yy) != id_at(ids, w, xx, yy + 1)
                ==> pair_recorded(ids, w, edges@, xx, yy, xx, yy + 1),
        decreases height - y,
    {
        let mut x: u32 = 0;
        while x < width
            invariant
                ids == province_ids@,
                w == width,
                h == height,
                ids.len() == width * height,
                n == ids.len(),
                y < height,
                x <= width,
                edges_inv(ids, w, h, edges@, index@, seen@),
                forall|k: int| 0 <= k < edges@.len() ==> (#[trigger] edges@[k]).points@.len() > 0,
                forall|xx: int, yy: int| 0 <= xx && xx + 1 < w && 0 <= yy < h && (yy < y || (yy == y && xx < x))
                    && #[trigger] id_at(ids, w, xx, yy) != id_at(ids, w, xx + 1, yy)
                    ==> pair_recorded(ids, w, edges@, xx, yy, xx + 1, yy),
                forall|xx: int, yy: int| 0 <= xx < w && 0 <= yy && yy + 1 < h && (yy < y || (yy == y && xx < x))
                    && #[trigger] id_at(ids, w, xx, yy) != id_at(ids, w, xx, yy + 1)
                    ==> pair_recorded(ids, w, edges@, xx, yy, xx, yy + 1),
            decreases width - x,
        {
            proof {
                lemma_index(w, h, x as int, y as int);
            }
            let here = province_ids[(y as usize) * (width as usize) + (x as usize)];
            let ghost e0 = edges@;
            if x + 1 < width {
                proof {
                    lemma_index(w, h, x as int + 1, y as int);
                }
                let right = province_ids[(y as usize) * (width as usize) + (x as usize) + 1];
                if here != right {
                    add_pair(&mut edges, &mut index, &mut seen, province_ids, width, height, x, y, x + 1, y);
                }
            }
            let ghost e1 = edges@;
            if y + 1 < height {
                proof {
                    lemma_index(w, h, x as int, y as int + 1);
                    assert((y as int + 1) * w + x == y as int * w + x + w) by (nonlinear_arith);
                }
                let down = province_ids[(y as usize) * (width as usize) + (x as usize) + (width as usize)];
                if here != down {
                    add_pair(&mut edges, &mut index, &mut seen, province_ids, width, height, x, y, x, y + 1);
                }
            }
            proof {
                assert forall|xx: int, yy: int| 0 <= xx && xx + 1 < w && 0 <= yy < h && (yy < y || (yy == y && xx < x + 1))
                    && #[trigger] id_at(ids, w, xx, yy) != id_at(ids, w, xx + 1, yy)
                    implies pair_recorded(ids, w, edges@, xx, yy, xx + 1, yy) by {
                    if yy < y || (yy == y && xx < x) {
                        lemma_recorded_grows(ids, w, e0, e1, xx, yy, xx + 1, yy);
                        lemma_recorded_grows(ids, w, e1, edges@, xx, yy, xx + 1, yy);
                    } else {
                        lemma_recorded_grows(ids, w, e1, edges@, xx, yy, xx + 1, yy);
                    }
                }
                assert forall|xx: int, yy: int| 0 <= xx < w && 0 <= yy && yy + 1 < h && (yy < y || (yy == y && xx < x + 1))
                    && #[trigger] id_at(ids, w, xx, yy) != id_at(ids, w, xx, yy + 1)
                    implies pair_recorded(ids, w, edges@, xx, yy, xx, yy + 1) by {
                    if yy < y || (yy == y && xx < x) {
                        lemma_recorded_grows(ids, w, e0, e1, xx, yy, xx, yy + 1);
                        lemma_recorded_grows(ids, w, e1, edges@, xx, yy, xx, yy + 1);
                    }
                }
            }
            x = x + 1;
        }
        y = y + 1;
    }
    proof {
        assert forall|k1: int, k2: int| 0 <= k1 < edges@.len() && 0 <= k2 < edges@.len() && k1 != k2 implies
            (#[trigger] edges@[k1]).from_id != (#[trigger] edges@[k2]).from_id || edges@[k1].to_id != edges@[k2].to_id by {
            assert(index@[pair_key(edges@[k1].from_id, edges@[k1].to_id)] == k1);
            assert(index@[pair_key(edges@[k2].from_id, edges@[k2].to_id)] == k2);
        }
    }
    edges
}

} // verus!
