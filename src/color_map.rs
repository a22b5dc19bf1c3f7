use vstd::prelude::*;
use crate::definitions::{ProvinceDefinition, StateDefinition};
use crate::render::{RGBColor, opaque, tag_color, owner_color_of_tag};

verus! {

/// The color that `map` gives `id`: its last entry for `id`, if any.
pub open spec fn map_color(map: Seq<(u32, RGBColor)>, id: u32) -> Option<RGBColor>
    decreases map.len(),
{
    if map.len() == 0 {
        None
    } else if map.last().0 == id {
        Some(map.last().1)
    } else {
        map_color(map.drop_last(), id)
    }
}

/// The color of `id`, or `default` when `map` has none.
pub open spec fn color_or(map: Seq<(u32, RGBColor)>, id: u32, default: RGBColor) -> RGBColor {
    match map_color(map, id) {
        Some(c) => c,
        None => default,
    }
}

/// Byte `k` of a color: R, G, B, A.
pub open spec fn color_byte(c: RGBColor, k: int) -> u8 {
    if k == 0 { c.r } else if k == 1 { c.g } else if k == 2 { c.b } else { c.a }
}

/// Whether `out` holds pixels `0..n` as RGBA bytes, pixel `i` in color `f(i)`.
pub open spec fn colored(out: Seq<u8>, n: int, f: spec_fn(int) -> RGBColor) -> bool {
    &&& out.len() == 4 * n
    &&& forall|j: int| 0 <= j < out.len() ==> #[trigger] out[j] == color_byte(f(j / 4), j % 4)
}

/// Full-resolution pixels: pixel `i` in the color of `ids[i]`.
pub open spec fn full_pixels(ids: Seq<u32>, map: Seq<(u32, RGBColor)>, default: RGBColor) -> spec_fn(int) -> RGBColor {
    |i: int| color_or(map, ids[i], default)
}

/// Downsampled pixels: output pixel `(x, y)` of rows `nw` wide shows source
/// pixel `(x * scale, y * scale)`, or `default` past the end of `ids`.
pub open spec fn sampled_pixels(
    ids: Seq<u32>,
    map: Seq<(u32, RGBColor)>,
    default: RGBColor,
    width: int,
    scale: int,
    nw: int,
) -> spec_fn(int) -> RGBColor {
    |i: int| {
        let idx = (i / nw) * scale * width + (i % nw) * scale;
        if idx < ids.len() { color_or(map, ids[idx], default) } else { default }
    }
}

fn push_color(out: &mut Vec<u8>, c: RGBColor, Ghost(n): Ghost<int>, Ghost(f): Ghost<spec_fn(int) -> RGBColor>)
    requires
        colored(old(out)@, n, f),
        f(n) == c,
    ensures
        colored(final(out)@, n + 1, f),
{
    let ghost before = out@;
    out.push(c.r);
    out.push(c.g);
    out.push(c.b);
    out.push(c.a);
    assert forall|j: int| 0 <= j < out@.len() implies #[trigger] out@[j] == color_byte(f(j / 4), j % 4) by {
        if j < 4 * n {
            assert(out@[j] == before[j]);
        } else {
            vstd::arithmetic::div_mod::lemma_fundamental_div_mod_converse(j, 4, n, j - 4 * n);
        }
    }
}

/// A direct table of `map`: entry `id` holds `map_color(map, id)`.
fn color_table(map: &Vec<(u32, RGBColor)>) -> (t: Vec<Option<RGBColor>>)
    ensures
        forall|id: u32| (id as int) < t@.len() ==> #[trigger] t@[id as int] == map_color(map@, id),
{
    let mut top: u32 = 0;
    let mut k: usize = 0;
    while k < map.len()
        invariant
            k <= map@.len(),
        decreases map@.len() - k,
    {
        if map[k].0 > top {
            top = map[k].0;
        }
        k = k + 1;
    }
    let size: usize = if map.len() == 0 { 0 } else if (top as usize) < usize::MAX { top as usize + 1 } else { top as usize };
    let mut t: Vec<Option<RGBColor>> = Vec::new();
    let mut i: usize = 0;
    while i < size
        invariant
            i <= size,
            t@.len() == i,
            forall|j: int| 0 <= j < i ==> #[trigger] t@[j] == None::<RGBColor>,
        decreases size - i,
    {
        t.push(None);
        i = i + 1;
    }
    let mut k: usize = 0;
    while k < map.len()
        invariant
            k <= map@.len(),
            t@.len() == size,
            forall|id: u32| (id as int) < size ==> #[trigger] t@[id as int] == map_color(map@.take(k as int), id),
        decreases map@.len() - k,
    {
        assert(map@.take(k as int + 1).drop_last() =~= map@.take(k as int));
        let (id, c) = map[k];
        if (id as usize) < size {
            t.set(id as usize, Some(c));
        }
        k = k + 1;
    }
    assert(map@.take(map@.len() as int) =~= map@);
    t
}

fn color_lookup(t: &Vec<Option<RGBColor>>, map: &Vec<(u32, RGBColor)>, id: u32, default: RGBColor) -> (c: RGBColor)
    requires
        forall|i: u32| (i as int) < t@.len() ==> #[trigger] t@[i as int] == map_color(map@, i),
    ensures
        c == color_or(map@, id, default),
{
    if (id as usize) < t.len() {
        return match t[id as usize] {
            Some(c) => c,
            None => default,
        };
    }
    let mut found: Option<RGBColor> = None;
    let mut k: usize = 0;
    while k < map.len()
        invariant
            k <= map@.len(),
            found == map_color(map@.take(k as int), id),
        decreases map@.len() - k,
    {
        assert(map@.take(k as int + 1).drop_last() =~= map@.take(k as int));
        if map[k].0 == id {
            found = Some(map[k].1);
        }
        k = k + 1;
    }
    assert(map@.take(map@.len() as int) =~= map@);
    match found {
        Some(c) => c,
        None => default,
    }
}

/// Colors each province id of a `width` by `height` raster by `color_map`
/// (`default_color` for ids it lacks) as RGBA bytes; with a downsampling
/// factor above 1, only every `scale`-th pixel of every `scale`-th row.
pub fn generate_colored_map(
    province_ids: &Vec<u32>,
    color_map: &Vec<(u32, RGBColor)>,
    default_color: RGBColor,
    width: u32,
    height: u32,
    downsample: Option<u32>,
) -> (r: Vec<u8>)
    ensures
        ({
            let scale: int = match downsample { Some(s) => if s > 1 { s as int } else { 1 }, None => 1 };
            &&& scale == 1 ==> colored(r@, province_ids@.len() as int, full_pixels(province_ids@, color_map@, default_color))
            &&& scale > 1 ==> colored(r@, (width as int / scale) * (height as int / scale),
                sampled_pixels(province_ids@, color_map@, default_color, width as int, scale, width as int / scale))
        }),
{
    let t = color_table(color_map);
    let scale: u32 = match downsample {
        Some(s) => if s > 1 { s } else { 1 },
        None => 1,
    };
    let mut out: Vec<u8> = Vec::new();
    if scale == 1 {
        let ghost f = full_pixels(province_ids@, color_map@, default_color);
        let mut k: usize = 0;
        while k < province_ids.len()
            invariant
                k <= province_ids@.len(),
                f == full_pixels(province_ids@, color_map@, default_color),
                forall|i: u32| (i as int) < t@.len() ==> #[trigger] t@[i as int] == map_color(color_map@, i),
                colored(out@, k as int, f),
            decreases province_ids@.len() - k,
        {
            let c = color_lookup(&t, color_map, province_ids[k], default_color);
            push_color(&mut out, c, Ghost(k as int), Ghost(f));
            k = k + 1;
        }
        return out;
    }
    let nw: u32 = width / scale;
    let nh: u32 = height / scale;
    let ghost f = sampled_pixels(province_ids@, color_map@, default_color, width as int, scale as int, nw as int);
    let mut y: u32 = 0;
    while y < nh
        invariant
            scale > 1,
            nw == width / scale,
            nh == height / scale,
            y <= nh,
            f == sampled_pixels(province_ids@, color_map@, default_color, width as int, scale as int, nw as int),
            forall|i: u32| (i as int) < t@.len() ==> #[trigger] t@[i as int] == map_color(color_map@, i),
            colored(out@, y * nw, f),
        decreases nh - y,
    {
        let mut x: u32 = 0;
        while x < nw
            invariant
                scale > 1,
                nw == width / scale,
                nh == height / scale,
                y < nh,
                x <= nw,
                f == sampled_pixels(province_ids@, color_map@, default_color, width as int, scale as int, nw as int),
                forall|i: u32| (i as int) < t@.len() ==> #[trigger] t@[i as int] == map_color(color_map@, i),
                colored(out@, y * nw + x, f),
            decreases nw - x,
        {
            proof {
                assert((y as int) * (scale as int) <= height) by (nonlinear_arith)
                    requires y < nh, nh == height / scale, scale > 1;
                assert((x as int) * (scale as int) <= width) by (nonlinear_arith)
                    requires x < nw, nw == width / scale, scale > 1;
                assert((y as int) * (scale as int) * (width as int) <= (height as int) * (width as int)) by (nonlinear_arith)
                    requires (y as int) * (scale as int) <= height, width >= 0;
                assert((height as int) * (width as int) <= u64::MAX) by (nonlinear_arith)
                    requires height <= u32::MAX, width <= u32::MAX;
                assert((y as int + 1) * (scale as int) <= height) by (nonlinear_arith)
                    requires y < nh, nh == height / scale, scale > 1;
                assert((y as int) * (scale as int) * (width as int) + (x as int) * (scale as int) <= u64::MAX) by (nonlinear_arith)
                    requires (y as int + 1) * (scale as int) <= height, (x as int) * (scale as int) <= width,
                        (height as int) * (width as int) <= u64::MAX, width >= 0, scale >= 0, y >= 0;
            }
            let idx: u64 = (y as u64) * (scale as u64) * (width as u64) + (x as u64) * (scale as u64);
            let c = if idx < province_ids.len() as u64 {
                color_lookup(&t, color_map, province_ids[idx as usize], default_color)
            } else {
                default_color
            };
            proof {
                let i: int = y as int * nw as int + x as int;
                vstd::arithmetic::div_mod::lemma_fundamental_div_mod_converse(i, nw as int, y as int, x as int);
                assert(f(i) == c);
            }
            push_color(&mut out, c, Ghost((y * nw + x) as int), Ghost(f));
            x = x + 1;
        }
        proof {
            assert((y + 1) * nw == y * nw + nw) by (nonlinear_arith);
        }
        y = y + 1;
    }
    proof {
        assert((nh as int) * (nw as int) == (width as int / scale as int) * (height as int / scale as int)) by (nonlinear_arith)
            requires nh as int == height as int / scale as int, nw as int == width as int / scale as int;
    }
    out
}

/// Each definition's id with its own color, opaque, in order.
pub fn get_definition_color_map(definitions: &Vec<ProvinceDefinition>) -> (r: Vec<(u32, RGBColor)>)
    ensures
        r@.len() == definitions@.len(),
        forall|k: int| 0 <= k < r@.len() ==> #[trigger] r@[k] == (definitions@[k].id,
            opaque(definitions@[k].r, definitions@[k].g, definitions@[k].b)),
{
    let mut r: Vec<(u32, RGBColor)> = Vec::new();
    let mut k: usize = 0;
    while k < definitions.len()
        invariant
            k <= definitions@.len(),
            r@.len() == k,
            forall|j: int| 0 <= j < k ==> #[trigger] r@[j] == (definitions@[j].id,
                opaque(definitions@[j].r, definitions@[j].g, definitions@[j].b)),
        decreases definitions@.len() - k,
    {
        let d = &definitions[k];
        r.push((d.id, RGBColor { r: d.r, g: d.g, b: d.b, a: 255 }));
        k = k + 1;
    }
    r
}

/// The province colors by owner: for each state in order whose owner has a
/// registered color, each of its provinces with that color.
pub open spec fn owner_entries(states: Seq<StateDefinition>, colors: Seq<(String, RGBColor)>) -> Seq<(u32, RGBColor)>
    decreases states.len(),
{
    if states.len() == 0 {
        Seq::empty()
    } else {
        let p = owner_entries(states.drop_last(), colors);
        let s = states.last();
        match tag_color(colors, s.owner@) {
            Some(c) => p + s.provinces@.map_values(|id: u32| (id, c)),
            None => p,
        }
    }
}

/// Each province of an owned state with its owner's registered color.
pub fn get_province_owner_color_map(states: &Vec<StateDefinition>, country_colors: &Vec<(String, RGBColor)>) -> (r: Vec<(u32, RGBColor)>)
    ensures
        r@ == owner_entries(states@, country_colors@),
{
    let mut r: Vec<(u32, RGBColor)> = Vec::new();
    let mut k: usize = 0;
    while k < states.len()
        invariant
            k <= states@.len(),
            r@ == owner_entries(states@.take(k as int), country_colors@),
        decreases states@.len() - k,
    {
        assert(states@.take(k as int + 1).drop_last() =~= states@.take(k as int));
        let s = &states[k];
        match owner_color_of_tag(country_colors, &s.owner) {
            Some(c) => {
                let ghost before = r@;
                let mut j: usize = 0;
                while j < s.provinces.len()
                    invariant
                        j <= s.provinces@.len(),
                        r@ == before + s.provinces@.take(j as int).map_values(|id: u32| (id, c)),
                    decreases s.provinces@.len() - j,
                {
                    r.push((s.provinces[j], c));
                    assert(r@ =~= before + s.provinces@.take(j as int + 1).map_values(|id: u32| (id, c)));
                    j = j + 1;
                }
                assert(s.provinces@.take(s.provinces@.len() as int) =~= s.provinces@);
            },
            None => {},
        }
        k = k + 1;
    }
    assert(states@.take(states@.len() as int) =~= states@);
    r
}

} // verus!
