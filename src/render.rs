use vstd::prelude::*;
use crate::definitions::{ProvinceDefinition, StateDefinition, last_def, last_state};
use crate::text::same_text;

verus! {

/// A 32-bit color.
#[derive(Debug, Clone, Copy, PartialEq, Eq, Structural)]
pub struct RGBColor {
    pub r: u8,
    pub g: u8,
    pub b: u8,
    pub a: u8,
}

/// The opaque color `(r, g, b)`.
pub open spec fn opaque(r: u8, g: u8, b: u8) -> RGBColor {
    RGBColor { r, g, b, a: 255 }
}

fn rgb(r: u8, g: u8, b: u8) -> (c: RGBColor)
    ensures
        c == opaque(r, g, b),
{
    RGBColor { r, g, b, a: 255 }
}

/// Stable non-cryptographic hash of a state id (a multiplicative hash).
pub open spec fn state_hash(id: u32) -> int {
    (id as int + 1) * 2654435761
}

/// Channel value drawn from the hash byte that `h / scale` ends in: in `40..220`.
pub open spec fn vivid(h: int, scale: int) -> u8 {
    (40 + (h / scale) % 256 % 180) as u8
}

/// The color that states with id `id` are drawn in.
pub open spec fn state_color(id: u32) -> RGBColor {
    let h = state_hash(id);
    opaque(vivid(h, 1), vivid(h, 256), vivid(h, 65536))
}

/// Computes the color of state `id`.
pub fn state_color_of(id: u32) -> (c: RGBColor)
    ensures
        c == state_color(id),
{
    let h: u64 = (id as u64 + 1) * 2654435761u64;
    let r = (40 + (h % 256) % 180) as u8;
    let g = (40 + ((h / 256) % 256) % 180) as u8;
    let b = (40 + ((h / 65536) % 256) % 180) as u8;
    rgb(r, g, b)
}

/// Color of provinces that belong to no state, in state mode.
pub open spec fn no_state_gray() -> RGBColor { opaque(60, 60, 60) }
/// Color of provinces that belong to no state, in country mode.
pub open spec fn no_owner_gray() -> RGBColor { opaque(40, 40, 40) }
/// Color of provinces whose owner has no registered color.
pub open spec fn unknown_owner_gray() -> RGBColor { opaque(128, 128, 128) }
/// Terrain color of ids without a definition.
pub open spec fn no_terrain_gray() -> RGBColor { opaque(100, 100, 100) }

/// The fixed color of a terrain name.
pub open spec fn terrain_color(t: Seq<char>) -> RGBColor {
    if t == "plains"@ { opaque(247, 166, 86) }
    else if t == "forest"@ { opaque(85, 139, 47) }
    else if t == "hills"@ { opaque(255, 215, 0) }
    else if t == "mountain"@ { opaque(139, 69, 19) }
    else if t == "urban"@ { opaque(128, 128, 128) }
    else if t == "jungle"@ { opaque(34, 139, 34) }
    else if t == "marsh"@ { opaque(47, 79, 79) }
    else if t == "desert"@ { opaque(244, 164, 96) }
    else if t == "water"@ || t == "ocean"@ { opaque(65, 105, 225) }
    else if t == "lakes"@ { opaque(65, 155, 225) }
    else { opaque(200, 200, 200) }
}

/// Looks up the fixed color of a terrain name.
pub fn terrain_color_of(t: &str) -> (c: RGBColor)
    ensures
        c == terrain_color(t@),
{
    if same_text(t, "plains") { rgb(247, 166, 86) }
    else if same_text(t, "forest") { rgb(85, 139, 47) }
    else if same_text(t, "hills") { rgb(255, 215, 0) }
    else if same_text(t, "mountain") { rgb(139, 69, 19) }
    else if same_text(t, "urban") { rgb(128, 128, 128) }
    else if same_text(t, "jungle") { rgb(34, 139, 34) }
    else if same_text(t, "marsh") { rgb(47, 79, 79) }
    else if same_text(t, "desert") { rgb(244, 164, 96) }
    else if same_text(t, "water") || same_text(t, "ocean") { rgb(65, 105, 225) }
    else if same_text(t, "lakes") { rgb(65, 155, 225) }
    else { rgb(200, 200, 200) }
}

} // verus!

verus! {

/// The color registered last for owner tag `tag`, if any.
pub open spec fn tag_color(colors: Seq<(String, RGBColor)>, tag: Seq<char>) -> Option<RGBColor>
    decreases colors.len(),
{
    if colors.len() == 0 {
        None
    } else if colors.last().0@ == tag {
        Some(colors.last().1)
    } else {
        tag_color(colors.drop_last(), tag)
    }
}

/// Looks up the color registered last for owner tag `tag`.
pub fn owner_color_of_tag(colors: &Vec<(String, RGBColor)>, tag: &String) -> (c: Option<RGBColor>)
    ensures
        c == tag_color(colors@, tag@),
{
    let mut found: Option<RGBColor> = None;
    let mut i: usize = 0;
    while i < colors.len()
        invariant
            i <= colors@.len(),
            found == tag_color(colors@.take(i as int), tag@),
        decreases colors@.len() - i,
    {
        if same_text(colors[i].0.as_str(), tag.as_str()) {
            found = Some(colors[i].1);
        }
        assert(colors@.take(i as int + 1).drop_last() =~= colors@.take(i as int));
        i = i + 1;
    }
    assert(colors@.take(colors@.len() as int) =~= colors@);
    found
}

/// The country-mode color of provinces owned by `tag`.
pub open spec fn owner_color(colors: Seq<(String, RGBColor)>, tag: Seq<char>) -> RGBColor {
    match tag_color(colors, tag) {
        Some(c) => opaque(c.r, c.g, c.b),
        None => unknown_owner_gray(),
    }
}

/// Looks up the country-mode color of provinces owned by `tag`.
pub fn owner_color_of(colors: &Vec<(String, RGBColor)>, tag: &String) -> (c: RGBColor)
    ensures
        c == owner_color(colors@, tag@),
{
    match owner_color_of_tag(colors, tag) {
        Some(c) => rgb(c.r, c.g, c.b),
        None => rgb(128, 128, 128),
    }
}

/// Province-mode color of `id`: its own defined color, black if undefined.
pub open spec fn province_entry(defs: Seq<ProvinceDefinition>, id: u32) -> RGBColor {
    match last_def(defs, id) {
        Some(d) => opaque(d.r, d.g, d.b),
        None => opaque(0, 0, 0),
    }
}

/// Terrain-mode color of `id`.
pub open spec fn terrain_entry(defs: Seq<ProvinceDefinition>, id: u32) -> RGBColor {
    match last_def(defs, id) {
        Some(d) => terrain_color(d.terrain@),
        None => no_terrain_gray(),
    }
}

/// State-mode color of `id`: the color of its owning state, gray if none.
pub open spec fn state_entry(defs: Seq<ProvinceDefinition>, states: Seq<StateDefinition>, id: u32) -> RGBColor {
    if last_def(defs, id) is Some {
        match last_state(states, id) {
            Some(s) => state_color(s.id),
            None => no_state_gray(),
        }
    } else {
        no_state_gray()
    }
}

/// Country-mode color of `id`: the color of its state's owner tag.
pub open spec fn country_entry(
    defs: Seq<ProvinceDefinition>,
    states: Seq<StateDefinition>,
    colors: Seq<(String, RGBColor)>,
    id: u32,
) -> RGBColor {
    if last_def(defs, id) is Some {
        match last_state(states, id) {
            Some(s) => owner_color(colors, s.owner@),
            None => no_owner_gray(),
        }
    } else {
        no_owner_gray()
    }
}

/// The four per-id color tables, one per render mode.
pub struct RenderLuts {
    pub province: Vec<RGBColor>,
    pub state: Vec<RGBColor>,
    pub country: Vec<RGBColor>,
    pub terrain: Vec<RGBColor>,
}

/// Whether `l` holds, for each id below `size`, the colors its entries say.
pub open spec fn luts_ok(
    l: RenderLuts,
    defs: Seq<ProvinceDefinition>,
    states: Seq<StateDefinition>,
    colors: Seq<(String, RGBColor)>,
    size: int,
) -> bool {
    &&& l.province@.len() == size
    &&& l.state@.len() == size
    &&& l.country@.len() == size
    &&& l.terrain@.len() == size
    &&& forall|id: u32| (id as int) < size ==> #[trigger] l.province@[id as int] == province_entry(defs, id)
    &&& forall|id: u32| (id as int) < size ==> #[trigger] l.terrain@[id as int] == terrain_entry(defs, id)
    &&& forall|id: u32| (id as int) < size ==> #[trigger] l.state@[id as int] == state_entry(defs, states, id)
    &&& forall|id: u32| (id as int) < size ==> #[trigger] l.country@[id as int] == country_entry(defs, states, colors, id)
}

fn filled(n: usize, c: RGBColor) -> (v: Vec<RGBColor>)
    ensures
        v@.len() == n,
        forall|i: int| 0 <= i < n ==> #[trigger] v@[i] == c,
{
    let mut v: Vec<RGBColor> = Vec::new();
    let mut i: usize = 0;
    while i < n
        invariant
            i <= n,
            v@.len() == i,
            forall|j: int| 0 <= j < i ==> #[trigger] v@[j] == c,
        decreases n - i,
    {
        v.push(c);
        i = i + 1;
    }
    v
}

/// Builds the four render tables for ids below `size`.
pub fn build_render_luts(
    defs: &Vec<ProvinceDefinition>,
    states: &Vec<StateDefinition>,
    colors: &Vec<(String, RGBColor)>,
    size: usize,
) -> (l: RenderLuts)
    ensures
        luts_ok(l, defs@, states@, colors@, size as int),
{
    let mut province = filled(size, rgb(0, 0, 0));
    let mut terrain = filled(size, rgb(100, 100, 100));
    let mut defined: Vec<bool> = Vec::new();
    let mut i: usize = 0;
    while i < size
        invariant
            i <= size,
            defined@.len() == i,
            forall|j: int| 0 <= j < i ==> !(#[trigger] defined@[j]),
        decreases size - i,
    {
        defined.push(false);
        i = i + 1;
    }
    let mut k: usize = 0;
    while k < defs.len()
        invariant
            k <= defs@.len(),
            province@.len() == size,
            terrain@.len() == size,
            defined@.len() == size,
            forall|id: u32| (id as int) < size ==> #[trigger] province@[id as int] == province_entry(defs@.take(k as int), id),
            forall|id: u32| (id as int) < size ==> #[trigger] terrain@[id as int] == terrain_entry(defs@.take(k as int), id),
            forall|id: u32| (id as int) < size ==> #[trigger] defined@[id as int] == last_def(defs@.take(k as int), id) is Some,
        decreases defs@.len() - k,
    {
        let d = &defs[k];
        let idx = d.id as usize;
        if idx < size {
            province.set(idx, rgb(d.r, d.g, d.b));
            terrain.set(idx, terrain_color_of(d.terrain.as_str()));
            defined.set(idx, true);
        }
        assert(defs@.take(k as int + 1).drop_last() =~= defs@.take(k as int));
        k = k + 1;
    }
    assert(defs@.take(defs@.len() as int) =~= defs@);
    let mut state = filled(size, rgb(60, 60, 60));
    let mut country = filled(size, rgb(40, 40, 40));
    let mut k: usize = 0;
    while k < states.len()
        invariant
            k <= states@.len(),
            state@.len() == size,
            country@.len() == size,
            defined@.len() == size,
            forall|id: u32| (id as int) < size ==> #[trigger] defined@[id as int] == last_def(defs@, id) is Some,
            forall|id: u32| (id as int) < size ==> #[trigger] state@[id as int] == state_entry(defs@, states@.take(k as int), id),
            forall|id: u32| (id as int) < size ==> #[trigger] country@[id as int] == country_entry(defs@, states@.take(k as int), colors@, id),
        decreases states@.len() - k,
    {
        let s = &states[k];
        let sc = state_color_of(s.id);
        let oc = owner_color_of(colors, &s.owner);
        let ghost before = states@.take(k as int);
        let mut j: usize = 0;
        while j < s.provinces.len()
            invariant
                j <= s.provinces@.len(),
                state@.len() == size,
                country@.len() == size,
                defined@.len() == size,
                forall|id: u32| (id as int) < size ==> #[trigger] defined@[id as int] == last_def(defs@, id) is Some,
                forall|id: u32| (id as int) < size ==> #[trigger] state@[id as int] == if last_def(defs@, id) is Some && s.provinces@.take(j as int).contains(id) {
                    sc
                } else {
                    state_entry(defs@, before, id)
                },
                forall|id: u32| (id as int) < size ==> #[trigger] country@[id as int] == if last_def(defs@, id) is Some && s.provinces@.take(j as int).contains(id) {
                    oc
                } else {
                    country_entry(defs@, before, colors@, id)
                },
            decreases s.provinces@.len() - j,
        {
            let p = s.provinces[j];
            let ghost old_country = country@;
            let pu = p as usize;
            if pu < size && defined[pu] {
                state.set(pu, sc);
                country.set(pu, oc);
            }
            proof {
                assert forall|id: u32| s.provinces@.take(j as int + 1).contains(id) == (s.provinces@.take(j as int).contains(id) || id == p) by {
                    if s.provinces@.take(j as int + 1).contains(id) {
                        let q = choose|q: int| 0 <= q < j + 1 && #[trigger] s.provinces@.take(j as int + 1)[q] == id;
                        if q < j {
                            assert(s.provinces@.take(j as int)[q] == id);
                        }
                    }
                    if s.provinces@.take(j as int).contains(id) {
                        let q = choose|q: int| 0 <= q < j && #[trigger] s.provinces@.take(j as int)[q] == id;
                        assert(s.provinces@.take(j as int + 1)[q] == id);
                    }
                    if id == p {
                        assert(s.provinces@.take(j as int + 1)[j as int] == id);
                    }
                }
            }
            proof {
                assert forall|id: u32| (id as int) < size implies #[trigger] country@[id as int] == if last_def(defs@, id) is Some && s.provinces@.take(j as int + 1).contains(id) {
                    oc
                } else {
                    country_entry(defs@, before, colors@, id)
                } by {
                    if id == p {
                        assert(s.provinces@.take(j as int + 1)[j as int] == id);
                        assert(s.provinces@.take(j as int + 1).contains(id));
                    } else {
                        assert(country@[id as int] == old_country[id as int]);
                    }
                }
            }
            j = j + 1;
        }
        proof {
            assert(s.provinces@.take(s.provinces@.len() as int) =~= s.provinces@);
            assert(states@.take(k as int + 1).drop_last() =~= before);
            assert(states@.take(k as int + 1).last() == *s);
        }
        k = k + 1;
    }
    assert(states@.take(states@.len() as int) =~= states@);
    RenderLuts { province, state, country, terrain }
}

} // verus!
