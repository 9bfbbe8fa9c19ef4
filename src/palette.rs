use crate::error::InkyError;
use crate::space::{lemma_distance_zero, ColourSpace};
use vstd::prelude::*;

verus! {

/// Number of colours in a palette.
pub const PALETTE_LEN: usize = 6;

/// Saturation is given in thousandths: `SATURATION_SCALE` stands for 1.
pub const SATURATION_SCALE: i32 = 1000;

/// One channel blended between a desaturated value `d` and a saturated value `s`
/// at saturation `sat` thousandths, rounded half up.
pub open spec fn blend_channel(d: int, s: int, sat: int) -> int {
    (d * (1000 - sat) + s * sat + 500) / 1000
}

/// `r` is the blend of colours `d` and `s` at saturation `sat`, channel by channel.
pub open spec fn is_blend(r: [u8; 3], d: [u8; 3], s: [u8; 3], sat: int) -> bool {
    forall|k: int|
        0 <= k < 3 ==> #[trigger] r[k] as int == blend_channel(d[k] as int, s[k] as int, sat)
}

/// Index of the nearest colour to `p` in `cl`, scanning from the front and keeping
/// the first of equally near colours.
pub open spec fn nearest_index(cl: Seq<[u8; 3]>, space: ColourSpace, p: [u8; 3]) -> int
    decreases cl.len(),
{
    if cl.len() <= 1 {
        0
    } else {
        let k = nearest_index(cl.drop_last(), space, p);
        if space.distance(cl.last(), p) < space.distance(cl[k], p) {
            cl.len() - 1
        } else {
            k
        }
    }
}

/// Index of the first entry of `cl`, from `i` on, equal to `p`; 0 where there is none.
pub open spec fn find_from(cl: Seq<[u8; 3]>, p: [u8; 3], i: int) -> int
    decreases cl.len() - i,
{
    if i < 0 || i >= cl.len() {
        0
    } else if cl[i] == p {
        i
    } else {
        find_from(cl, p, i + 1)
    }
}

/// The nearest colour is one of the list, no colour is nearer, and every colour
/// before it is farther.
pub proof fn lemma_nearest_index(cl: Seq<[u8; 3]>, space: ColourSpace, p: [u8; 3])
    requires
        cl.len() >= 1,
    ensures
        0 <= nearest_index(cl, space, p) < cl.len(),
        forall|j: int|
            0 <= j < cl.len() ==> space.distance(cl[nearest_index(cl, space, p)], p)
                <= #[trigger] space.distance(cl[j], p),
        forall|j: int|
            0 <= j < nearest_index(cl, space, p) ==> #[trigger] space.distance(cl[j], p)
                > space.distance(cl[nearest_index(cl, space, p)], p),
    decreases cl.len(),
{
    if cl.len() > 1 {
        let init = cl.drop_last();
        lemma_nearest_index(init, space, p);
        assert forall|j: int| 0 <= j < init.len() implies init[j] == cl[j] by {}
    }
}

/// The first index of `p` in `cl` is an index of `p`, and no earlier entry is `p`;
/// where `p` is absent it is 0.
pub proof fn lemma_find_from(cl: Seq<[u8; 3]>, p: [u8; 3], i: int)
    requires
        0 <= i,
    ensures
        (exists|j: int| i <= j < cl.len() && cl[j] == p) ==> {
            let k = find_from(cl, p, i);
            &&& i <= k < cl.len()
            &&& cl[k] == p
            &&& forall|j: int| i <= j < k ==> cl[j] != p
        },
        !(exists|j: int| i <= j < cl.len() && cl[j] == p) ==> find_from(cl, p, i) == 0,
    decreases cl.len() - i,
{
    if i < cl.len() && cl[i] != p {
        lemma_find_from(cl, p, i + 1);
        if exists|j: int| i <= j < cl.len() && cl[j] == p {
            let j = choose|j: int| i <= j < cl.len() && cl[j] == p;
            assert(i + 1 <= j);
        }
    }
}

/// Blending at saturation 0 gives the desaturated colour and at saturation 1 the
/// saturated colour, exactly.
pub proof fn lemma_blend_at_ends(r: [u8; 3], d: [u8; 3], s: [u8; 3])
    ensures
        is_blend(r, d, s, 0) ==> r == d,
        is_blend(r, d, s, SATURATION_SCALE as int) ==> r == s,
{
    if is_blend(r, d, s, 0) {
        assert forall|k: int| 0 <= k < 3 implies r[k] == d[k] by {
            assert(r[k] as int == blend_channel(d[k] as int, s[k] as int, 0));
        }
        assert(r =~= d);
    }
    if is_blend(r, d, s, SATURATION_SCALE as int) {
        assert forall|k: int| 0 <= k < 3 implies r[k] == s[k] by {
            assert(r[k] as int == blend_channel(d[k] as int, s[k] as int, 1000));
        }
        assert(r =~= s);
    }
}

/// Looking up a colour of the palette finds a colour at distance zero from it,
/// with the same coordinates in the space searched; in RGB, that very colour.
pub proof fn lemma_closest_of_member(pal: Palette, space: ColourSpace, i: int)
    requires
        pal.wf(),
        0 <= i < PALETTE_LEN,
    ensures
        space.distance(pal.closest(space, pal@[i]), pal@[i]) == 0,
        space.coords(pal.closest(space, pal@[i])) =~= space.coords(pal@[i]),
        space is RGB ==> pal.closest(space, pal@[i]) == pal@[i],
{
    let p = pal@[i];
    let k = nearest_index(pal@, space, p);
    lemma_nearest_index(pal@, space, p);
    lemma_distance_zero(space, p, p);
    lemma_distance_zero(space, pal@[k], p);
    assert(space.distance(pal@[k], p) <= space.distance(pal@[i], p));
}

/// Quantising is idempotent: the palette colour closest to a closest colour is
/// that colour itself.
pub proof fn lemma_closest_idempotent(pal: Palette, space: ColourSpace, p: [u8; 3])
    requires
        pal.wf(),
    ensures
        pal.closest(space, pal.closest(space, p)) == pal.closest(space, p),
{
    let cl = pal@;
    let k = nearest_index(cl, space, p);
    lemma_nearest_index(cl, space, p);
    let c = cl[k];
    let k2 = nearest_index(cl, space, c);
    lemma_nearest_index(cl, space, c);
    lemma_distance_zero(space, c, c);
    lemma_distance_zero(space, cl[k2], c);
    assert(space.distance(cl[k], c) == 0);
    assert(space.distance(cl[k2], c) <= space.distance(cl[k], c));
    assert(space.coords(cl[k2]) =~= space.coords(c));
    if k2 > k {
        assert(space.distance(cl[k], c) > space.distance(cl[k2], c));
    }
    if k2 < k {
        assert(space.distance(cl[k2], p) == space.distance(cl[k], p));
        assert(space.distance(cl[k2], p) > space.distance(cl[k], p));
    }
}

/// A colour palette: a list of RGB colours.
#[derive(Debug, Clone)]
pub struct Palette(Vec<[u8; 3]>);

impl View for Palette {
    type V = Seq<[u8; 3]>;

    closed spec fn view(&self) -> Seq<[u8; 3]> {
        self.0@
    }
}

impl Palette {
    /// A palette has exactly six colours.
    pub open spec fn wf(&self) -> bool {
        self@.len() == PALETTE_LEN
    }

    /// The colour of the palette nearest to `p` in `space`.
    pub open spec fn closest(&self, space: ColourSpace, p: [u8; 3]) -> [u8; 3] {
        self@[nearest_index(self@, space, p)]
    }

    /// The palette index of `p`: its first exact match, or 0 where it has none.
    pub open spec fn index_of(&self, p: [u8; 3]) -> int {
        find_from(self@, p, 0)
    }

    /// A palette of the given six colours, in order.
    pub fn from_colours(colours: [[u8; 3]; 6]) -> (r: Self)
        ensures
            r.wf(),
            r@ == colours@,
    {
        let mut v: Vec<[u8; 3]> = Vec::new();
        let mut i: usize = 0;
        while i < PALETTE_LEN
            invariant
                i <= PALETTE_LEN,
                v@ == colours@.take(i as int),
            decreases PALETTE_LEN - i,
        {
            v.push(colours[i]);
            i = i + 1;
            proof {
                assert(v@ =~= colours@.take(i as int));
            }
        }
        proof {
            assert(colours@.take(PALETTE_LEN as int) =~= colours@);
        }
        Palette(v)
    }

    /// Creates a new Palette by blending 2 palettes together based on the given
    /// saturation, in thousandths.
    ///
    /// Fails if the saturation is outside `0..=1000`.
    pub fn from_blend(desat_palette: &[[u8; 3]], sat_palette: &[[u8; 3]], saturation: i32) -> (r:
        Result<Self, InkyError>)
        requires
            desat_palette@.len() == PALETTE_LEN,
            sat_palette@.len() == PALETTE_LEN,
        ensures
            r is Ok <==> 0 <= saturation <= SATURATION_SCALE,
            r is Err ==> r == Err::<Self, InkyError>(InkyError::InvalidSaturation(saturation)),
            r is Ok ==> r->Ok_0.wf() && forall|i: int|
                0 <= i < PALETTE_LEN ==> is_blend(
                    #[trigger] r->Ok_0@[i],
                    desat_palette@[i],
                    sat_palette@[i],
                    saturation as int,
                ),
    {
        if saturation < 0 || saturation > SATURATION_SCALE {
            return Err(InkyError::InvalidSaturation(saturation));
        }
        let mut res: Vec<[u8; 3]> = Vec::new();
        let mut i: usize = 0;
        while i < PALETTE_LEN
            invariant
                0 <= saturation <= SATURATION_SCALE,
                i <= PALETTE_LEN,
                res@.len() == i,
                desat_palette@.len() == PALETTE_LEN,
                sat_palette@.len() == PALETTE_LEN,
                forall|j: int|
                    0 <= j < i ==> is_blend(
                        #[trigger] res@[j],
                        desat_palette@[j],
                        sat_palette@[j],
                        saturation as int,
                    ),
            decreases PALETTE_LEN - i,
        {
            let d = desat_palette[i];
            let s = sat_palette[i];
            let c = [
                blend_channel_of(d[0], s[0], saturation),
                blend_channel_of(d[1], s[1], saturation),
                blend_channel_of(d[2], s[2], saturation),
            ];
            res.push(c);
            i = i + 1;
        }
        Ok(Palette(res))
    }

    /// Returns the palette colours.
    pub fn get_colours(&self) -> (r: &[[u8; 3]])
        ensures
            r@ == self@,
    {
        self.0.as_slice()
    }

    /// Finds the closest colour in the palette to a given pixel using the specified
    /// colour space.
    pub fn closest_colour(&self, space: ColourSpace, pixel: &[u8; 3]) -> (r: [u8; 3])
        requires
            self.wf(),
        ensures
            r == self.closest(space, *pixel),
    {
        let (idx, _dist) = closest_colour_h(self.0.as_slice(), space, *pixel);
        proof {
            lemma_nearest_index(self@, space, *pixel);
        }
        self.0[idx]
    }

    /// Returns the index of the palette colour of the pixel provided.
    ///
    /// If the pixel isn't a palette colour, returns 0.
    pub fn to_idx(&self, pixel: &[u8; 3]) -> (r: u8)
        requires
            self.wf(),
        ensures
            r as int == self.index_of(*pixel),
            (exists|i: int| 0 <= i < self@.len() && self@[i] == *pixel) ==> {
                &&& r < PALETTE_LEN
                &&& self@[r as int] == *pixel
                &&& forall|j: int| 0 <= j < r ==> self@[j] != *pixel
            },
            !(exists|i: int| 0 <= i < self@.len() && self@[i] == *pixel) ==> r == 0,
    {
        proof {
            lemma_find_from(self@, *pixel, 0);
        }
        let mut i: usize = 0;
        while i < self.0.len()
            invariant
                i <= self.0@.len() == PALETTE_LEN,
                forall|j: int| 0 <= j < i ==> self.0@[j] != *pixel,
                find_from(self.0@, *pixel, 0) == find_from(self.0@, *pixel, i as int),
            decreases self.0@.len() - i,
        {
            if same_colour(&self.0[i], pixel) {
                return i as u8;
            }
            i = i + 1;
        }
        0
    }
}

/// Whether two colours are equal, channel by channel.
fn same_colour(a: &[u8; 3], b: &[u8; 3]) -> (r: bool)
    ensures
        r == (*a == *b),
{
    let r = a[0] == b[0] && a[1] == b[1] && a[2] == b[2];
    proof {
        if r {
            assert(forall|k: int| 0 <= k < 3 ==> a[k] == b[k]);
            assert(*a =~= *b);
        }
    }
    r
}

/// Blends one channel, rounding half up.
fn blend_channel_of(d: u8, s: u8, saturation: i32) -> (r: u8)
    requires
        0 <= saturation <= SATURATION_SCALE,
    ensures
        r as int == blend_channel(d as int, s as int, saturation as int),
{
    let sat = saturation as u32;
    proof {
        assert((d as int) * (1000 - sat) + (s as int) * sat <= 255 * 1000) by (nonlinear_arith)
            requires
                0 <= sat <= 1000,
                0 <= d <= 255,
                0 <= s <= 255,
        ;
        assert(0 <= (d as int) * (1000 - sat)) by (nonlinear_arith)
            requires
                0 <= sat <= 1000,
                0 <= d,
        ;
        assert(0 <= (s as int) * sat) by (nonlinear_arith)
            requires
                0 <= sat,
                0 <= s,
        ;
    }
    (((d as u32) * (1000 - sat) + (s as u32) * sat + 500) / 1000) as u8
}

/// Index of the nearest colour of `cl` to `pixel`, first of equals, with its distance.
fn closest_colour_h(cl: &[[u8; 3]], space: ColourSpace, pixel: [u8; 3]) -> (r: (usize, u128))
    requires
        cl@.len() >= 1,
    ensures
        r.0 as int == nearest_index(cl@, space, pixel),
        r.1 == space.distance(cl@[r.0 as int], pixel),
{
    let mut closest_colour_idx: usize = 0;
    let mut closest_dist: u128 = space.distance_sq(cl[0], pixel);
    let mut i: usize = 1;
    proof {
        assert(cl@.take(1).len() == 1);
    }
    while i < cl.len()
        invariant
            1 <= i <= cl@.len(),
            closest_colour_idx as int == nearest_index(cl@.take(i as int), space, pixel),
            closest_colour_idx < i,
            closest_dist == space.distance(cl@[closest_colour_idx as int], pixel),
        decreases cl@.len() - i,
    {
        proof {
            lemma_nearest_index(cl@.take(i as int), space, pixel);
            assert(cl@.take(i as int + 1).drop_last() =~= cl@.take(i as int));
        }
        let dist = space.distance_sq(cl[i], pixel);
        if dist < closest_dist {
            closest_colour_idx = i;
            closest_dist = dist;
        }
        i = i + 1;
    }
    proof {
        assert(cl@.take(i as int) =~= cl@);
    }
    (closest_colour_idx, closest_dist)
}

} // verus!
