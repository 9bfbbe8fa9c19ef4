use vstd::prelude::*;

verus! {

/// `x³`.
pub open spec fn cube(x: int) -> int {
    x * x * x
}

/// `x⁵`.
pub open spec fn fifth(x: int) -> int {
    x * x * x * x * x
}

/// The integer cube root of `n`: the largest `r` with `r³ ≤ n`.
pub open spec fn cube_root_of(n: int) -> int {
    choose|r: int| 0 <= r && #[trigger] cube(r) <= n < cube(r + 1)
}

/// The integer fifth root of `n`: the largest `r` with `r⁵ ≤ n`.
pub open spec fn fifth_root_of(n: int) -> int {
    choose|r: int| 0 <= r && #[trigger] fifth(r) <= n < fifth(r + 1)
}

proof fn lemma_cube_monotone(a: int, b: int)
    requires
        0 <= a <= b,
    ensures
        cube(a) <= cube(b),
{
    assert(a * a <= b * b) by (nonlinear_arith)
        requires
            0 <= a <= b,
    ;
    assert(a * a * a <= b * b * b) by (nonlinear_arith)
        requires
            0 <= a <= b,
            a * a <= b * b,
    ;
}

proof fn lemma_fifth_monotone(a: int, b: int)
    requires
        0 <= a <= b,
    ensures
        fifth(a) <= fifth(b),
{
    lemma_cube_monotone(a, b);
    assert(0 <= a * a <= b * b) by (nonlinear_arith)
        requires
            0 <= a <= b,
    ;
    assert(a * a * a * a * a <= b * b * b * b * b) by (nonlinear_arith)
        requires
            0 <= a <= b,
            0 <= a * a <= b * b,
            0 <= a * a * a <= b * b * b,
    ;
}

proof fn lemma_cube_root_unique(n: int, r: int)
    requires
        0 <= r,
        cube(r) <= n < cube(r + 1),
    ensures
        cube_root_of(n) == r,
{
    let s = cube_root_of(n);
    assert(0 <= s && cube(s) <= n < cube(s + 1));
    if s < r {
        lemma_cube_monotone(s + 1, r);
    } else if r < s {
        lemma_cube_monotone(r + 1, s);
    }
}

proof fn lemma_fifth_root_unique(n: int, r: int)
    requires
        0 <= r,
        fifth(r) <= n < fifth(r + 1),
    ensures
        fifth_root_of(n) == r,
{
    let s = fifth_root_of(n);
    assert(0 <= s && fifth(s) <= n < fifth(s + 1));
    if s < r {
        lemma_fifth_monotone(s + 1, r);
    } else if r < s {
        lemma_fifth_monotone(r + 1, s);
    }
}

/// Upper bound (exclusive) on the cube roots that `cube_root` searches: 2^27.
pub const CUBE_ROOT_LIMIT: u128 = 0x800_0000;

/// Upper bound (exclusive) on the fifth roots that `fifth_root` searches: 2^19.
pub const FIFTH_ROOT_LIMIT: u128 = 0x8_0000;

/// Integer cube root by bisection.
pub fn cube_root(n: u128) -> (r: u128)
    requires
        n < cube(CUBE_ROOT_LIMIT as int),
    ensures
        r == cube_root_of(n as int),
        r < CUBE_ROOT_LIMIT,
{
    let mut lo: u128 = 0;
    let mut hi: u128 = CUBE_ROOT_LIMIT;
    while lo + 1 < hi
        invariant
            lo < hi <= CUBE_ROOT_LIMIT,
            cube(lo as int) <= n,
            n < cube(hi as int),
        decreases hi - lo,
    {
        let mid: u128 = lo + (hi - lo) / 2;
        proof {
            lemma_cube_monotone(mid as int, CUBE_ROOT_LIMIT as int);
            assert(mid * mid <= mid * mid * mid || mid == 0) by (nonlinear_arith);
        }
        if mid * mid * mid <= n {
            lo = mid;
        } else {
            hi = mid;
        }
    }
    proof {
        lemma_cube_root_unique(n as int, lo as int);
    }
    lo
}

/// Integer fifth root by bisection.
pub fn fifth_root(n: u128) -> (r: u128)
    requires
        n < fifth(FIFTH_ROOT_LIMIT as int),
    ensures
        r == fifth_root_of(n as int),
        r < FIFTH_ROOT_LIMIT,
{
    let mut lo: u128 = 0;
    let mut hi: u128 = FIFTH_ROOT_LIMIT;
    while lo + 1 < hi
        invariant
            lo < hi <= FIFTH_ROOT_LIMIT,
            fifth(lo as int) <= n,
            n < fifth(hi as int),
        decreases hi - lo,
    {
        let mid: u128 = lo + (hi - lo) / 2;
        proof {
            lemma_fifth_monotone(mid as int, FIFTH_ROOT_LIMIT as int);
            assert(mid * mid <= mid * mid * mid <= mid * mid * mid * mid <= mid * mid * mid
                * mid * mid || mid == 0) by (nonlinear_arith);
        }
        if mid * mid * mid * mid * mid <= n {
            lo = mid;
        } else {
            hi = mid;
        }
    }
    proof {
        lemma_fifth_root_unique(n as int, lo as int);
    }
    lo
}

/// 2^90, the scale at which `u^0.4` is taken in the gamma expansion.
pub const GAMMA_ROOT_SCALE: u128 = 0x400_0000_0000_0000_0000_0000;

/// 2^18, the fifth root of `GAMMA_ROOT_SCALE`.
pub const GAMMA_ROOT_UNIT: u128 = 0x4_0000;

/// An sRGB channel (0 to 255) expanded to linear light, in millionths.
///
/// Above the threshold `c / 255 > 0.04045` this is `((c / 255 + 0.055) / 1.055)^2.4`,
/// taken as `u² · u^0.4` with `u = p / q`; below it, `c / 255 / 12.92`.
pub open spec fn linear_channel(c: int) -> int {
    if c * 100_000 > 4045 * 255 {
        let p = 1000 * c + 14025;
        let q = 269025int;
        let g = fifth_root_of(p * p * GAMMA_ROOT_SCALE / (q * q));
        p * p * g * 1_000_000 / (q * q * GAMMA_ROOT_UNIT)
    } else {
        c * 100_000_000 / 329_460
    }
}

/// CIE XYZ (scaled so that white has Y = 100) of linear-light channels given in
/// millionths, in thousandths, with the standard sRGB matrix.
pub open spec fn xyz_of_linear(r: int, g: int, b: int) -> Seq<int> {
    seq![
        (4124 * r + 3576 * g + 1805 * b) / 100_000,
        (2126 * r + 7152 * g + 722 * b) / 100_000,
        (193 * r + 1192 * g + 9505 * b) / 100_000,
    ]
}

/// CIE XYZ of an sRGB colour, in thousandths.
pub open spec fn xyz_of(c: [u8; 3]) -> Seq<int> {
    xyz_of_linear(
        linear_channel(c[0] as int),
        linear_channel(c[1] as int),
        linear_channel(c[2] as int),
    )
}

/// The CIELAB compression function on a ratio `t` given in millionths, result in
/// millionths: the cube root above 0.008856, `7.787 t + 16/116` below.
pub open spec fn lab_compress(t: int) -> int {
    if t > 8856 {
        cube_root_of(t * 1_000_000_000_000)
    } else {
        7787 * t / 1000 + 16_000_000int / 116
    }
}

/// CIELAB, in millionths, of an XYZ colour given in thousandths, against the
/// reference white X = 95.0489, Y = 100, Z = 108.884.
pub open spec fn lab_of_xyz(x: int, y: int, z: int) -> Seq<int> {
    let fx = lab_compress(x * 10_000_000 / 950_489);
    let fy = lab_compress(y * 10);
    let fz = lab_compress(z * 1_000_000 / 108_884);
    seq![116 * fy - 16_000_000, 500 * (fx - fy), 200 * (fy - fz)]
}

/// Sum of squared differences of the first three coordinates.
pub open spec fn sq_dist(a: Seq<int>, b: Seq<int>) -> int {
    (a[0] - b[0]) * (a[0] - b[0]) + (a[1] - b[1]) * (a[1] - b[1]) + (a[2] - b[2]) * (a[2] - b[2])
}

/// Expands one sRGB channel to linear light, in millionths.
fn linear_channel_of(c: u8) -> (r: u64)
    ensures
        r == linear_channel(c as int),
        r <= 2_000_000,
{
    if (c as u64) * 100_000 > 4045 * 255 {
        let p: u128 = 1000 * (c as u128) + 14025;
        let q: u128 = 269025;
        proof {
            assert(p * p <= q * q) by (nonlinear_arith)
                requires
                    0 <= p <= q,
            ;
            assert(p * p * GAMMA_ROOT_SCALE <= q * q * GAMMA_ROOT_SCALE) by (nonlinear_arith)
                requires
                    p * p <= q * q,
            ;
            assert(p * p * GAMMA_ROOT_SCALE / (q * q) <= GAMMA_ROOT_SCALE) by (nonlinear_arith)
                requires
                    p * p <= q * q,
                    q * q > 0,
            ;
            assert(fifth(FIFTH_ROOT_LIMIT as int) > GAMMA_ROOT_SCALE);
        }
        let g: u128 = fifth_root(p * p * GAMMA_ROOT_SCALE / (q * q));
        proof {
            assert(p * p * g <= q * q * FIFTH_ROOT_LIMIT) by (nonlinear_arith)
                requires
                    p * p <= q * q,
                    g < FIFTH_ROOT_LIMIT,
            ;
            assert(p * p * g * 1_000_000 / (q * q * GAMMA_ROOT_UNIT) <= 2_000_000)
                by (nonlinear_arith)
                requires
                    p * p * g <= q * q * FIFTH_ROOT_LIMIT,
                    q * q > 0,
                    FIFTH_ROOT_LIMIT == 2 * GAMMA_ROOT_UNIT,
                    GAMMA_ROOT_UNIT > 0,
            ;
        }
        (p * p * g * 1_000_000 / (q * q * GAMMA_ROOT_UNIT)) as u64
    } else {
        (c as u64) * 100_000_000 / 329_460
    }
}

/// Converts an sRGB colour to CIE XYZ in thousandths (white is about
/// `[95050, 100000, 108900]`).
pub fn rgb_to_xyz(input: [u8; 3]) -> (r: [u32; 3])
    ensures
        r[0] == xyz_of(input)[0],
        r[1] == xyz_of(input)[1],
        r[2] == xyz_of(input)[2],
{
    let r = linear_channel_of(input[0]);
    let g = linear_channel_of(input[1]);
    let b = linear_channel_of(input[2]);
    let x = (4124 * r + 3576 * g + 1805 * b) / 100_000;
    let y = (2126 * r + 7152 * g + 722 * b) / 100_000;
    let z = (193 * r + 1192 * g + 9505 * b) / 100_000;
    [x as u32, y as u32, z as u32]
}

/// The CIELAB compression function on a ratio in millionths.
fn lab_compress_of(t: u64) -> (r: u64)
    requires
        t <= 50_000_000_000,
    ensures
        r == lab_compress(t as int),
        r < CUBE_ROOT_LIMIT,
{
    if t > 8856 {
        proof {
            assert(cube(CUBE_ROOT_LIMIT as int) > 50_000_000_000 * 1_000_000_000_000);
        }
        cube_root((t as u128) * 1_000_000_000_000) as u64
    } else {
        7787 * t / 1000 + 16_000_000 / 116
    }
}

/// Converts CIE XYZ in thousandths to CIELAB in millionths (white is about
/// `[100000000, 0, 0]`).
pub fn xyz_to_cielab(input: [u32; 3]) -> (r: [i64; 3])
    ensures
        r[0] == lab_of_xyz(input[0] as int, input[1] as int, input[2] as int)[0],
        r[1] == lab_of_xyz(input[0] as int, input[1] as int, input[2] as int)[1],
        r[2] == lab_of_xyz(input[0] as int, input[1] as int, input[2] as int)[2],
        -0x10_0000_0000 < r[0] < 0x10_0000_0000,
        -0x10_0000_0000 < r[1] < 0x10_0000_0000,
        -0x10_0000_0000 < r[2] < 0x10_0000_0000,
{
    let fx = lab_compress_of((input[0] as u64) * 10_000_000 / 950_489) as i64;
    let fy = lab_compress_of((input[1] as u64) * 10) as i64;
    let fz = lab_compress_of((input[2] as u64) * 1_000_000 / 108_884) as i64;
    [116 * fy - 16_000_000, 500 * (fx - fy), 200 * (fy - fz)]
}

/// Ways of measuring how far apart two colours are.
#[derive(Copy, Clone, Debug)]
pub enum ColourSpace {
    /// Simple RGB colour space
    RGB,
    /// Colour space designed to be perceptually uniform.
    /// <https://en.wikipedia.org/wiki/CIELAB_color_space>
    CIELAB,
}

/// CIELAB of an sRGB colour, in millionths.
pub open spec fn lab_of(c: [u8; 3]) -> Seq<int> {
    lab_of_xyz(xyz_of(c)[0], xyz_of(c)[1], xyz_of(c)[2])
}

impl ColourSpace {
    /// The coordinates of a colour in this space.
    pub open spec fn coords(self, c: [u8; 3]) -> Seq<int> {
        match self {
            ColourSpace::RGB => seq![c[0] as int, c[1] as int, c[2] as int],
            ColourSpace::CIELAB => lab_of(c),
        }
    }

    /// Squared Euclidean distance between two colours in this space.
    pub open spec fn distance(self, c1: [u8; 3], c2: [u8; 3]) -> int {
        sq_dist(self.coords(c1), self.coords(c2))
    }

    /// Squared Euclidean distance between two colours: over the channels for
    /// `RGB`, over `L*a*b*` in millionths for `CIELAB`.
    pub fn distance_sq(&self, c1: [u8; 3], c2: [u8; 3]) -> (r: u128)
        ensures
            r == self.distance(c1, c2),
    {
        match self {
            ColourSpace::RGB => {
                let d0 = (c1[0] as i64) - (c2[0] as i64);
                let d1 = (c1[1] as i64) - (c2[1] as i64);
                let d2 = (c1[2] as i64) - (c2[2] as i64);
                proof {
                    lemma_square_nonneg(d0 as int);
                    lemma_square_nonneg(d1 as int);
                    lemma_square_nonneg(d2 as int);
                    lemma_square_bound(d0 as int);
                    lemma_square_bound(d1 as int);
                    lemma_square_bound(d2 as int);
                }
                (d0 as i128 * d0 as i128 + d1 as i128 * d1 as i128 + d2 as i128 * d2 as i128) as u128
            },
            ColourSpace::CIELAB => {
                let lab1 = xyz_to_cielab(rgb_to_xyz(c1));
                let lab2 = xyz_to_cielab(rgb_to_xyz(c2));
                let d0 = (lab1[0] - lab2[0]) as i128;
                let d1 = (lab1[1] - lab2[1]) as i128;
                let d2 = (lab1[2] - lab2[2]) as i128;
                proof {
                    lemma_square_nonneg(d0 as int);
                    lemma_square_nonneg(d1 as int);
                    lemma_square_nonneg(d2 as int);
                    lemma_square_bound(d0 as int);
                    lemma_square_bound(d1 as int);
                    lemma_square_bound(d2 as int);
                }
                (d0 * d0 + d1 * d1 + d2 * d2) as u128
            },
        }
    }
}

proof fn lemma_square_nonneg(d: int)
    ensures
        d * d >= 0,
{
    assert(d * d >= 0) by (nonlinear_arith);
}

proof fn lemma_square_bound(d: int)
    requires
        -0x20_0000_0000 < d < 0x20_0000_0000,
    ensures
        d * d < 0x400_0000_0000_0000_0000,
{
    assert(d * d < 0x400_0000_0000_0000_0000) by (nonlinear_arith)
        requires
            -0x20_0000_0000 < d < 0x20_0000_0000,
    ;
}

/// A squared distance is never negative, and is zero exactly when the first
/// three coordinates agree.
pub proof fn lemma_sq_dist_zero(a: Seq<int>, b: Seq<int>)
    ensures
        sq_dist(a, b) >= 0,
        sq_dist(a, b) == 0 <==> (a[0] == b[0] && a[1] == b[1] && a[2] == b[2]),
{
    lemma_square_nonneg(a[0] - b[0]);
    lemma_square_nonneg(a[1] - b[1]);
    lemma_square_nonneg(a[2] - b[2]);
    if a[0] != b[0] {
        assert((a[0] - b[0]) * (a[0] - b[0]) > 0) by (nonlinear_arith)
            requires
                a[0] - b[0] != 0,
        ;
    }
    if a[1] != b[1] {
        assert((a[1] - b[1]) * (a[1] - b[1]) > 0) by (nonlinear_arith)
            requires
                a[1] - b[1] != 0,
        ;
    }
    if a[2] != b[2] {
        assert((a[2] - b[2]) * (a[2] - b[2]) > 0) by (nonlinear_arith)
            requires
                a[2] - b[2] != 0,
        ;
    }
}

/// Every space measures a colour at distance zero from itself, never a negative
/// distance, and distance zero exactly between colours with the same coordinates;
/// in RGB that means the same colour.
pub proof fn lemma_distance_zero(space: ColourSpace, c1: [u8; 3], c2: [u8; 3])
    ensures
        space.distance(c1, c1) == 0,
        space.distance(c1, c2) >= 0,
        space.distance(c1, c2) == 0 <==> space.coords(c1) =~= space.coords(c2),
        space is RGB ==> (space.distance(c1, c2) == 0 <==> c1 == c2),
{
    lemma_sq_dist_zero(space.coords(c1), space.coords(c1));
    lemma_sq_dist_zero(space.coords(c1), space.coords(c2));
    if space is RGB && space.distance(c1, c2) == 0 {
        assert(forall|i: int| 0 <= i < 3 ==> c1[i] == c2[i]);
        assert(c1 =~= c2);
    }
}

/// The reference points of the conversions, exactly: black has XYZ `[0, 0, 0]`,
/// white has XYZ `[95050, 100000, 108900]` (95.05, 100, 108.9), black's XYZ gives
/// L*a*b* `[-4, 0, 0]` and the D65 white `[95047, 100000, 108883]` gives
/// `[100000000, -3500, 800]` (100, -0.0035, 0.0008): each within 0.1 of the
/// published values.
pub proof fn lemma_reference_points()
    ensures
        xyz_of([0u8, 0u8, 0u8]) == seq![0int, 0, 0],
        xyz_of([255u8, 255u8, 255u8]) == seq![95050int, 100000, 108900],
        lab_of_xyz(0, 0, 0) == seq![-4int, 0, 0],
        lab_of_xyz(95047, 100000, 108883) == seq![100000000int, -3500, 800],
{
    assert(linear_channel(0) == 0);
    lemma_fifth_root_unique(GAMMA_ROOT_SCALE as int, GAMMA_ROOT_UNIT as int);
    assert(269025int * 269025 * GAMMA_ROOT_SCALE / (269025int * 269025) == GAMMA_ROOT_SCALE) by (
    nonlinear_arith);
    assert(fifth_root_of(269025int * 269025 * GAMMA_ROOT_SCALE / (269025int * 269025))
        == GAMMA_ROOT_UNIT);
    let k = 269025int * 269025 * GAMMA_ROOT_UNIT;
    vstd::arithmetic::div_mod::lemma_div_multiples_vanish(1_000_000, k);
    assert(k * 1_000_000 == 269025int * 269025 * GAMMA_ROOT_UNIT * 1_000_000);
    assert(linear_channel(255) == 1_000_000);
    assert(xyz_of([0u8, 0u8, 0u8]) =~= seq![0int, 0, 0]);
    assert(xyz_of([255u8, 255u8, 255u8]) =~= seq![95050int, 100000, 108900]);
    assert(lab_of_xyz(0, 0, 0) =~= seq![-4int, 0, 0]);
    lemma_cube_root_unique(999980000000000000, 999993);
    lemma_cube_root_unique(1000000000000000000, 1000000);
    lemma_cube_root_unique(999990000000000000, 999996);
    assert(95047int * 10_000_000 / 950_489 == 999980);
    assert(108883int * 1_000_000 / 108_884 == 999990);
    assert(lab_of_xyz(95047, 100000, 108883) =~= seq![100000000int, -3500, 800]);
}

} // verus!
