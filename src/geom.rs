use vstd::prelude::*;

verus! {

/// Fixed-point units per pixel: positions and velocities are integers.
pub const UNIT: i64 = 1000;

/// Width of the play field, in fixed-point units (240 pixels).
pub const FIELD_WIDTH: i64 = 240_000;

/// Height of the play field, in fixed-point units (160 pixels).
pub const FIELD_HEIGHT: i64 = 160_000;

/// Largest magnitude a coordinate may take; results are clamped into it.
pub const COORD_LIMIT: i64 = 1_000_000_000_000;

/// Tenths of a degree in a full turn: headings are kept modulo this.
pub const FULL_TURN: u32 = 3600;

/// A two-dimensional vector in fixed-point units.
#[derive(Clone, Copy, PartialEq, Eq, Structural, Debug)]
pub struct Vec2 {
    pub x: i64,
    pub y: i64,
}

pub open spec fn coord_ok(v: int) -> bool {
    -COORD_LIMIT <= v <= COORD_LIMIT
}

impl Vec2 {
    /// Both coordinates lie within the coordinate limit.
    pub open spec fn bounded(self) -> bool {
        coord_ok(self.x as int) && coord_ok(self.y as int)
    }

    pub open spec fn len_sq(self) -> int {
        self.x * self.x + self.y * self.y
    }

    pub fn new(x: i64, y: i64) -> (r: Vec2)
        ensures
            r == (Vec2 { x, y }),
    {
        Vec2 { x, y }
    }

    pub fn zero() -> (r: Vec2)
        ensures
            r == (Vec2 { x: 0, y: 0 }),
    {
        Vec2 { x: 0, y: 0 }
    }
}

/// `v` pulled into the coordinate limit.
pub open spec fn clamp_coord(v: int) -> int {
    if v < -COORD_LIMIT {
        -COORD_LIMIT as int
    } else if v > COORD_LIMIT {
        COORD_LIMIT as int
    } else {
        v
    }
}

/// The componentwise sum, clamped into the coordinate limit.
pub open spec fn add_spec(a: Vec2, b: Vec2) -> Vec2 {
    Vec2 { x: clamp_coord(a.x + b.x) as i64, y: clamp_coord(a.y + b.y) as i64 }
}

/// The componentwise difference, clamped into the coordinate limit.
pub open spec fn sub_spec(a: Vec2, b: Vec2) -> Vec2 {
    Vec2 { x: clamp_coord(a.x - b.x) as i64, y: clamp_coord(a.y - b.y) as i64 }
}

/// `v` scaled by `k / UNIT`, clamped into the coordinate limit.
pub open spec fn scale_spec(v: Vec2, k: int) -> Vec2 {
    Vec2 { x: clamp_coord(div_toward_zero(v.x * k, UNIT as int)) as i64, y: clamp_coord(div_toward_zero(v.y * k, UNIT as int)) as i64 }
}

/// Division that truncates toward zero, as integer division does in Rust.
pub open spec fn div_toward_zero(a: int, d: int) -> int
    recommends
        d > 0,
{
    if a >= 0 {
        a / d
    } else {
        -((-a) / d)
    }
}

pub fn clamp_i128(v: i128) -> (r: i64)
    ensures
        r == clamp_coord(v as int),
{
    if v < -(COORD_LIMIT as i128) {
        -COORD_LIMIT
    } else if v > COORD_LIMIT as i128 {
        COORD_LIMIT
    } else {
        v as i64
    }
}

pub fn add_vec(a: Vec2, b: Vec2) -> (r: Vec2)
    ensures
        r == add_spec(a, b),
        r.bounded(),
{
    Vec2 { x: clamp_i128(a.x as i128 + b.x as i128), y: clamp_i128(a.y as i128 + b.y as i128) }
}

pub fn sub_vec(a: Vec2, b: Vec2) -> (r: Vec2)
    ensures
        r == sub_spec(a, b),
        r.bounded(),
{
    Vec2 { x: clamp_i128(a.x as i128 - b.x as i128), y: clamp_i128(a.y as i128 - b.y as i128) }
}

fn div_toward_zero_exec(a: i128, d: i128) -> (r: i128)
    requires
        d > 0,
        -0x1000_0000_0000_0000_0000_0000_0000 <= a <= 0x1000_0000_0000_0000_0000_0000_0000,
    ensures
        r == div_toward_zero(a as int, d as int),
{
    if a >= 0 {
        a / d
    } else {
        let m: i128 = -a;
        -(m / d)
    }
}

/// Scales `v` by `k / UNIT`; `k` is a factor in thousandths.
pub fn scale(v: Vec2, k: i64) -> (r: Vec2)
    requires
        v.bounded(),
        -COORD_LIMIT <= k <= COORD_LIMIT,
    ensures
        r == scale_spec(v, k as int),
        r.bounded(),
{
    assert(-0x1000_0000_0000_0000_0000_0000_0000 <= v.x * k <= 0x1000_0000_0000_0000_0000_0000_0000) by (nonlinear_arith)
        requires
            -COORD_LIMIT <= k <= COORD_LIMIT,
            -COORD_LIMIT <= v.x <= COORD_LIMIT,
    ;
    assert(-0x1000_0000_0000_0000_0000_0000_0000 <= v.y * k <= 0x1000_0000_0000_0000_0000_0000_0000) by (nonlinear_arith)
        requires
            -COORD_LIMIT <= k <= COORD_LIMIT,
            -COORD_LIMIT <= v.y <= COORD_LIMIT,
    ;
    let x = div_toward_zero_exec(v.x as i128 * k as i128, UNIT as i128);
    let y = div_toward_zero_exec(v.y as i128 * k as i128, UNIT as i128);
    Vec2 { x: clamp_i128(x), y: clamp_i128(y) }
}

/// Squared Euclidean distance between two points.
pub open spec fn dist_sq(a: Vec2, b: Vec2) -> int {
    (a.x - b.x) * (a.x - b.x) + (a.y - b.y) * (a.y - b.y)
}

pub fn distance_sq(a: Vec2, b: Vec2) -> (r: i128)
    requires
        a.bounded(),
        b.bounded(),
    ensures
        r == dist_sq(a, b),
{
    let dx: i128 = a.x as i128 - b.x as i128;
    let dy: i128 = a.y as i128 - b.y as i128;
    assert(0 <= dx * dx <= 0x100_0000_0000_0000_0000_0000i128) by (nonlinear_arith)
        requires
            -2 * COORD_LIMIT <= dx <= 2 * COORD_LIMIT,
    ;
    assert(0 <= dy * dy <= 0x100_0000_0000_0000_0000_0000i128) by (nonlinear_arith)
        requires
            -2 * COORD_LIMIT <= dy <= 2 * COORD_LIMIT,
    ;
    dx * dx + dy * dy
}

/// Whether `a` lies within `radius` of `b` (Euclidean, edge included).
pub open spec fn within(a: Vec2, b: Vec2, radius: int) -> bool {
    radius >= 0 && dist_sq(a, b) <= radius * radius
}

pub fn is_within(a: Vec2, b: Vec2, radius: i64) -> (r: bool)
    requires
        a.bounded(),
        b.bounded(),
        0 <= radius,
    ensures
        r == within(a, b, radius as int),
{
    let d = distance_sq(a, b);
    assert(0 <= radius * radius <= i64::MAX * i64::MAX) by (nonlinear_arith)
        requires
            0 <= radius <= i64::MAX,
    ;
    let r2: i128 = radius as i128 * radius as i128;
    d <= r2
}

/// Sine of `x` tenths of a degree, for `0 <= x <= 1800`, in thousandths.
/// Bhaskara's rational approximation: exact at 0, 30, 90, 150 and 180
/// degrees, and within two thousandths everywhere else.
pub open spec fn half_turn_sine(x: int) -> int {
    4000 * x * (1800 - x) / (4_050_000 - x * (1800 - x))
}

/// Sine of a heading in tenths of a degree, in thousandths.
pub open spec fn sine(h: int) -> int {
    let a = h % (FULL_TURN as int);
    if a <= 1800 {
        half_turn_sine(a)
    } else {
        -half_turn_sine(a - 1800)
    }
}

/// Cosine of a heading in tenths of a degree, in thousandths.
pub open spec fn cosine(h: int) -> int {
    sine(h + 900)
}

/// The direction a heading points in, about `UNIT` long.
pub open spec fn dir_of(h: int) -> Vec2 {
    Vec2 { x: cosine(h) as i64, y: sine(h) as i64 }
}

proof fn lemma_half_turn_sine_range(x: int)
    requires
        0 <= x <= 1800,
    ensures
        0 <= half_turn_sine(x) <= 1000,
{
    let p = x * (1800 - x);
    assert(0 <= p <= 810_000) by (nonlinear_arith)
        requires
            0 <= x <= 1800,
            p == x * (1800 - x),
    ;
    assert(4000 * x * (1800 - x) == 4000 * p) by (nonlinear_arith)
        requires
            p == x * (1800 - x),
    ;
    assert(4000 * p <= 1000 * (4_050_000 - p)) by (nonlinear_arith)
        requires
            0 <= p <= 810_000,
    ;
    assert(0 <= 4000 * p / (4_050_000 - p) <= 1000) by (nonlinear_arith)
        requires
            0 <= p <= 810_000,
            4000 * p <= 1000 * (4_050_000 - p),
    ;
}

fn half_turn_sine_exec(x: i64) -> (r: i64)
    requires
        0 <= x <= 1800,
    ensures
        r == half_turn_sine(x as int),
        0 <= r <= 1000,
{
    proof {
        lemma_half_turn_sine_range(x as int);
    }
    assert(0 <= x * (1800 - x) <= 810_000) by (nonlinear_arith)
        requires
            0 <= x <= 1800,
    ;
    let p: i64 = x * (1800 - x);
    assert(4000 * x * (1800 - x) == 4000 * p) by (nonlinear_arith)
        requires
            p == x * (1800 - x),
    ;
    4000 * p / (4_050_000 - p)
}

pub fn sine_of(h: u32) -> (r: i64)
    ensures
        r == sine(h as int),
        -1000 <= r <= 1000,
{
    let a: u32 = h % FULL_TURN;
    if a <= 1800 {
        half_turn_sine_exec(a as i64)
    } else {
        -half_turn_sine_exec(a as i64 - 1800)
    }
}

/// The direction of heading `h`.
pub fn direction(h: u32) -> (r: Vec2)
    ensures
        r == dir_of(h as int),
        -1000 <= r.x <= 1000,
        -1000 <= r.y <= 1000,
{
    let s = sine_of(h);
    let c = sine_of(h % FULL_TURN + 900);
    assert((h % 3600 + 900) % 3600 == (h as int + 900) % 3600) by (nonlinear_arith);
    Vec2 { x: c, y: s }
}

/// `h + delta` reduced to a heading in `[0, FULL_TURN)`.
pub open spec fn turn_spec(h: int, delta: int) -> int {
    (h + delta) % (FULL_TURN as int)
}

pub fn turn(h: u32, delta: i32) -> (r: u32)
    ensures
        r == turn_spec(h as int, delta as int),
        r < FULL_TURN,
{
    let d: i64 = h as i64 + delta as i64 + 2_160_000_000;
    assert(d as int % 3600 == (h as int + delta as int) % 3600) by (nonlinear_arith)
        requires
            d == h as int + delta as int + 3600 * 600_000,
    ;
    (d % 3600) as u32
}

pub open spec fn dot(a: Vec2, b: Vec2) -> int {
    a.x * b.x + a.y * b.y
}

fn dot_with_direction(d: Vec2, v: Vec2) -> (r: i128)
    requires
        -1000 <= d.x <= 1000,
        -1000 <= d.y <= 1000,
        v.bounded(),
    ensures
        r == dot(d, v),
{
    assert(-1000 * COORD_LIMIT <= d.x * v.x <= 1000 * COORD_LIMIT) by (nonlinear_arith)
        requires
            -1000 <= d.x <= 1000,
            -COORD_LIMIT <= v.x <= COORD_LIMIT,
    ;
    assert(-1000 * COORD_LIMIT <= d.y * v.y <= 1000 * COORD_LIMIT) by (nonlinear_arith)
        requires
            -1000 <= d.y <= 1000,
            -COORD_LIMIT <= v.y <= COORD_LIMIT,
    ;
    d.x as i128 * v.x as i128 + d.y as i128 * v.y as i128
}

/// `h` is the first of the headings whose direction points most nearly
/// along `v` (largest dot product with `v`).
pub open spec fn is_heading_towards(h: int, v: Vec2) -> bool {
    &&& 0 <= h < FULL_TURN
    &&& forall|b: int| 0 <= b < FULL_TURN ==> #[trigger] dot(dir_of(b), v) <= dot(dir_of(h), v)
    &&& forall|b: int| 0 <= b < h ==> #[trigger] dot(dir_of(b), v) < dot(dir_of(h), v)
}

/// The heading that points most nearly along `v` (the first such one).
pub open spec fn heading_to(v: Vec2) -> int {
    choose|h: int| is_heading_towards(h, v)
}

proof fn lemma_heading_towards_unique(a: int, b: int, v: Vec2)
    requires
        is_heading_towards(a, v),
        is_heading_towards(b, v),
    ensures
        a == b,
{
    if a < b {
        assert(dot(dir_of(a), v) < dot(dir_of(b), v));
    } else if b < a {
        assert(dot(dir_of(b), v) < dot(dir_of(a), v));
    }
}

/// The heading that points most nearly along `v` (the first such one).
pub fn heading_towards(v: Vec2) -> (r: u32)
    requires
        v.bounded(),
    ensures
        is_heading_towards(r as int, v),
        r == heading_to(v),
{
    let mut best: u32 = 0;
    let mut best_dot: i128 = dot_with_direction(direction(0), v);
    let mut a: u32 = 1;
    while a < FULL_TURN
        invariant
            1 <= a <= FULL_TURN,
            v.bounded(),
            0 <= best < a,
            best_dot == dot(dir_of(best as int), v),
            forall|b: int| 0 <= b < a ==> #[trigger] dot(dir_of(b), v) <= best_dot,
            forall|b: int| 0 <= b < best ==> #[trigger] dot(dir_of(b), v) < best_dot,
        decreases FULL_TURN - a,
    {
        let d = dot_with_direction(direction(a), v);
        if d > best_dot {
            best = a;
            best_dot = d;
        }
        a = a + 1;
    }
    proof {
        assert(is_heading_towards(best as int, v));
        lemma_heading_towards_unique(best as int, heading_to(v), v);
    }
    best
}

/// `v` turned by heading `h` (counter-clockwise in the usual axes).
pub open spec fn rotate_spec(v: Vec2, h: int) -> Vec2 {
    let d = dir_of(h);
    Vec2 {
        x: clamp_coord(div_toward_zero(d.x * v.x - d.y * v.y, UNIT as int)) as i64,
        y: clamp_coord(div_toward_zero(d.y * v.x + d.x * v.y, UNIT as int)) as i64,
    }
}

/// `v` turned back by heading `h`: into the frame of something facing `h`.
pub open spec fn unrotate_spec(v: Vec2, h: int) -> Vec2 {
    let d = dir_of(h);
    Vec2 {
        x: clamp_coord(div_toward_zero(d.x * v.x + d.y * v.y, UNIT as int)) as i64,
        y: clamp_coord(div_toward_zero(d.x * v.y - d.y * v.x, UNIT as int)) as i64,
    }
}

fn mixed(p: i64, q: i64, r: i64, s: i64, plus: bool) -> (out: i64)
    requires
        -1000 <= p <= 1000,
        -1000 <= r <= 1000,
        coord_ok(q as int),
        coord_ok(s as int),
    ensures
        out == clamp_coord(
            div_toward_zero(if plus { p * q + r * s } else { p * q - r * s }, UNIT as int),
        ),
{
    assert(-1000 * COORD_LIMIT <= p * q <= 1000 * COORD_LIMIT) by (nonlinear_arith)
        requires
            -1000 <= p <= 1000,
            -COORD_LIMIT <= q <= COORD_LIMIT,
    ;
    assert(-1000 * COORD_LIMIT <= r * s <= 1000 * COORD_LIMIT) by (nonlinear_arith)
        requires
            -1000 <= r <= 1000,
            -COORD_LIMIT <= s <= COORD_LIMIT,
    ;
    let a: i128 = p as i128 * q as i128;
    let b: i128 = r as i128 * s as i128;
    let t: i128 = if plus {
        a + b
    } else {
        a - b
    };
    clamp_i128(div_toward_zero_exec(t, UNIT as i128))
}

pub fn rotate(v: Vec2, h: u32) -> (r: Vec2)
    requires
        v.bounded(),
    ensures
        r == rotate_spec(v, h as int),
        r.bounded(),
{
    let d = direction(h);
    Vec2 { x: mixed(d.x, v.x, d.y, v.y, false), y: mixed(d.y, v.x, d.x, v.y, true) }
}

pub fn unrotate(v: Vec2, h: u32) -> (r: Vec2)
    requires
        v.bounded(),
    ensures
        r == unrotate_spec(v, h as int),
        r.bounded(),
{
    let d = direction(h);
    Vec2 { x: mixed(d.x, v.x, d.y, v.y, true), y: mixed(d.x, v.y, d.y, v.x, false) }
}

/// Strictly inside the play field on both axes.
pub open spec fn in_play_field(p: Vec2) -> bool {
    0 < p.x < FIELD_WIDTH && 0 < p.y < FIELD_HEIGHT
}

/// One coordinate brought back across the field once: a value below zero
/// gains `dim`, one above `dim` loses it.
pub open spec fn wrap_coord(v: int, dim: int) -> int {
    if v < 0 {
        v + dim
    } else if v > dim {
        v - dim
    } else {
        v
    }
}

pub open spec fn wrap_spec(p: Vec2) -> Vec2 {
    Vec2 {
        x: wrap_coord(p.x as int, FIELD_WIDTH as int) as i64,
        y: wrap_coord(p.y as int, FIELD_HEIGHT as int) as i64,
    }
}

pub fn wrap(p: Vec2) -> (r: Vec2)
    requires
        p.bounded(),
    ensures
        r == wrap_spec(p),
        r.bounded(),
{
    let x = if p.x < 0 {
        p.x + FIELD_WIDTH
    } else if p.x > FIELD_WIDTH {
        p.x - FIELD_WIDTH
    } else {
        p.x
    };
    let y = if p.y < 0 {
        p.y + FIELD_HEIGHT
    } else if p.y > FIELD_HEIGHT {
        p.y - FIELD_HEIGHT
    } else {
        p.y
    };
    Vec2 { x, y }
}

/// `r` is the least non-negative integer whose square is at least `n`.
pub open spec fn is_ceil_sqrt(r: int, n: int) -> bool {
    &&& r >= 0
    &&& r * r >= n
    &&& (r == 0 || (r - 1) * (r - 1) < n)
}

/// The square root of `n >= 0`, rounded up.
pub open spec fn ceil_sqrt(n: int) -> int {
    choose|r: int| is_ceil_sqrt(r, n)
}

proof fn lemma_ceil_sqrt_exists(n: int, k: int)
    requires
        k >= 0,
        k * k >= n,
    ensures
        is_ceil_sqrt(ceil_sqrt(n), n),
    decreases k,
{
    if k == 0 || (k - 1) * (k - 1) < n {
        assert(is_ceil_sqrt(k, n));
    } else {
        lemma_ceil_sqrt_exists(n, k - 1);
    }
}

proof fn lemma_ceil_sqrt_unique(a: int, b: int, n: int)
    requires
        is_ceil_sqrt(a, n),
        is_ceil_sqrt(b, n),
    ensures
        a == b,
{
    if a < b {
        assert((b - 1) * (b - 1) >= a * a) by (nonlinear_arith)
            requires
                0 <= a <= b - 1,
        ;
    } else if b < a {
        assert((a - 1) * (a - 1) >= b * b) by (nonlinear_arith)
            requires
                0 <= b <= a - 1,
        ;
    }
}

/// The square root of `n`, rounded up, for `n < 2^100`.
pub fn ceil_sqrt_exec(n: u128) -> (r: u128)
    requires
        n < 0x10_0000_0000_0000_0000_0000_0000,
    ensures
        r == ceil_sqrt(n as int),
        is_ceil_sqrt(r as int, n as int),
        r <= 0x4_0000_0000_0000,
{
    if n == 0 {
        assert(is_ceil_sqrt(0, 0));
        proof {
            lemma_ceil_sqrt_exists(0, 0);
            lemma_ceil_sqrt_unique(0, ceil_sqrt(0), 0);
        }
        return 0;
    }
    let mut lo: u128 = 0;
    let mut hi: u128 = 0x4_0000_0000_0000;
    assert(hi * hi >= n) by (nonlinear_arith)
        requires
            hi == 0x4_0000_0000_0000,
            n < 0x10_0000_0000_0000_0000_0000_0000,
    ;
    while lo + 1 < hi
        invariant
            0 <= lo < hi <= 0x4_0000_0000_0000,
            lo * lo < n,
            hi * hi >= n,
            n < 0x10_0000_0000_0000_0000_0000_0000,
        decreases hi - lo,
    {
        let mid = lo + (hi - lo) / 2;
        assert(mid * mid <= 0x10_0000_0000_0000_0000_0000_0000) by (nonlinear_arith)
            requires
                0 <= mid <= 0x4_0000_0000_0000,
        ;
        if mid * mid >= n {
            hi = mid;
        } else {
            lo = mid;
        }
    }
    assert(is_ceil_sqrt(hi as int, n as int));
    proof {
        lemma_ceil_sqrt_exists(n as int, hi as int);
        lemma_ceil_sqrt_unique(hi as int, ceil_sqrt(n as int), n as int);
    }
    hi
}

/// The speed cap: 2 pixels per step.
pub const MAX_VEL: i64 = 2000;

/// `v` shortened to at most `MAX_VEL` when it is longer: each coordinate is
/// scaled by `MAX_VEL / |v|` (|v| rounded up), truncated toward zero.
pub open spec fn cap_spec(v: Vec2) -> Vec2 {
    if v.len_sq() <= MAX_VEL * MAX_VEL {
        v
    } else {
        let l = ceil_sqrt(v.len_sq());
        Vec2 {
            x: div_toward_zero(v.x * MAX_VEL, l) as i64,
            y: div_toward_zero(v.y * MAX_VEL, l) as i64,
        }
    }
}

proof fn lemma_div_toward_zero_mul(a: int, l: int, m: int)
    requires
        l > 0,
        m > 0,
    ensures
        div_toward_zero(a * m, l) * div_toward_zero(a * m, l) * l * l <= a * a * m * m,
{
    let q = div_toward_zero(a * m, l);
    let b = if a >= 0 { a } else { -a };
    let u = (b * m) / l;
    assert(b * m == (if a >= 0 { a * m } else { -(a * m) })) by (nonlinear_arith)
        requires
            b == (if a >= 0 { a } else { -a }),
    ;
    assert(0 <= b * m) by (nonlinear_arith)
        requires
            b >= 0,
            m > 0,
    ;
    assert(0 <= u * l <= b * m) by (nonlinear_arith)
        requires
            u == (b * m) / l,
            l > 0,
            b * m >= 0,
    ;
    if a >= 0 {
        assert(q == u);
    } else {
        assert(q == -u);
    }
    assert(q * q == u * u) by (nonlinear_arith)
        requires
            q == u || q == -u,
    ;
    assert(b * b == a * a) by (nonlinear_arith)
        requires
            b == a || b == -a,
    ;
    assert(u * l * (u * l) <= (b * m) * (b * m)) by (nonlinear_arith)
        requires
            0 <= u * l <= b * m,
    ;
    assert(q * q * l * l <= a * a * m * m) by (nonlinear_arith)
        requires
            q * q == u * u,
            u * l * (u * l) <= (b * m) * (b * m),
            b * b == a * a,
    ;
}

/// Applying the cap yields a vector no longer than `MAX_VEL`.
pub proof fn lemma_cap_bounded(v: Vec2)
    requires
        v.bounded(),
    ensures
        cap_spec(v).len_sq() <= MAX_VEL * MAX_VEL,
        cap_spec(v).bounded(),
{
    if v.len_sq() > MAX_VEL * MAX_VEL {
        let n = v.len_sq();
        let l = ceil_sqrt(n);
        assert(n * n >= n) by (nonlinear_arith)
            requires
                n > 0,
        ;
        lemma_ceil_sqrt_exists(n, n);
        let m = MAX_VEL as int;
        assert(l > 0) by (nonlinear_arith)
            requires
                l * l >= n,
                n > 0,
                l >= 0,
        ;
        lemma_div_toward_zero_mul(v.x as int, l, m);
        lemma_div_toward_zero_mul(v.y as int, l, m);
        let qx = div_toward_zero(v.x * m, l);
        let qy = div_toward_zero(v.y * m, l);
        assert((qx * qx + qy * qy) * (l * l) == qx * qx * l * l + qy * qy * l * l)
            by (nonlinear_arith);
        assert((v.x * v.x + v.y * v.y) * (m * m) == v.x * v.x * m * m + v.y * v.y * m * m)
            by (nonlinear_arith);
        assert(qx * qx + qy * qy <= m * m) by (nonlinear_arith)
            requires
                (qx * qx + qy * qy) * (l * l) <= n * (m * m),
                l * l >= n,
                n > 0,
                l > 0,
        ;
        assert(-m <= qx <= m && -m <= qy <= m) by (nonlinear_arith)
            requires
                qx * qx + qy * qy <= m * m,
                m > 0,
        ;
    }
}

/// Shortens `v` to at most `MAX_VEL` when it is longer.
pub fn cap(v: Vec2) -> (r: Vec2)
    requires
        v.bounded(),
    ensures
        r == cap_spec(v),
        r.bounded(),
        r.len_sq() <= MAX_VEL * MAX_VEL,
{
    proof {
        lemma_cap_bounded(v);
    }
    assert(0 <= v.x * v.x <= COORD_LIMIT * COORD_LIMIT) by (nonlinear_arith)
        requires
            v.bounded(),
    ;
    assert(0 <= v.y * v.y <= COORD_LIMIT * COORD_LIMIT) by (nonlinear_arith)
        requires
            v.bounded(),
    ;
    let n: i128 = v.x as i128 * v.x as i128 + v.y as i128 * v.y as i128;
    if n <= MAX_VEL as i128 * MAX_VEL as i128 {
        v
    } else {
        let l = ceil_sqrt_exec(n as u128);
        assert(l > 0) by (nonlinear_arith)
            requires
                l * l >= n,
                n > 0,
        ;
        let x = div_toward_zero_exec(v.x as i128 * MAX_VEL as i128, l as i128);
        let y = div_toward_zero_exec(v.y as i128 * MAX_VEL as i128, l as i128);
        Vec2 { x: x as i64, y: y as i64 }
    }
}

} // verus!
