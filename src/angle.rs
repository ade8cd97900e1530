use vstd::prelude::*;

verus! {

/// Units in half a revolution (π radians, 180 degrees).
pub const HALF_TURN: i64 = 2305843009213693952;

/// Units in a whole revolution (2π radians, 360 degrees).
pub const FULL_TURN: i64 = 4611686018427387904;

/// The representative of `a` in `[0, FULL_TURN)`.
pub open spec fn turn_of(a: int) -> int {
    a % (FULL_TURN as int)
}

/// Maps any angle to its representative in `[0, FULL_TURN)`, the range of
/// a bearing measured clockwise from North.
pub fn normalize_bearing(a: i64) -> (r: i64)
    ensures
        0 <= r < FULL_TURN,
        (r - a) % (FULL_TURN as int) == 0,
        r == turn_of(a as int),
{
    let m = a % FULL_TURN;
    if m < 0 {
        m + FULL_TURN
    } else {
        m
    }
}

/// The representative of `a` in `(-HALF_TURN, HALF_TURN]`.
pub open spec fn longitude_of(a: int) -> int {
    let w = turn_of(a);
    if w > HALF_TURN as int {
        w - FULL_TURN as int
    } else {
        w
    }
}

/// The smaller of the two arcs between directions `a` and `b`.
pub open spec fn separation(a: int, b: int) -> int {
    let d = turn_of(a - b);
    if d > HALF_TURN as int {
        FULL_TURN as int - d
    } else {
        d
    }
}

/// Maps any angle to its representative in `(-HALF_TURN, HALF_TURN]`, the
/// range of a longitude. Half a turn maps to itself, not to its negation.
pub fn normalize_longitude(a: i64) -> (r: i64)
    ensures
        -HALF_TURN < r <= HALF_TURN,
        (r - a) % (FULL_TURN as int) == 0,
        r == longitude_of(a as int),
{
    let w = normalize_bearing(a);
    if w > HALF_TURN {
        w - FULL_TURN
    } else {
        w
    }
}

/// The minimal angular separation between directions `a` and `b`, in
/// `[0, HALF_TURN]`: the arc between them going the shorter way round.
pub fn angle_difference(a: i64, b: i64) -> (r: i64)
    ensures
        0 <= r <= HALF_TURN,
        (r - (a - b)) % (FULL_TURN as int) == 0 || (r + (a - b)) % (FULL_TURN as int) == 0,
        r == separation(a as int, b as int),
{
    let d = normalize_bearing(a) - normalize_bearing(b);
    let w = if d < 0 {
        d + FULL_TURN
    } else {
        d
    };
    assert(w == turn_of(a - b)) by {
        lemma_turn_of_difference(a as int, b as int);
    }
    if w > HALF_TURN {
        FULL_TURN - w
    } else {
        w
    }
}

/// Crossing the antimeridian: moving east by `e` from a normalised
/// longitude `s` to a point past half a turn lands just above minus half a
/// turn, one whole turn below the raw sum, rather than growing past the range.
pub proof fn lemma_antimeridian_crossing(s: int, e: int)
    requires
        -(HALF_TURN as int) < s <= HALF_TURN as int,
        0 <= e,
        (HALF_TURN as int) < s + e,
        s + e <= (HALF_TURN as int) + (FULL_TURN as int),
    ensures
        longitude_of(s + e) == s + e - FULL_TURN as int,
        -(HALF_TURN as int) < longitude_of(s + e) <= HALF_TURN as int,
{
    let f = FULL_TURN as int;
    if s + e < f {
        vstd::arithmetic::div_mod::lemma_small_mod((s + e) as nat, f as nat);
    } else {
        vstd::arithmetic::div_mod::lemma_mod_multiples_vanish(1, s + e - f, f);
        vstd::arithmetic::div_mod::lemma_small_mod((s + e - f) as nat, f as nat);
    }
}

proof fn lemma_turn_of_difference(a: int, b: int)
    ensures
        turn_of(a - b) == if turn_of(a) >= turn_of(b) {
            turn_of(a) - turn_of(b)
        } else {
            turn_of(a) - turn_of(b) + FULL_TURN as int
        },
{
    vstd::arithmetic::div_mod::lemma_fundamental_div_mod(a, FULL_TURN as int);
    vstd::arithmetic::div_mod::lemma_fundamental_div_mod(b, FULL_TURN as int);
    vstd::arithmetic::div_mod::lemma_fundamental_div_mod(a - b, FULL_TURN as int);
    let d = turn_of(a) - turn_of(b);
    let k = (a / (FULL_TURN as int)) - (b / (FULL_TURN as int));
    assert(a - b == k * (FULL_TURN as int) + d) by (nonlinear_arith)
        requires
            a == (FULL_TURN as int) * (a / (FULL_TURN as int)) + turn_of(a),
            b == (FULL_TURN as int) * (b / (FULL_TURN as int)) + turn_of(b),
            k == (a / (FULL_TURN as int)) - (b / (FULL_TURN as int)),
            d == turn_of(a) - turn_of(b),
    ;
    if d >= 0 {
        vstd::arithmetic::div_mod::lemma_mod_multiples_vanish(k, d, FULL_TURN as int);
        vstd::arithmetic::div_mod::lemma_small_mod(d as nat, FULL_TURN as nat);
    } else {
        assert(a - b == (k - 1) * (FULL_TURN as int) + (d + FULL_TURN as int)) by (nonlinear_arith)
            requires
                a - b == k * (FULL_TURN as int) + d,
        ;
        vstd::arithmetic::div_mod::lemma_mod_multiples_vanish(k - 1, d + FULL_TURN as int, FULL_TURN as int);
        vstd::arithmetic::div_mod::lemma_small_mod((d + FULL_TURN as int) as nat, FULL_TURN as nat);
    }
}

} // verus!
