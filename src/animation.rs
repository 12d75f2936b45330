use vstd::prelude::*;

verus! {

/// Length of each half of the fade (out, then in), in microseconds.
pub const ANIMATION_USECS: u64 = 250_000;

/// Fixed-point one for animation factors: `ANIMATION_USECS` cubed.
pub const FACTOR_ONE: u64 = 15_625_000_000_000_000;

pub open spec fn cube(x: int) -> int {
    x * x * x
}

/// Ease-out-cubic `f(p) = (p - 1)^3 + 1` at progress `p = t / ANIMATION_USECS`,
/// multiplied by `FACTOR_ONE`, which makes it exact on integers.
pub open spec fn eased(t: int) -> int {
    cube(t - ANIMATION_USECS as int) + cube(ANIMATION_USECS as int)
}

pub proof fn lemma_cube_monotone(a: int, b: int)
    requires
        0 <= a <= b,
    ensures
        cube(a) <= cube(b),
        a < b ==> cube(a) < cube(b),
{
    assert(a * a <= b * b) by (nonlinear_arith)
        requires
            0 <= a <= b,
    ;
    assert(a * a * a <= b * b * b) by (nonlinear_arith)
        requires
            0 <= a <= b,
            a * a <= b * b,
    ;
    if a < b {
        assert(a * a * a < b * b * b) by (nonlinear_arith)
            requires
                0 <= a < b,
                a * a <= b * b,
        ;
    }
}

pub proof fn lemma_cube_odd(x: int)
    ensures
        cube(-x) == -cube(x),
{
    assert((-x) * (-x) * (-x) == -(x * x * x)) by (nonlinear_arith);
}

/// `FACTOR_ONE` is the duration cubed, so a full eased value is exactly one.
pub proof fn lemma_factor_one()
    ensures
        cube(ANIMATION_USECS as int) == FACTOR_ONE,
        eased(ANIMATION_USECS as int) == FACTOR_ONE,
{
    assert(cube(0) == 0);
}

/// Within the animation the eased value stays in `[0, FACTOR_ONE]`, and it
/// reaches `FACTOR_ONE` exactly at the end.
pub proof fn lemma_eased_range(t: int)
    requires
        0 <= t <= ANIMATION_USECS,
    ensures
        0 <= eased(t) <= FACTOR_ONE,
        eased(t) == FACTOR_ONE <==> t == ANIMATION_USECS,
{
    let d = ANIMATION_USECS as int;
    lemma_factor_one();
    lemma_cube_monotone(d - t, d);
    lemma_cube_odd(d - t);
    assert(t - d == -(d - t));
    if t < d {
        lemma_cube_monotone(0, d - t);
        assert(cube(0) == 0);
    } else {
        assert(cube(0) == 0);
    }
}

/// The fade-out value `eased(D - e)` turns negative exactly once more than
/// the duration `D` has passed; the fade-in value `eased(e)` reaches one
/// exactly once the duration has passed.
pub proof fn lemma_eased_thresholds(e: int)
    requires
        0 <= e,
    ensures
        eased(ANIMATION_USECS - e) < 0 <==> e > ANIMATION_USECS,
        eased(e) >= FACTOR_ONE <==> e >= ANIMATION_USECS,
{
    let d = ANIMATION_USECS as int;
    lemma_factor_one();
    lemma_cube_odd(e);
    assert(d - e - d == -e);
    if e > d {
        lemma_cube_monotone(d, e);
        lemma_cube_monotone(0, e - d);
        assert(cube(0) == 0);
    } else {
        lemma_cube_monotone(e, d);
        lemma_cube_odd(d - e);
        assert(e - d == -(d - e));
        lemma_cube_monotone(0, d - e);
        assert(cube(0) == 0);
        if e < d {
            lemma_cube_monotone(0, d - e);
            assert(cube(0) < cube(d - e));
        }
    }
}

/// The eased value at `t` microseconds into an animation, scaled by `FACTOR_ONE`.
pub fn ease_out_cubic(t: u64) -> (r: u64)
    requires
        t <= ANIMATION_USECS,
    ensures
        r == eased(t as int),
{
    let y: u64 = ANIMATION_USECS - t;
    proof {
        lemma_cube_monotone(y as int, ANIMATION_USECS as int);
        lemma_factor_one();
        lemma_cube_odd(y as int);
        assert(t - ANIMATION_USECS == -(y as int));
        assert(y * y <= ANIMATION_USECS * ANIMATION_USECS) by (nonlinear_arith)
            requires
                y <= ANIMATION_USECS,
        ;
    }
    FACTOR_ONE - y * y * y
}

} // verus!
