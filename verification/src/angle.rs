//! Angles in millionths of a radian, each carried together with its cosine
//! and sine.
use vstd::prelude::*;
use vstd::arithmetic::div_mod::lemma_mod_multiples_vanish;
use crate::fixed::{MICRO, MICRO_SQUARED};

verus! {

/// Half a turn: pi, in millionths of a radian, rounded down.
pub const HALF_TURN: i32 = 3_141_592;

/// A whole turn: twice pi, in millionths of a radian, rounded down.
pub const FULL_TURN: i32 = 6_283_185;

/// An angle measured from the positive x axis, with its cosine and sine.
///
/// The angle is counted in millionths of a radian and the cosine and sine in
/// millionths. The three are taken as given: this crate has no trigonometry,
/// and asks of the cosine and sine only that they lie on the unit circle as
/// nearly as whole millionths allow.
#[derive(Clone, Copy, Debug)]
pub struct Angle {
    radians: i32,
    cos: i32,
    sin: i32,
}

/// `cos` and `sin`, in millionths, are the coordinates of a point of the unit
/// circle, each brought to a whole number of millionths, be it by rounding
/// or by cutting off: the sum of their squares is within four millionths of
/// one.
pub open spec fn on_unit_circle(cos: int, sin: int) -> bool {
    MICRO_SQUARED - 4 * MICRO <= cos * cos + sin * sin <= MICRO_SQUARED + 4 * MICRO
}

/// The angle congruent to `a` modulo a whole turn that lies in the half turn
/// either side of zero.
pub open spec fn wrap(a: int) -> int {
    (a + HALF_TURN) % (FULL_TURN as int) - HALF_TURN
}

impl Angle {
    /// The angle, in millionths of a radian.
    pub closed spec fn radians(self) -> i32 {
        self.radians
    }

    /// The cosine, in millionths.
    pub closed spec fn cos(self) -> i32 {
        self.cos
    }

    /// The sine, in millionths.
    pub closed spec fn sin(self) -> i32 {
        self.sin
    }

    /// What every `Angle` satisfies.
    pub open spec fn well_formed(self) -> bool {
        on_unit_circle(self.cos() as int, self.sin() as int)
    }

    #[verifier::type_invariant]
    closed spec fn inv(self) -> bool {
        self.well_formed()
    }

    /// An angle from its measure and its cosine and sine; `None` where the two
    /// are not on the unit circle.
    pub fn new(radians: i32, cos: i32, sin: i32) -> (a: Option<Angle>)
        ensures
            a is Some <==> on_unit_circle(cos as int, sin as int),
            a matches Some(v) ==> v.radians() == radians && v.cos() == cos && v.sin() == sin
                && v.well_formed(),
    {
        let c: i128 = cos as i128;
        let s: i128 = sin as i128;
        assert(0 <= c * c <= 0x4000_0000_0000_0000) by (nonlinear_arith)
            requires
                -0x8000_0000 <= c <= 0x8000_0000,
        ;
        assert(0 <= s * s <= 0x4000_0000_0000_0000) by (nonlinear_arith)
            requires
                -0x8000_0000 <= s <= 0x8000_0000,
        ;
        let norm: i128 = c * c + s * s;
        let one: i128 = MICRO_SQUARED as i128;
        let slack: i128 = 4 * MICRO as i128;
        if one - slack <= norm && norm <= one + slack {
            Some(Angle { radians, cos, sin })
        } else {
            None
        }
    }

    /// The angle, in millionths of a radian.
    pub fn micro_radians(&self) -> (r: i32)
        ensures
            r == self.radians(),
    {
        self.radians
    }

    /// The cosine, in millionths.
    pub fn cosine(&self) -> (c: i32)
        ensures
            c == self.cos(),
            self.well_formed(),
            -MICRO - 1 <= c <= MICRO + 1,
    {
        proof {
            use_type_invariant(self);
            lemma_unit_components(self.cos as int, self.sin as int);
        }
        self.cos
    }

    /// The sine, in millionths.
    pub fn sine(&self) -> (s: i32)
        ensures
            s == self.sin(),
            self.well_formed(),
            -MICRO - 1 <= s <= MICRO + 1,
    {
        proof {
            use_type_invariant(self);
            lemma_unit_components(self.cos as int, self.sin as int);
        }
        self.sin
    }
}

/// On the unit circle neither coordinate exceeds one by more than a
/// millionth, and not both are zero.
pub proof fn lemma_unit_components(cos: int, sin: int)
    requires
        on_unit_circle(cos, sin),
    ensures
        -MICRO - 1 <= cos <= MICRO + 1,
        -MICRO - 1 <= sin <= MICRO + 1,
        cos != 0 || sin != 0,
{
    assert(-1_000_001 <= cos <= 1_000_001) by (nonlinear_arith)
        requires
            cos * cos + sin * sin <= 1_000_004_000_000,
    ;
    assert(-1_000_001 <= sin <= 1_000_001) by (nonlinear_arith)
        requires
            cos * cos + sin * sin <= 1_000_004_000_000,
    ;
    assert(0 * 0 == 0);
}

/// A wrapped angle lies within half a turn of zero and differs from the
/// angle it was made of by whole turns.
pub proof fn lemma_wrap_range(a: int)
    ensures
        -HALF_TURN <= wrap(a) <= HALF_TURN,
        (wrap(a) - a) % (FULL_TURN as int) == 0,
        -HALF_TURN <= a <= HALF_TURN ==> wrap(a) == a,
{
    let m = (a + HALF_TURN) % (FULL_TURN as int);
    let q = (a + HALF_TURN) / (FULL_TURN as int);
    assert(a + HALF_TURN == q * FULL_TURN + m);
    assert(wrap(a) - a == -q * FULL_TURN);
    lemma_mod_multiples_vanish(-q, 0, FULL_TURN as int);
    assert((-q) * FULL_TURN == -q * FULL_TURN) by (nonlinear_arith);
}

/// The angle from `bearing` round to `heading`, wrapped into the half turn
/// either side of zero.
pub fn deviation(heading: i32, bearing: i32) -> (d: i32)
    ensures
        d == wrap(heading - bearing),
        -HALF_TURN <= d <= HALF_TURN,
{
    let shifted: i64 = heading as i64 - bearing as i64 + HALF_TURN as i64;
    let lifted: i64 = shifted + 1_000 * FULL_TURN as i64;
    proof {
        lemma_mod_multiples_vanish(1_000, shifted as int, FULL_TURN as int);
        lemma_wrap_range(heading - bearing);
    }
    ((lifted % FULL_TURN as i64) - HALF_TURN as i64) as i32
}

} // verus!
