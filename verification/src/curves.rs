//! Rate-shock curves: a named market curve together with one basis-point
//! shock per modelled year.
//!
//! The persisted format carries exactly [`CURVE_HORIZON_YEARS`] shocks per
//! curve ([`Curve`]). A growable curve under construction ([`CurveDraft`])
//! keeps between one and [`CURVE_HORIZON_YEARS`] points and is turned into a
//! fixed-length [`Curve`] by the explicit migration [`CurveDraft::into_curve`].

use vstd::prelude::*;

verus! {

/// Number of modelled years, and so the length of every persisted curve.
pub const CURVE_HORIZON_YEARS: usize = 10;

/// Largest admissible shock, in basis points; shocks live in
/// `[-CURVE_SHOCK_LIMIT_BPS, CURVE_SHOCK_LIMIT_BPS]`.
pub const CURVE_SHOCK_LIMIT_BPS: i32 = 500;

/// A shock sequence is in range when every entry is within the shock limit.
pub open spec fn shocks_in_range(points: Seq<i32>) -> bool {
    forall|i: int|
        0 <= i < points.len() ==> -(CURVE_SHOCK_LIMIT_BPS as int) <= #[trigger] points[i]
            <= CURVE_SHOCK_LIMIT_BPS as int
}

/// The per-year shocks of one curve, in the persisted fixed-length form.
#[derive(Clone, Debug, PartialEq, Eq)]
pub struct Curve {
    pub points: Vec<i32>,
}

impl View for Curve {
    type V = Seq<i32>;

    open spec fn view(&self) -> Seq<i32> {
        self.points@
    }
}

impl DeepView for Curve {
    type V = Seq<i32>;

    open spec fn deep_view(&self) -> Seq<i32> {
        self.points@
    }
}

impl Curve {
    /// Exactly one in-range shock per modelled year.
    pub open spec fn valid(self) -> bool {
        &&& self@.len() == CURVE_HORIZON_YEARS
        &&& shocks_in_range(self@)
    }

    /// The curve with the same shock in every year.
    pub fn uniform(value: i32) -> (r: Curve)
        requires
            -CURVE_SHOCK_LIMIT_BPS <= value <= CURVE_SHOCK_LIMIT_BPS,
        ensures
            r.valid(),
            r@ == Seq::new(CURVE_HORIZON_YEARS as nat, |i: int| value),
    {
        let mut points: Vec<i32> = Vec::new();
        let mut k: usize = 0;
        while k < CURVE_HORIZON_YEARS
            invariant
                k <= CURVE_HORIZON_YEARS,
                points@.len() == k,
                forall|i: int| 0 <= i < k ==> points@[i] == value,
                -CURVE_SHOCK_LIMIT_BPS <= value <= CURVE_SHOCK_LIMIT_BPS,
            decreases CURVE_HORIZON_YEARS - k,
        {
            points.push(value);
            k = k + 1;
        }
        let r = Curve { points };
        proof {
            assert(r@ =~= Seq::new(CURVE_HORIZON_YEARS as nat, |i: int| value));
        }
        r
    }

    /// Replaces the shock of one year, clamped into the admissible range.
    pub fn set_point(&mut self, year_index: usize, value: i32)
        requires
            old(self).valid(),
            year_index < CURVE_HORIZON_YEARS,
        ensures
            final(self).valid(),
            final(self)@ == old(self)@.update(
                year_index as int,
                spec_clamped_i32(
                    value as int,
                    -(CURVE_SHOCK_LIMIT_BPS as int),
                    CURVE_SHOCK_LIMIT_BPS as int,
                ) as i32,
            ),
    {
        let clamped = clamp_i32(value, -CURVE_SHOCK_LIMIT_BPS, CURVE_SHOCK_LIMIT_BPS);
        self.points.set(year_index, clamped);
    }
}

/// `v` forced into `[lo, hi]`.
pub open spec fn spec_clamped_i32(v: int, lo: int, hi: int) -> int {
    if v < lo {
        lo
    } else if v > hi {
        hi
    } else {
        v
    }
}

pub fn clamp_i32(v: i32, lo: i32, hi: i32) -> (r: i32)
    ensures
        r as int == spec_clamped_i32(v as int, lo as int, hi as int),
{
    if v < lo {
        lo
    } else if v > hi {
        hi
    } else {
        v
    }
}

/// A curve being edited point by point, as the growable earlier document
/// revision allowed: it always keeps between one and [`CURVE_HORIZON_YEARS`]
/// points, and the operations at the bounds are no-ops.
#[derive(Clone, Debug, PartialEq, Eq)]
pub struct CurveDraft {
    pub points: Vec<i32>,
}

impl View for CurveDraft {
    type V = Seq<i32>;

    open spec fn view(&self) -> Seq<i32> {
        self.points@
    }
}

impl CurveDraft {
    /// Between one and [`CURVE_HORIZON_YEARS`] points, of any size.
    pub open spec fn valid(self) -> bool {
        1 <= self@.len() <= CURVE_HORIZON_YEARS
    }

    /// A draft with a single starting point.
    pub fn new(first: i32) -> (r: CurveDraft)
        ensures
            r.valid(),
            r@ == seq![first],
    {
        let mut points: Vec<i32> = Vec::new();
        points.push(first);
        let r = CurveDraft { points };
        proof {
            assert(r@ =~= seq![first]);
        }
        r
    }

    /// Appends a point at the end; at the maximum length it is a no-op.
    /// Returns whether the point was taken.
    pub fn append_curve_point(&mut self, value: i32) -> (appended: bool)
        requires
            old(self).valid(),
        ensures
            final(self).valid(),
            appended == (old(self)@.len() < CURVE_HORIZON_YEARS),
            appended ==> final(self)@ == old(self)@.push(value),
            !appended ==> final(self)@ == old(self)@,
    {
        if self.points.len() < CURVE_HORIZON_YEARS {
            self.points.push(value);
            true
        } else {
            false
        }
    }

    /// Removes the last point; at the minimum length it is a no-op.
    /// Returns whether a point was removed.
    pub fn remove_last_curve_point(&mut self) -> (removed: bool)
        requires
            old(self).valid(),
        ensures
            final(self).valid(),
            removed == (old(self)@.len() > 1),
            removed ==> final(self)@ == old(self)@.drop_last(),
            !removed ==> final(self)@ == old(self)@,
    {
        if self.points.len() > 1 {
            let _ = self.points.pop();
            proof {
                assert(self@ =~= old(self)@.drop_last());
            }
            true
        } else {
            false
        }
    }

    /// Explicit migration to the persisted fixed-length form: succeeds
    /// exactly when the draft already has one in-range point per modelled
    /// year.
    pub fn into_curve(self) -> (r: Option<Curve>)
        ensures
            r is Some <==> (self@.len() == CURVE_HORIZON_YEARS && shocks_in_range(self@)),
            r is Some ==> r->0@ == self@ && r->0.valid(),
    {
        if self.points.len() != CURVE_HORIZON_YEARS {
            return None;
        }
        let mut k: usize = 0;
        while k < CURVE_HORIZON_YEARS
            invariant
                k <= CURVE_HORIZON_YEARS,
                self@.len() == CURVE_HORIZON_YEARS,
                forall|i: int|
                    0 <= i < k ==> -(CURVE_SHOCK_LIMIT_BPS as int) <= #[trigger] self@[i]
                        <= CURVE_SHOCK_LIMIT_BPS as int,
            decreases CURVE_HORIZON_YEARS - k,
        {
            let p = self.points[k];
            if p < -CURVE_SHOCK_LIMIT_BPS || p > CURVE_SHOCK_LIMIT_BPS {
                return None;
            }
            k = k + 1;
        }
        Some(Curve { points: self.points })
    }
}

/// The sixteen market curves every configuration carries, in the order in
/// which the document lists them (sorted by wire name).
#[derive(Clone, Copy, Debug, PartialEq, Eq, Structural)]
pub enum CurveId {
    AudOis,
    BrlCdi,
    ClpVCamara,
    CopOvibr,
    EurOis,
    MxnTiie28d,
    PenVUsd6m,
    TtdGortt,
    TtdLibor6m,
    UsdFedFunds,
    UsdLibor12m,
    UsdLibor1m,
    UsdLibor3m,
    UsdLibor6m,
    UsdOis,
    UsdOvernightsofr,
}

/// Number of market curves in a configuration.
pub const CURVE_COUNT: usize = 16;

/// Position of a curve in the document (and in the configuration's vector).
pub open spec fn spec_curve_index(id: CurveId) -> int {
    match id {
        CurveId::AudOis => 0,
        CurveId::BrlCdi => 1,
        CurveId::ClpVCamara => 2,
        CurveId::CopOvibr => 3,
        CurveId::EurOis => 4,
        CurveId::MxnTiie28d => 5,
        CurveId::PenVUsd6m => 6,
        CurveId::TtdGortt => 7,
        CurveId::TtdLibor6m => 8,
        CurveId::UsdFedFunds => 9,
        CurveId::UsdLibor12m => 10,
        CurveId::UsdLibor1m => 11,
        CurveId::UsdLibor3m => 12,
        CurveId::UsdLibor6m => 13,
        CurveId::UsdOis => 14,
        CurveId::UsdOvernightsofr => 15,
    }
}

/// Wire name of the curve at document position `k`.
pub open spec fn curve_token_at(k: int) -> Seq<char> {
    if k == 0 {
        "CURVE_AUD_OIS"@
    } else if k == 1 {
        "CURVE_BRL_CDI"@
    } else if k == 2 {
        "CURVE_CLP_V_CAMARA"@
    } else if k == 3 {
        "CURVE_COP_OVIBR"@
    } else if k == 4 {
        "CURVE_EUR_OIS"@
    } else if k == 5 {
        "CURVE_MXN_TIIE28D"@
    } else if k == 6 {
        "CURVE_PEN_V_USD6M"@
    } else if k == 7 {
        "CURVE_TTD_GORTT"@
    } else if k == 8 {
        "CURVE_TTD_LIBOR6M"@
    } else if k == 9 {
        "CURVE_USD_FED_FUNDS"@
    } else if k == 10 {
        "CURVE_USD_LIBOR12M"@
    } else if k == 11 {
        "CURVE_USD_LIBOR1M"@
    } else if k == 12 {
        "CURVE_USD_LIBOR3M"@
    } else if k == 13 {
        "CURVE_USD_LIBOR6M"@
    } else if k == 14 {
        "CURVE_USD_OIS"@
    } else {
        "CURVE_USD_OVERNIGHTSOFR"@
    }
}

impl CurveId {
    /// Position of this curve in the document (and in the configuration's
    /// vector of curves).
    pub fn index(&self) -> (r: usize)
        ensures
            r as int == spec_curve_index(*self),
            r < CURVE_COUNT,
    {
        match self {
            CurveId::AudOis => 0,
            CurveId::BrlCdi => 1,
            CurveId::ClpVCamara => 2,
            CurveId::CopOvibr => 3,
            CurveId::EurOis => 4,
            CurveId::MxnTiie28d => 5,
            CurveId::PenVUsd6m => 6,
            CurveId::TtdGortt => 7,
            CurveId::TtdLibor6m => 8,
            CurveId::UsdFedFunds => 9,
            CurveId::UsdLibor12m => 10,
            CurveId::UsdLibor1m => 11,
            CurveId::UsdLibor3m => 12,
            CurveId::UsdLibor6m => 13,
            CurveId::UsdOis => 14,
            CurveId::UsdOvernightsofr => 15,
        }
    }

    /// The name under which this curve appears in the persisted document.
    pub fn wire_token(&self) -> (r: &'static str)
        ensures
            r@ == curve_token_at(spec_curve_index(*self)),
    {
        match self {
            CurveId::AudOis => "CURVE_AUD_OIS",
            CurveId::BrlCdi => "CURVE_BRL_CDI",
            CurveId::ClpVCamara => "CURVE_CLP_V_CAMARA",
            CurveId::CopOvibr => "CURVE_COP_OVIBR",
            CurveId::EurOis => "CURVE_EUR_OIS",
            CurveId::MxnTiie28d => "CURVE_MXN_TIIE28D",
            CurveId::PenVUsd6m => "CURVE_PEN_V_USD6M",
            CurveId::TtdGortt => "CURVE_TTD_GORTT",
            CurveId::TtdLibor6m => "CURVE_TTD_LIBOR6M",
            CurveId::UsdFedFunds => "CURVE_USD_FED_FUNDS",
            CurveId::UsdLibor12m => "CURVE_USD_LIBOR12M",
            CurveId::UsdLibor1m => "CURVE_USD_LIBOR1M",
            CurveId::UsdLibor3m => "CURVE_USD_LIBOR3M",
            CurveId::UsdLibor6m => "CURVE_USD_LIBOR6M",
            CurveId::UsdOis => "CURVE_USD_OIS",
            CurveId::UsdOvernightsofr => "CURVE_USD_OVERNIGHTSOFR",
        }
    }
}

} // verus!
