//! The configuration record: one value per run parameter of the external
//! model, with a well-formedness predicate tying the fields together.

use vstd::prelude::*;
use vstd::string::StringExecFns;

use crate::choices::{AssumptionProfile, Environment, IncludedOrExcluded, Optimizer};
use crate::curves::{shocks_in_range, Curve, CURVE_COUNT, CURVE_HORIZON_YEARS};
use crate::date::Date;
use crate::percent::Percent;

verus! {

/// Smallest admissible LCR limit, in hundredths of a percent (100%).
pub const LCR_LIMIT_MIN: u32 = 10000;

/// Largest admissible LCR limit, in hundredths of a percent (300%).
pub const LCR_LIMIT_MAX: u32 = 30000;

/// Largest admissible USD treasury liquidity share, in hundredths of a
/// percent (50%).
pub const DRA_PD_MAX: u32 = 5000;

/// Smallest admissible treasury liquidity floor, in USD.
pub const LIQUIDITY_FLOOR_MIN: u32 = 1000000;

/// Largest admissible treasury liquidity floor, in USD.
pub const LIQUIDITY_FLOOR_MAX: u32 = 100000000;

/// Characters the document stores verbatim: printable ASCII without the two
/// characters that would need escaping inside a quoted string.
pub open spec fn plain_char(c: char) -> bool {
    &&& 0x20 <= c as u32 <= 0x7e
    &&& c != '"'
    &&& c != '\\'
}

/// Every character of the text is one the document stores verbatim.
pub open spec fn plain_text(s: Seq<char>) -> bool {
    forall|i: int| 0 <= i < s.len() ==> plain_char(#[trigger] s[i])
}

/// The mathematical model of a [`Configuration`]: the same record with
/// text as a character sequence and the curves as a sequence of shock
/// sequences.
#[verifier::ext_equal]
pub ghost struct ConfigModel {
    pub stage_count: u32,
    pub step_size_months: u32,
    pub base_date: Date,
    pub start_date: Date,
    pub reports_folder: Seq<char>,
    pub environment: Environment,
    pub assumption_profile: AssumptionProfile,
    pub optimizer: Optimizer,
    pub fwd_start_swap: IncludedOrExcluded,
    pub lcr_lower_limit: Percent,
    pub lcr_upper_limit: Percent,
    pub lcr_average_dra_pd: Percent,
    pub mxn_treasury_liquidity_floor: u32,
    pub cop_treasury_liquidity_floor: u32,
    pub brl_treasury_liquidity_floor: u32,
    pub require_annual_benchmark: bool,
    pub must_borrow_benchmark_in_first_year: bool,
    pub delta_nii_horizon_months: u32,
    pub rate_shock_curves: Seq<Seq<i32>>,
}

impl ConfigModel {
    /// Well-formedness: every field constraint of the data model, and the
    /// cross-field rule that the lower LCR limit never exceeds the upper.
    ///
    /// The LCR limits themselves are not forced into the admissible
    /// operating range here: the compiled-in default sits below it, and the
    /// setters are what clamp edited values into it.
    pub open spec fn valid(self) -> bool {
        &&& 1 <= self.stage_count <= 4
        &&& 1 <= self.step_size_months <= 6
        &&& self.base_date.valid()
        &&& self.start_date.valid()
        &&& self.reports_folder.len() >= 1
        &&& plain_text(self.reports_folder)
        &&& self.lcr_lower_limit.hundredths <= self.lcr_upper_limit.hundredths
        &&& self.lcr_average_dra_pd.hundredths <= DRA_PD_MAX
        &&& LIQUIDITY_FLOOR_MIN <= self.mxn_treasury_liquidity_floor <= LIQUIDITY_FLOOR_MAX
        &&& LIQUIDITY_FLOOR_MIN <= self.cop_treasury_liquidity_floor <= LIQUIDITY_FLOOR_MAX
        &&& LIQUIDITY_FLOOR_MIN <= self.brl_treasury_liquidity_floor <= LIQUIDITY_FLOOR_MAX
        &&& 1 <= self.delta_nii_horizon_months <= 36
        &&& self.rate_shock_curves.len() == CURVE_COUNT
        &&& forall|k: int|
            0 <= k < CURVE_COUNT ==> (#[trigger] self.rate_shock_curves[k]).len()
                == CURVE_HORIZON_YEARS && shocks_in_range(self.rate_shock_curves[k])
    }
}

/// The compiled-in default configuration.
pub open spec fn default_model() -> ConfigModel {
    ConfigModel {
        stage_count: 2,
        step_size_months: 4,
        base_date: Date { year: 2020, month: 1, day: 1 },
        start_date: Date { year: 2025, month: 1, day: 1 },
        reports_folder: "Reports"@,
        environment: Environment::Production,
        assumption_profile: AssumptionProfile::BaseCase,
        optimizer: Optimizer::Highs,
        fwd_start_swap: IncludedOrExcluded::Included,
        lcr_lower_limit: Percent { hundredths: 0 },
        lcr_upper_limit: Percent { hundredths: 10000 },
        lcr_average_dra_pd: Percent { hundredths: 2 },
        mxn_treasury_liquidity_floor: 1000000,
        cop_treasury_liquidity_floor: 1500000,
        brl_treasury_liquidity_floor: 10000000,
        require_annual_benchmark: false,
        must_borrow_benchmark_in_first_year: false,
        delta_nii_horizon_months: 12,
        rate_shock_curves: Seq::new(
            CURVE_COUNT as nat,
            |k: int| Seq::new(CURVE_HORIZON_YEARS as nat, |j: int| 100i32),
        ),
    }
}

/// One editing session's run parameters. Constructed from the compiled-in
/// default or parsed from a persisted document, mutated through the setters
/// of [`crate::store::ConfigurationStore`], and serialized wholesale.
#[derive(Clone, Debug, PartialEq)]
pub struct Configuration {
    pub stage_count: u32,
    pub step_size_months: u32,
    pub base_date: Date,
    pub start_date: Date,
    pub reports_folder: String,
    pub environment: Environment,
    pub assumption_profile: AssumptionProfile,
    pub optimizer: Optimizer,
    pub fwd_start_swap: IncludedOrExcluded,
    pub lcr_lower_limit: Percent,
    pub lcr_upper_limit: Percent,
    pub lcr_average_dra_pd: Percent,
    pub mxn_treasury_liquidity_floor: u32,
    pub cop_treasury_liquidity_floor: u32,
    pub brl_treasury_liquidity_floor: u32,
    pub require_annual_benchmark: bool,
    pub must_borrow_benchmark_in_first_year: bool,
    pub delta_nii_horizon_months: u32,
    pub rate_shock_curves: Vec<Curve>,
}

impl View for Configuration {
    type V = ConfigModel;

    open spec fn view(&self) -> ConfigModel {
        ConfigModel {
            stage_count: self.stage_count,
            step_size_months: self.step_size_months,
            base_date: self.base_date,
            start_date: self.start_date,
            reports_folder: self.reports_folder@,
            environment: self.environment,
            assumption_profile: self.assumption_profile,
            optimizer: self.optimizer,
            fwd_start_swap: self.fwd_start_swap,
            lcr_lower_limit: self.lcr_lower_limit,
            lcr_upper_limit: self.lcr_upper_limit,
            lcr_average_dra_pd: self.lcr_average_dra_pd,
            mxn_treasury_liquidity_floor: self.mxn_treasury_liquidity_floor,
            cop_treasury_liquidity_floor: self.cop_treasury_liquidity_floor,
            brl_treasury_liquidity_floor: self.brl_treasury_liquidity_floor,
            require_annual_benchmark: self.require_annual_benchmark,
            must_borrow_benchmark_in_first_year: self.must_borrow_benchmark_in_first_year,
            delta_nii_horizon_months: self.delta_nii_horizon_months,
            rate_shock_curves: self.rate_shock_curves.deep_view(),
        }
    }
}

impl Configuration {
    /// Well-formedness of the record, stated on its model.
    pub open spec fn valid(self) -> bool {
        self@.valid()
    }

    /// Runtime check of the well-formedness predicate, for callers that
    /// assemble a record by hand.
    pub fn is_valid(&self) -> (r: bool)
        ensures
            r == self.valid(),
    {
        let folder_ok = folder_text_ok(&self.reports_folder);
        let curves_ok = self.curves_ok();
        let r = 1 <= self.stage_count && self.stage_count <= 4 && 1 <= self.step_size_months
            && self.step_size_months <= 6 && self.base_date.is_valid() && self.start_date.is_valid()
            && folder_ok && self.lcr_lower_limit.hundredths <= self.lcr_upper_limit.hundredths
            && self.lcr_average_dra_pd.hundredths <= DRA_PD_MAX
            && LIQUIDITY_FLOOR_MIN <= self.mxn_treasury_liquidity_floor
            && self.mxn_treasury_liquidity_floor <= LIQUIDITY_FLOOR_MAX
            && LIQUIDITY_FLOOR_MIN <= self.cop_treasury_liquidity_floor
            && self.cop_treasury_liquidity_floor <= LIQUIDITY_FLOOR_MAX
            && LIQUIDITY_FLOOR_MIN <= self.brl_treasury_liquidity_floor
            && self.brl_treasury_liquidity_floor <= LIQUIDITY_FLOOR_MAX
            && 1 <= self.delta_nii_horizon_months && self.delta_nii_horizon_months <= 36
            && curves_ok;
        r
    }

    fn curves_ok(&self) -> (r: bool)
        ensures
            r == (self@.rate_shock_curves.len() == CURVE_COUNT && (forall|k: int|
                0 <= k < CURVE_COUNT ==> (#[trigger] self@.rate_shock_curves[k]).len()
                    == CURVE_HORIZON_YEARS && shocks_in_range(self@.rate_shock_curves[k]))),
    {
        if self.rate_shock_curves.len() != CURVE_COUNT {
            return false;
        }
        let mut k: usize = 0;
        while k < CURVE_COUNT
            invariant
                k <= CURVE_COUNT,
                self.rate_shock_curves@.len() == CURVE_COUNT,
                self@.rate_shock_curves.len() == CURVE_COUNT,
                forall|i: int|
                    0 <= i < k ==> (#[trigger] self@.rate_shock_curves[i]).len()
                        == CURVE_HORIZON_YEARS && shocks_in_range(self@.rate_shock_curves[i]),
            decreases CURVE_COUNT - k,
        {
            let c = &self.rate_shock_curves[k];
            assert(self@.rate_shock_curves[k as int] == c@);
            if c.points.len() != CURVE_HORIZON_YEARS {
                assert(self@.rate_shock_curves[k as int].len() != CURVE_HORIZON_YEARS);
                return false;
            }
            let mut j: usize = 0;
            while j < CURVE_HORIZON_YEARS
                invariant
                    j <= CURVE_HORIZON_YEARS,
                    c@.len() == CURVE_HORIZON_YEARS,
                    self@.rate_shock_curves[k as int] == c@,
                    0 <= k < CURVE_COUNT,
                    self@.rate_shock_curves.len() == CURVE_COUNT,
                    forall|i: int| 0 <= i < j ==> -500 <= #[trigger] c@[i] <= 500,
                decreases CURVE_HORIZON_YEARS - j,
            {
                let p = c.points[j];
                if p < -500 || p > 500 {
                    assert(!shocks_in_range(self@.rate_shock_curves[k as int])) by {
                        assert(c@[j as int] < -500 || c@[j as int] > 500);
                    }
                    return false;
                }
                j = j + 1;
            }
            assert(shocks_in_range(c@));
            k = k + 1;
        }
        true
    }
}

/// Runtime check that the text can be stored verbatim and is non-empty.
pub fn folder_text_ok(s: &String) -> (r: bool)
    ensures
        r == (s@.len() >= 1 && plain_text(s@)),
{
    let n = s.as_str().unicode_len();
    if n == 0 {
        return false;
    }
    let mut i: usize = 0;
    while i < n
        invariant
            n == s@.len(),
            i <= n,
            forall|k: int| 0 <= k < i ==> plain_char(#[trigger] s@[k]),
        decreases n - i,
    {
        let c = s.as_str().get_char(i);
        let u = c as u32;
        if u < 0x20 || u > 0x7e || c == '"' || c == '\\' {
            return false;
        }
        i = i + 1;
    }
    true
}

impl Default for Configuration {
    /// The compiled-in default configuration: the record any session starts
    /// from when no persisted document can be read.
    fn default() -> (r: Configuration)
        ensures
            r@ == default_model(),
            r.valid(),
    {
        let mut curves: Vec<Curve> = Vec::new();
        let mut k: usize = 0;
        while k < CURVE_COUNT
            invariant
                k <= CURVE_COUNT,
                curves@.len() == k,
                forall|i: int|
                    0 <= i < k ==> (#[trigger] curves@[i])@ == Seq::new(
                        CURVE_HORIZON_YEARS as nat,
                        |j: int| 100i32,
                    ),
            decreases CURVE_COUNT - k,
        {
            curves.push(Curve::uniform(100));
            k = k + 1;
        }
        let r = Configuration {
            stage_count: 2,
            step_size_months: 4,
            base_date: Date { year: 2020, month: 1, day: 1 },
            start_date: Date { year: 2025, month: 1, day: 1 },
            reports_folder: String::from_str("Reports"),
            environment: Environment::Production,
            assumption_profile: AssumptionProfile::BaseCase,
            optimizer: Optimizer::Highs,
            fwd_start_swap: IncludedOrExcluded::Included,
            lcr_lower_limit: Percent { hundredths: 0 },
            lcr_upper_limit: Percent { hundredths: 10000 },
            lcr_average_dra_pd: Percent { hundredths: 2 },
            mxn_treasury_liquidity_floor: 1000000,
            cop_treasury_liquidity_floor: 1500000,
            brl_treasury_liquidity_floor: 10000000,
            require_annual_benchmark: false,
            must_borrow_benchmark_in_first_year: false,
            delta_nii_horizon_months: 12,
            rate_shock_curves: curves,
        };
        proof {
            reveal_strlit("Reports");
            assert(r@.rate_shock_curves =~~= default_model().rate_shock_curves);
            assert(r@ =~~= default_model());
            assert(plain_text(default_model().reports_folder)) by {
                assert forall|i: int|
                    0 <= i < default_model().reports_folder.len() implies plain_char(
                    #[trigger] default_model().reports_folder[i],
                ) by {}
            }
        }
        r
    }
}

} // verus!
