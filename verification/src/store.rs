//! The editing-session wrapper around a [`Configuration`]: setters that
//! clamp and propagate so that no invalid combination is ever representable,
//! and a dirty flag that gates whether a save is offered.

use vstd::prelude::*;

use crate::choices::{AssumptionProfile, Environment, IncludedOrExcluded, Optimizer};
use crate::config::{
    plain_text, folder_text_ok, ConfigModel, Configuration, DRA_PD_MAX, LCR_LIMIT_MAX,
    LCR_LIMIT_MIN, LIQUIDITY_FLOOR_MAX, LIQUIDITY_FLOOR_MIN,
};
use crate::curves::{spec_clamped_i32, CurveId, CURVE_HORIZON_YEARS, CURVE_SHOCK_LIMIT_BPS};
use crate::date::Date;
use crate::percent::Percent;

verus! {

/// Error returned when a setter rejects a value that cannot be clamped into
/// shape (the one such value is the reports folder text).
#[derive(Clone, Copy, Debug, PartialEq, Eq, Structural)]
pub struct ValidationError;

/// `v` forced into `[lo, hi]`.
pub open spec fn spec_clamped_u32(v: u32, lo: u32, hi: u32) -> u32 {
    if v < lo {
        lo
    } else if v > hi {
        hi
    } else {
        v
    }
}

pub fn clamp_u32(v: u32, lo: u32, hi: u32) -> (r: u32)
    ensures
        r == spec_clamped_u32(v, lo, hi),
{
    if v < lo {
        lo
    } else if v > hi {
        hi
    } else {
        v
    }
}

/// The bounded whole-number fields, which share one clamping setter.
#[derive(Clone, Copy, Debug, PartialEq, Eq, Structural)]
pub enum IntegerField {
    StageCount,
    StepSizeMonths,
    DeltaNiiHorizonMonths,
    MxnTreasuryLiquidityFloor,
    CopTreasuryLiquidityFloor,
    BrlTreasuryLiquidityFloor,
}

/// Smallest admissible value of the field.
pub open spec fn int_field_min(f: IntegerField) -> u32 {
    match f {
        IntegerField::StageCount => 1,
        IntegerField::StepSizeMonths => 1,
        IntegerField::DeltaNiiHorizonMonths => 1,
        IntegerField::MxnTreasuryLiquidityFloor => LIQUIDITY_FLOOR_MIN,
        IntegerField::CopTreasuryLiquidityFloor => LIQUIDITY_FLOOR_MIN,
        IntegerField::BrlTreasuryLiquidityFloor => LIQUIDITY_FLOOR_MIN,
    }
}

/// Largest admissible value of the field.
pub open spec fn int_field_max(f: IntegerField) -> u32 {
    match f {
        IntegerField::StageCount => 4,
        IntegerField::StepSizeMonths => 6,
        IntegerField::DeltaNiiHorizonMonths => 36,
        IntegerField::MxnTreasuryLiquidityFloor => LIQUIDITY_FLOOR_MAX,
        IntegerField::CopTreasuryLiquidityFloor => LIQUIDITY_FLOOR_MAX,
        IntegerField::BrlTreasuryLiquidityFloor => LIQUIDITY_FLOOR_MAX,
    }
}

/// Value the field has in the model.
pub open spec fn int_field_value(m: ConfigModel, f: IntegerField) -> u32 {
    match f {
        IntegerField::StageCount => m.stage_count,
        IntegerField::StepSizeMonths => m.step_size_months,
        IntegerField::DeltaNiiHorizonMonths => m.delta_nii_horizon_months,
        IntegerField::MxnTreasuryLiquidityFloor => m.mxn_treasury_liquidity_floor,
        IntegerField::CopTreasuryLiquidityFloor => m.cop_treasury_liquidity_floor,
        IntegerField::BrlTreasuryLiquidityFloor => m.brl_treasury_liquidity_floor,
    }
}

/// The model with the field replaced by `v`.
pub open spec fn with_int_field(m: ConfigModel, f: IntegerField, v: u32) -> ConfigModel {
    match f {
        IntegerField::StageCount => ConfigModel { stage_count: v, ..m },
        IntegerField::StepSizeMonths => ConfigModel { step_size_months: v, ..m },
        IntegerField::DeltaNiiHorizonMonths => ConfigModel { delta_nii_horizon_months: v, ..m },
        IntegerField::MxnTreasuryLiquidityFloor => (ConfigModel {
            mxn_treasury_liquidity_floor: v,
            ..m
        }),
        IntegerField::CopTreasuryLiquidityFloor => (ConfigModel {
            cop_treasury_liquidity_floor: v,
            ..m
        }),
        IntegerField::BrlTreasuryLiquidityFloor => (ConfigModel {
            brl_treasury_liquidity_floor: v,
            ..m
        }),
    }
}

/// Effect of setting the lower LCR limit: the value is clamped into the
/// admissible range, and if it ends above the upper limit, the upper limit
/// is raised to match.
pub open spec fn spec_set_lcr_lower(m: ConfigModel, v: Percent) -> ConfigModel {
    let c = spec_clamped_u32(v.hundredths, LCR_LIMIT_MIN, LCR_LIMIT_MAX);
    ConfigModel {
        lcr_lower_limit: Percent { hundredths: c },
        lcr_upper_limit: if c > m.lcr_upper_limit.hundredths {
            Percent { hundredths: c }
        } else {
            m.lcr_upper_limit
        },
        ..m
    }
}

/// Effect of setting the upper LCR limit: the value is clamped into the
/// admissible range, and if it ends below the lower limit, the lower limit
/// is lowered to match.
pub open spec fn spec_set_lcr_upper(m: ConfigModel, v: Percent) -> ConfigModel {
    let c = spec_clamped_u32(v.hundredths, LCR_LIMIT_MIN, LCR_LIMIT_MAX);
    ConfigModel {
        lcr_upper_limit: Percent { hundredths: c },
        lcr_lower_limit: if m.lcr_lower_limit.hundredths > c {
            Percent { hundredths: c }
        } else {
            m.lcr_lower_limit
        },
        ..m
    }
}

/// One editing session: the configuration being edited and whether it has
/// unsaved changes. Every mutating setter marks the session dirty; a
/// successful save (performed by the caller) clears it through
/// [`ConfigurationStore::mark_saved`].
#[derive(Clone, Debug, PartialEq)]
pub struct ConfigurationStore {
    pub config: Configuration,
    pub dirty: bool,
}

impl ConfigurationStore {
    pub open spec fn valid(self) -> bool {
        self.config.valid()
    }

    /// A fresh session over `config`, with nothing to save yet.
    pub fn new(config: Configuration) -> (r: ConfigurationStore)
        ensures
            r.config == config,
            !r.dirty,
    {
        ConfigurationStore { config, dirty: false }
    }

    /// Records that the configuration has been persisted as it stands.
    pub fn mark_saved(&mut self)
        ensures
            final(self).config == old(self).config,
            !final(self).dirty,
    {
        self.dirty = false;
    }

    /// Sets the lower LCR limit, clamping it into the admissible range and
    /// raising the upper limit to match where needed.
    pub fn set_lcr_lower_limit(&mut self, value: Percent)
        requires
            old(self).valid(),
        ensures
            final(self).valid(),
            final(self).dirty,
            final(self).config@ == spec_set_lcr_lower(old(self).config@, value),
    {
        let c = clamp_u32(value.hundredths, LCR_LIMIT_MIN, LCR_LIMIT_MAX);
        self.config.lcr_lower_limit = Percent { hundredths: c };
        if c > self.config.lcr_upper_limit.hundredths {
            self.config.lcr_upper_limit = Percent { hundredths: c };
        }
        self.dirty = true;
    }

    /// Sets the upper LCR limit, clamping it into the admissible range and
    /// lowering the lower limit to match where needed.
    pub fn set_lcr_upper_limit(&mut self, value: Percent)
        requires
            old(self).valid(),
        ensures
            final(self).valid(),
            final(self).dirty,
            final(self).config@ == spec_set_lcr_upper(old(self).config@, value),
    {
        let c = clamp_u32(value.hundredths, LCR_LIMIT_MIN, LCR_LIMIT_MAX);
        self.config.lcr_upper_limit = Percent { hundredths: c };
        if self.config.lcr_lower_limit.hundredths > c {
            self.config.lcr_lower_limit = Percent { hundredths: c };
        }
        self.dirty = true;
    }

    /// Sets the USD treasury liquidity share, clamped into `[0, 50]` percent.
    pub fn set_lcr_average_dra_pd(&mut self, value: Percent)
        requires
            old(self).valid(),
        ensures
            final(self).valid(),
            final(self).dirty,
            final(self).config@ == (ConfigModel {
                lcr_average_dra_pd: Percent {
                    hundredths: spec_clamped_u32(value.hundredths, 0, DRA_PD_MAX),
                },
                ..old(self).config@
            }),
    {
        let c = clamp_u32(value.hundredths, 0, DRA_PD_MAX);
        self.config.lcr_average_dra_pd = Percent { hundredths: c };
        self.dirty = true;
    }

    /// Sets a bounded whole-number field. The stored value is the given one
    /// clamped into the field's range: out-of-range input is not an error,
    /// exactly as a slider would behave.
    pub fn set_bounded_integer(&mut self, field: IntegerField, value: u32)
        requires
            old(self).valid(),
        ensures
            final(self).valid(),
            final(self).dirty,
            final(self).config@ == with_int_field(
                old(self).config@,
                field,
                spec_clamped_u32(value, int_field_min(field), int_field_max(field)),
            ),
            int_field_value(final(self).config@, field) as int == vstd::math::max(
                int_field_min(field) as int,
                vstd::math::min(value as int, int_field_max(field) as int),
            ),
    {
        match field {
            IntegerField::StageCount => {
                self.config.stage_count = clamp_u32(value, 1, 4);
            },
            IntegerField::StepSizeMonths => {
                self.config.step_size_months = clamp_u32(value, 1, 6);
            },
            IntegerField::DeltaNiiHorizonMonths => {
                self.config.delta_nii_horizon_months = clamp_u32(value, 1, 36);
            },
            IntegerField::MxnTreasuryLiquidityFloor => {
                self.config.mxn_treasury_liquidity_floor = clamp_u32(
                    value,
                    LIQUIDITY_FLOOR_MIN,
                    LIQUIDITY_FLOOR_MAX,
                );
            },
            IntegerField::CopTreasuryLiquidityFloor => {
                self.config.cop_treasury_liquidity_floor = clamp_u32(
                    value,
                    LIQUIDITY_FLOOR_MIN,
                    LIQUIDITY_FLOOR_MAX,
                );
            },
            IntegerField::BrlTreasuryLiquidityFloor => {
                self.config.brl_treasury_liquidity_floor = clamp_u32(
                    value,
                    LIQUIDITY_FLOOR_MIN,
                    LIQUIDITY_FLOOR_MAX,
                );
            },
        }
        self.dirty = true;
    }

    /// Sets the base date of the run.
    pub fn set_base_date(&mut self, date: Date)
        requires
            old(self).valid(),
            date.valid(),
        ensures
            final(self).valid(),
            final(self).dirty,
            final(self).config@ == (ConfigModel { base_date: date, ..old(self).config@ }),
    {
        self.config.base_date = date;
        self.dirty = true;
    }

    /// Sets the start date of the run.
    pub fn set_start_date(&mut self, date: Date)
        requires
            old(self).valid(),
            date.valid(),
        ensures
            final(self).valid(),
            final(self).dirty,
            final(self).config@ == (ConfigModel { start_date: date, ..old(self).config@ }),
    {
        self.config.start_date = date;
        self.dirty = true;
    }

    /// Sets the reports folder. Rejected (leaving the session untouched)
    /// exactly when the text is empty or holds a character the document
    /// cannot store verbatim.
    pub fn set_reports_folder(&mut self, folder: String) -> (r: Result<(), ValidationError>)
        requires
            old(self).valid(),
        ensures
            final(self).valid(),
            r is Ok <==> (folder@.len() >= 1 && plain_text(folder@)),
            r is Ok ==> final(self).config@ == (ConfigModel {
                reports_folder: folder@,
                ..old(self).config@
            }) && final(self).dirty,
            r is Err ==> *final(self) == *old(self),
    {
        if folder_text_ok(&folder) {
            self.config.reports_folder = folder;
            self.dirty = true;
            Ok(())
        } else {
            Err(ValidationError)
        }
    }

    /// Sets the deployment environment.
    pub fn set_environment(&mut self, value: Environment)
        requires
            old(self).valid(),
        ensures
            final(self).valid(),
            final(self).dirty,
            final(self).config@ == (ConfigModel { environment: value, ..old(self).config@ }),
    {
        self.config.environment = value;
        self.dirty = true;
    }

    /// Sets the assumption profile.
    pub fn set_assumption_profile(&mut self, value: AssumptionProfile)
        requires
            old(self).valid(),
        ensures
            final(self).valid(),
            final(self).dirty,
            final(self).config@ == (ConfigModel {
                assumption_profile: value,
                ..old(self).config@
            }),
    {
        self.config.assumption_profile = value;
        self.dirty = true;
    }

    /// Sets the optimizer.
    pub fn set_optimizer(&mut self, value: Optimizer)
        requires
            old(self).valid(),
        ensures
            final(self).valid(),
            final(self).dirty,
            final(self).config@ == (ConfigModel { optimizer: value, ..old(self).config@ }),
    {
        self.config.optimizer = value;
        self.dirty = true;
    }

    /// Sets whether forward-start swaps take part.
    pub fn set_fwd_start_swap(&mut self, value: IncludedOrExcluded)
        requires
            old(self).valid(),
        ensures
            final(self).valid(),
            final(self).dirty,
            final(self).config@ == (ConfigModel { fwd_start_swap: value, ..old(self).config@ }),
    {
        self.config.fwd_start_swap = value;
        self.dirty = true;
    }

    /// Sets whether an annual benchmark is required.
    pub fn set_require_annual_benchmark(&mut self, value: bool)
        requires
            old(self).valid(),
        ensures
            final(self).valid(),
            final(self).dirty,
            final(self).config@ == (ConfigModel {
                require_annual_benchmark: value,
                ..old(self).config@
            }),
    {
        self.config.require_annual_benchmark = value;
        self.dirty = true;
    }

    /// Sets whether the benchmark must be borrowed in the first year.
    pub fn set_must_borrow_benchmark_in_first_year(&mut self, value: bool)
        requires
            old(self).valid(),
        ensures
            final(self).valid(),
            final(self).dirty,
            final(self).config@ == (ConfigModel {
                must_borrow_benchmark_in_first_year: value,
                ..old(self).config@
            }),
    {
        self.config.must_borrow_benchmark_in_first_year = value;
        self.dirty = true;
    }

    /// Replaces one year's shock of one curve, clamped into the admissible
    /// shock range.
    pub fn set_curve_point(&mut self, id: CurveId, year_index: usize, value: i32)
        requires
            old(self).valid(),
            year_index < CURVE_HORIZON_YEARS,
        ensures
            final(self).valid(),
            final(self).dirty,
            final(self).config@ == (ConfigModel {
                rate_shock_curves: old(self).config@.rate_shock_curves.update(
                    crate::curves::spec_curve_index(id),
                    old(self).config@.rate_shock_curves[crate::curves::spec_curve_index(
                        id,
                    )].update(
                        year_index as int,
                        spec_clamped_i32(
                            value as int,
                            -(CURVE_SHOCK_LIMIT_BPS as int),
                            CURVE_SHOCK_LIMIT_BPS as int,
                        ) as i32,
                    ),
                ),
                ..old(self).config@
            }),
    {
        let idx = id.index();
        assert(self.config@.rate_shock_curves[idx as int] == self.config.rate_shock_curves@[
            idx as int]@);
        let curve = &mut self.config.rate_shock_curves[idx];
        curve.set_point(year_index, value);
        self.dirty = true;
        proof {
            let gi = crate::curves::spec_curve_index(id);
            let expected = old(self).config@.rate_shock_curves.update(
                gi,
                old(self).config@.rate_shock_curves[gi].update(
                    year_index as int,
                    spec_clamped_i32(
                        value as int,
                        -(CURVE_SHOCK_LIMIT_BPS as int),
                        CURVE_SHOCK_LIMIT_BPS as int,
                    ) as i32,
                ),
            );
            assert(self.config@.rate_shock_curves =~~= expected);
            assert(self.config@ =~~= (ConfigModel {
                rate_shock_curves: expected,
                ..old(self).config@
            }));
            assert forall|k: int|
                0 <= k < expected.len() implies (#[trigger] expected[k]).len()
                == CURVE_HORIZON_YEARS && crate::curves::shocks_in_range(expected[k]) by {
                if k != gi {
                    assert(expected[k] == old(self).config@.rate_shock_curves[k]);
                }
            }
        }
    }
}

} // verus!
