//! Cross-operation guarantees: the coupling of the LCR limit setters over
//! whole call sequences, stated over the model transitions the setters'
//! own contracts use ([`spec_set_lcr_lower`], [`spec_set_lcr_upper`]), and
//! the fixed length of every curve in a well-formed configuration.

use vstd::prelude::*;

use crate::config::{ConfigModel, LCR_LIMIT_MAX, LCR_LIMIT_MIN};
use crate::curves::{CURVE_COUNT, CURVE_HORIZON_YEARS};
use crate::percent::Percent;
use crate::store::{spec_set_lcr_lower, spec_set_lcr_upper};

verus! {

/// One call of an LCR limit setter, with the value it is given.
#[derive(Clone, Copy, Debug, PartialEq, Eq, Structural)]
pub enum LcrOp {
    SetLower(Percent),
    SetUpper(Percent),
}

/// The model after one setter call.
pub open spec fn apply_lcr_op(m: ConfigModel, op: LcrOp) -> ConfigModel {
    match op {
        LcrOp::SetLower(v) => spec_set_lcr_lower(m, v),
        LcrOp::SetUpper(v) => spec_set_lcr_upper(m, v),
    }
}

/// The model after a sequence of setter calls, applied left to right.
pub open spec fn apply_lcr_ops(m: ConfigModel, ops: Seq<LcrOp>) -> ConfigModel
    decreases ops.len(),
{
    if ops.len() == 0 {
        m
    } else {
        apply_lcr_op(apply_lcr_ops(m, ops.drop_last()), ops.last())
    }
}

/// The lower LCR limit does not exceed the upper one.
pub open spec fn lcr_coupled(m: ConfigModel) -> bool {
    m.lcr_lower_limit.hundredths <= m.lcr_upper_limit.hundredths
}

/// Both LCR limits lie in the admissible operating range.
pub open spec fn lcr_in_range(m: ConfigModel) -> bool {
    &&& LCR_LIMIT_MIN <= m.lcr_lower_limit.hundredths <= LCR_LIMIT_MAX
    &&& LCR_LIMIT_MIN <= m.lcr_upper_limit.hundredths <= LCR_LIMIT_MAX
}

/// One setter call leaves the limits coupled — whatever state it starts
/// from — and keeps them in the operating range if they were there already.
/// No field outside the two limits changes.
pub proof fn lemma_lcr_op_couples(m: ConfigModel, op: LcrOp)
    ensures
        lcr_coupled(apply_lcr_op(m, op)),
        lcr_in_range(m) ==> lcr_in_range(apply_lcr_op(m, op)),
        apply_lcr_op(m, op) == (ConfigModel {
            lcr_lower_limit: apply_lcr_op(m, op).lcr_lower_limit,
            lcr_upper_limit: apply_lcr_op(m, op).lcr_upper_limit,
            ..m
        }),
{
}

/// After every prefix of any sequence of LCR limit setter calls — that is,
/// after each call — the lower limit does not exceed the upper one.
pub proof fn lemma_lcr_coupling_after_ops(m: ConfigModel, ops: Seq<LcrOp>)
    ensures
        forall|k: int| 1 <= k <= ops.len() ==> lcr_coupled(apply_lcr_ops(m, #[trigger] ops.take(k))),
    decreases ops.len(),
{
    if ops.len() > 0 {
        lemma_lcr_coupling_after_ops(m, ops.drop_last());
        assert forall|k: int| 1 <= k <= ops.len() implies lcr_coupled(
            apply_lcr_ops(m, #[trigger] ops.take(k)),
        ) by {
            if k < ops.len() {
                assert(ops.drop_last().take(k) =~= ops.take(k));
            } else {
                assert(ops.take(k) =~= ops);
                lemma_lcr_op_couples(apply_lcr_ops(m, ops.drop_last()), ops.last());
            }
        }
    }
}

/// Starting from limits inside the admissible operating range, any sequence
/// of LCR limit setter calls keeps both limits inside it, after each call.
pub proof fn lemma_lcr_limits_stay_in_range(m: ConfigModel, ops: Seq<LcrOp>)
    requires
        lcr_in_range(m),
    ensures
        forall|k: int| 0 <= k <= ops.len() ==> lcr_in_range(apply_lcr_ops(m, #[trigger] ops.take(k))),
    decreases ops.len(),
{
    if ops.len() == 0 {
        assert(ops.take(0) =~= ops);
    } else {
        lemma_lcr_limits_stay_in_range(m, ops.drop_last());
        assert forall|k: int| 0 <= k <= ops.len() implies lcr_in_range(
            apply_lcr_ops(m, #[trigger] ops.take(k)),
        ) by {
            if k < ops.len() {
                assert(ops.drop_last().take(k) =~= ops.take(k));
            } else {
                assert(ops.take(k) =~= ops);
                assert(ops.drop_last().take(ops.len() - 1) =~= ops.drop_last());
                lemma_lcr_op_couples(apply_lcr_ops(m, ops.drop_last()), ops.last());
            }
        }
    }
}

/// Every well-formed configuration carries exactly one shock per modelled
/// year in every curve. Each operation of the library yields a well-formed
/// configuration, so the fixed length holds after any operation.
pub proof fn lemma_valid_curves_have_fixed_length(m: ConfigModel)
    requires
        m.valid(),
    ensures
        m.rate_shock_curves.len() == CURVE_COUNT,
        forall|k: int|
            0 <= k < CURVE_COUNT ==> (#[trigger] m.rate_shock_curves[k]).len()
                == CURVE_HORIZON_YEARS,
{
}

} // verus!
