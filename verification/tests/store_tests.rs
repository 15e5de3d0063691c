use alm_config::choices::{AssumptionProfile, Environment, IncludedOrExcluded, Optimizer};
use alm_config::config::Configuration;
use alm_config::curves::CurveId;
use alm_config::date::Date;
use alm_config::percent::Percent;
use alm_config::store::{ConfigurationStore, IntegerField};

fn store() -> ConfigurationStore {
    ConfigurationStore::new(Configuration::default())
}

#[test]
fn default_values() {
    let c = Configuration::default();
    assert_eq!(c.stage_count, 2);
    assert_eq!(c.step_size_months, 4);
    assert_eq!(c.base_date, Date { year: 2020, month: 1, day: 1 });
    assert_eq!(c.start_date, Date { year: 2025, month: 1, day: 1 });
    assert_eq!(c.reports_folder, "Reports");
    assert_eq!(c.environment, Environment::Production);
    assert_eq!(c.assumption_profile, AssumptionProfile::BaseCase);
    assert_eq!(c.optimizer, Optimizer::Highs);
    assert_eq!(c.fwd_start_swap, IncludedOrExcluded::Included);
    assert_eq!(c.lcr_lower_limit, Percent::from_hundredths(0));
    assert_eq!(c.lcr_upper_limit, Percent::from_hundredths(10000));
    assert_eq!(c.lcr_average_dra_pd, Percent::from_hundredths(2));
    assert_eq!(c.mxn_treasury_liquidity_floor, 1000000);
    assert_eq!(c.cop_treasury_liquidity_floor, 1500000);
    assert_eq!(c.brl_treasury_liquidity_floor, 10000000);
    assert!(!c.require_annual_benchmark);
    assert!(!c.must_borrow_benchmark_in_first_year);
    assert_eq!(c.delta_nii_horizon_months, 12);
    assert_eq!(c.rate_shock_curves.len(), 16);
    for curve in &c.rate_shock_curves {
        assert_eq!(curve.points, vec![100; 10]);
    }
    assert!(c.is_valid());
}

#[test]
fn lower_limit_raises_upper() {
    let mut s = store();
    s.set_lcr_upper_limit(Percent::from_whole(150));
    assert_eq!(s.config.lcr_upper_limit, Percent::from_hundredths(15000));
    s.set_lcr_lower_limit(Percent::from_whole(250));
    assert_eq!(s.config.lcr_lower_limit, Percent::from_hundredths(25000));
    assert_eq!(s.config.lcr_upper_limit, Percent::from_hundredths(25000));
}

#[test]
fn upper_limit_lowers_lower() {
    let mut s = store();
    s.set_lcr_lower_limit(Percent::from_whole(200));
    assert_eq!(s.config.lcr_lower_limit, Percent::from_hundredths(20000));
    assert_eq!(s.config.lcr_upper_limit, Percent::from_hundredths(20000));
    s.set_lcr_upper_limit(Percent::from_whole(120));
    assert_eq!(s.config.lcr_upper_limit, Percent::from_hundredths(12000));
    assert_eq!(s.config.lcr_lower_limit, Percent::from_hundredths(12000));
}

#[test]
fn lcr_setters_clamp_into_range() {
    let mut s = store();
    s.set_lcr_lower_limit(Percent::from_whole(50));
    assert_eq!(s.config.lcr_lower_limit, Percent::from_hundredths(10000));
    s.set_lcr_upper_limit(Percent::from_whole(400));
    assert_eq!(s.config.lcr_upper_limit, Percent::from_hundredths(30000));
    assert!(s.config.lcr_lower_limit.hundredths <= s.config.lcr_upper_limit.hundredths);
}

#[test]
fn lcr_invariant_holds_along_a_call_sequence() {
    let mut s = store();
    let calls = [
        (true, 250u32),
        (false, 120),
        (true, 90),
        (false, 500),
        (true, 310),
        (false, 100),
    ];
    for (is_lower, whole) in calls {
        if is_lower {
            s.set_lcr_lower_limit(Percent::from_whole(whole));
        } else {
            s.set_lcr_upper_limit(Percent::from_whole(whole));
        }
        let lo = s.config.lcr_lower_limit.hundredths;
        let hi = s.config.lcr_upper_limit.hundredths;
        assert!(lo <= hi);
        assert!((10000..=30000).contains(&lo));
        assert!((10000..=30000).contains(&hi));
    }
}

#[test]
fn bounded_integer_setter_clamps() {
    let mut s = store();
    s.set_bounded_integer(IntegerField::StageCount, 99);
    assert_eq!(s.config.stage_count, 4);
    s.set_bounded_integer(IntegerField::StageCount, 0);
    assert_eq!(s.config.stage_count, 1);
    s.set_bounded_integer(IntegerField::StageCount, 3);
    assert_eq!(s.config.stage_count, 3);
    s.set_bounded_integer(IntegerField::StepSizeMonths, 7);
    assert_eq!(s.config.step_size_months, 6);
    s.set_bounded_integer(IntegerField::DeltaNiiHorizonMonths, 0);
    assert_eq!(s.config.delta_nii_horizon_months, 1);
    s.set_bounded_integer(IntegerField::MxnTreasuryLiquidityFloor, 5);
    assert_eq!(s.config.mxn_treasury_liquidity_floor, 1000000);
    s.set_bounded_integer(IntegerField::CopTreasuryLiquidityFloor, u32::MAX);
    assert_eq!(s.config.cop_treasury_liquidity_floor, 100000000);
    s.set_bounded_integer(IntegerField::BrlTreasuryLiquidityFloor, 2000000);
    assert_eq!(s.config.brl_treasury_liquidity_floor, 2000000);
}

#[test]
fn dra_pd_setter_clamps() {
    let mut s = store();
    s.set_lcr_average_dra_pd(Percent::from_whole(99));
    assert_eq!(s.config.lcr_average_dra_pd, Percent::from_hundredths(5000));
    s.set_lcr_average_dra_pd(Percent::from_hundredths(123));
    assert_eq!(s.config.lcr_average_dra_pd, Percent::from_hundredths(123));
}

#[test]
fn dirty_flag_tracks_edits_and_saves() {
    let mut s = store();
    assert!(!s.dirty);
    s.set_environment(Environment::Testing);
    assert!(s.dirty);
    assert_eq!(s.config.environment, Environment::Testing);
    s.mark_saved();
    assert!(!s.dirty);
    s.set_require_annual_benchmark(true);
    assert!(s.dirty);
    assert!(s.config.require_annual_benchmark);
}

#[test]
fn reports_folder_rejects_unstorable_text() {
    let mut s = store();
    assert!(s.set_reports_folder(String::from("")).is_err());
    assert!(s.set_reports_folder(String::from("a\"b")).is_err());
    assert!(s.set_reports_folder(String::from("a\\b")).is_err());
    assert!(s.set_reports_folder(String::from("a\tb")).is_err());
    assert_eq!(s.config.reports_folder, "Reports");
    assert!(!s.dirty);
    assert!(s.set_reports_folder(String::from("Out/Reports")).is_ok());
    assert_eq!(s.config.reports_folder, "Out/Reports");
    assert!(s.dirty);
}

#[test]
fn curve_point_setter_clamps_shocks() {
    let mut s = store();
    s.set_curve_point(CurveId::UsdFedFunds, 3, 9999);
    s.set_curve_point(CurveId::UsdFedFunds, 4, -9999);
    s.set_curve_point(CurveId::EurOis, 0, -25);
    let fed = &s.config.rate_shock_curves[CurveId::UsdFedFunds.index()];
    assert_eq!(fed.points[3], 500);
    assert_eq!(fed.points[4], -500);
    assert_eq!(fed.points[0], 100);
    let eur = &s.config.rate_shock_curves[CurveId::EurOis.index()];
    assert_eq!(eur.points[0], -25);
    assert!(s.config.is_valid());
}

#[test]
fn labels_and_wire_tokens() {
    assert_eq!(IncludedOrExcluded::Included.to_user_friendly_label(), "Included");
    assert_eq!(IncludedOrExcluded::Excluded.to_user_friendly_label(), "Excluded");
    assert_eq!(IncludedOrExcluded::Excluded.wire_token(), "excluded");
    assert_eq!(Environment::Development.wire_token(), "DEVELOPMENT");
    assert_eq!(Environment::Development.label(), "Development");
    assert_eq!(AssumptionProfile::Scenario2.wire_token(), "SCENARIO 2");
    assert_eq!(AssumptionProfile::Scenario2.label(), "Scenario 2");
    assert_eq!(Optimizer::Highs.wire_token(), "highs");
    assert_eq!(Optimizer::Cbc.label(), "Cbc");
    assert_eq!(CurveId::MxnTiie28d.wire_token(), "CURVE_MXN_TIIE28D");
    assert_eq!(CurveId::MxnTiie28d.index(), 5);
}

#[test]
fn date_setters_update_fields() {
    let mut s = store();
    s.set_start_date(Date::new(2030, 6, 15).unwrap());
    assert_eq!(s.config.start_date, Date { year: 2030, month: 6, day: 15 });
    s.set_assumption_profile(AssumptionProfile::Scenario3);
    s.set_fwd_start_swap(IncludedOrExcluded::Excluded);
    s.set_must_borrow_benchmark_in_first_year(true);
    assert_eq!(s.config.assumption_profile, AssumptionProfile::Scenario3);
    assert_eq!(s.config.fwd_start_swap, IncludedOrExcluded::Excluded);
    assert!(s.config.must_borrow_benchmark_in_first_year);
}
