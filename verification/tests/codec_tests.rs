use alm_config::choices::{AssumptionProfile, Environment, IncludedOrExcluded, Optimizer};
use alm_config::codec::{parse, serialize};
use alm_config::config::Configuration;
use alm_config::curves::CurveId;
use alm_config::date::Date;
use alm_config::percent::Percent;
use alm_config::store::{ConfigurationStore, IntegerField};

fn chars(s: &str) -> Vec<char> {
    s.chars().collect()
}

fn text(v: &[char]) -> String {
    v.iter().collect()
}

fn doc_of(c: &Configuration) -> String {
    text(&serialize(c))
}

#[test]
fn round_trip_default() {
    let c = Configuration::default();
    let out = serialize(&c);
    let back = parse(&out).expect("canonical document must parse");
    assert_eq!(back, c);
}

#[test]
fn default_document_text() {
    let mut expected = String::from(
        "{\n  \"stage_count\": 2,\n  \"step_size_months\": 4,\n  \"base_date\": \"2020-01-01\",\n  \"start_date\": \"2025-01-01\",\n  \"reports_folder\": \"Reports\",\n  \"environment\": \"PRODUCTION\",\n  \"assumption_profile\": \"BASE CASE\",\n  \"optimizer\": \"highs\",\n  \"fwd_start_swap\": \"included\",\n  \"lcr_lower_limit\": 0.0,\n  \"lcr_upper_limit\": 100.0,\n  \"lcr_average_dra_pd\": 0.02,\n  \"MXN_treasury_liquidity_floor\": 1000000,\n  \"COP_treasury_liquidity_floor\": 1500000,\n  \"BRL_treasury_liquidity_floor\": 10000000,\n  \"require_annual_benchmark\": false,\n  \"must_borrow_benchmark_in_first_year\": false,\n  \"delta_nii_horizon_months\": 12,\n  \"rate_shock_curves\": {\n",
    );
    let names = [
        "CURVE_AUD_OIS",
        "CURVE_BRL_CDI",
        "CURVE_CLP_V_CAMARA",
        "CURVE_COP_OVIBR",
        "CURVE_EUR_OIS",
        "CURVE_MXN_TIIE28D",
        "CURVE_PEN_V_USD6M",
        "CURVE_TTD_GORTT",
        "CURVE_TTD_LIBOR6M",
        "CURVE_USD_FED_FUNDS",
        "CURVE_USD_LIBOR12M",
        "CURVE_USD_LIBOR1M",
        "CURVE_USD_LIBOR3M",
        "CURVE_USD_LIBOR6M",
        "CURVE_USD_OIS",
        "CURVE_USD_OVERNIGHTSOFR",
    ];
    for (i, name) in names.iter().enumerate() {
        expected.push_str("    \"");
        expected.push_str(name);
        expected.push_str("\": [100, 100, 100, 100, 100, 100, 100, 100, 100, 100]");
        if i + 1 < names.len() {
            expected.push_str(",\n");
        } else {
            expected.push_str("\n  }\n}");
        }
    }
    assert_eq!(doc_of(&Configuration::default()), expected);
}

#[test]
fn wrong_case_optimizer_token_fails() {
    let doc = doc_of(&Configuration::default());
    let broken = doc.replacen("\"highs\"", "\"GUROBI\"", 1);
    assert!(parse(&chars(&broken)).is_err());
}

#[test]
fn lowercase_gurobi_token_round_trips() {
    let mut store = ConfigurationStore::new(Configuration::default());
    store.set_optimizer(Optimizer::Gurobi);
    let doc = doc_of(&store.config);
    assert!(doc.contains("\"optimizer\": \"gurobi\""));
    assert_eq!(parse(&chars(&doc)).unwrap(), store.config);
}

#[test]
fn unknown_environment_token_fails() {
    let doc = doc_of(&Configuration::default());
    let broken = doc.replacen("\"PRODUCTION\"", "\"Production\"", 1);
    assert!(parse(&chars(&broken)).is_err());
}

#[test]
fn short_curve_fails_parse() {
    let doc = doc_of(&Configuration::default());
    let broken = doc.replacen(
        "[100, 100, 100, 100, 100, 100, 100, 100, 100, 100]",
        "[100, 100, 100, 100, 100, 100, 100, 100, 100]",
        1,
    );
    assert!(parse(&chars(&broken)).is_err());
}

#[test]
fn long_curve_fails_parse() {
    let doc = doc_of(&Configuration::default());
    let broken = doc.replacen(
        "[100, 100, 100, 100, 100, 100, 100, 100, 100, 100]",
        "[100, 100, 100, 100, 100, 100, 100, 100, 100, 100, 100]",
        1,
    );
    assert!(parse(&chars(&broken)).is_err());
}

#[test]
fn oversized_shock_fails_parse() {
    let doc = doc_of(&Configuration::default());
    let broken = doc.replacen("[100,", "[501,", 1);
    assert!(parse(&chars(&broken)).is_err());
}

#[test]
fn negative_shocks_round_trip() {
    let mut store = ConfigurationStore::new(Configuration::default());
    store.set_curve_point(CurveId::AudOis, 0, -500);
    store.set_curve_point(CurveId::UsdFedFunds, 9, 500);
    let doc = doc_of(&store.config);
    assert!(doc.contains("[-500, 100"));
    assert_eq!(parse(&chars(&doc)).unwrap(), store.config);
}

#[test]
fn truncated_document_fails() {
    let doc = doc_of(&Configuration::default());
    let cut = &doc[..doc.len() - 1];
    assert!(parse(&chars(cut)).is_err());
}

#[test]
fn trailing_text_fails() {
    let mut doc = doc_of(&Configuration::default());
    doc.push('\n');
    assert!(parse(&chars(&doc)).is_err());
}

#[test]
fn empty_text_fails() {
    assert!(parse(&chars("")).is_err());
    assert!(parse(&chars("{}")).is_err());
}

#[test]
fn leap_day_round_trips() {
    let mut store = ConfigurationStore::new(Configuration::default());
    store.set_base_date(Date::new(2024, 2, 29).unwrap());
    let doc = doc_of(&store.config);
    assert!(doc.contains("\"base_date\": \"2024-02-29\""));
    assert_eq!(parse(&chars(&doc)).unwrap(), store.config);
}

#[test]
fn invalid_dates_fail_parse() {
    let doc = doc_of(&Configuration::default());
    let feb29 = doc.replacen("2020-01-01", "2023-02-29", 1);
    assert!(parse(&chars(&feb29)).is_err());
    let month13 = doc.replacen("2020-01-01", "2020-13-01", 1);
    assert!(parse(&chars(&month13)).is_err());
    let day0 = doc.replacen("2020-01-01", "2020-01-00", 1);
    assert!(parse(&chars(&day0)).is_err());
}

#[test]
fn percent_spellings_round_trip() {
    let mut store = ConfigurationStore::new(Configuration::default());
    store.set_lcr_upper_limit(Percent::from_hundredths(20000));
    store.set_lcr_lower_limit(Percent::from_hundredths(10050));
    store.set_lcr_average_dra_pd(Percent::from_hundredths(25));
    let doc = doc_of(&store.config);
    assert!(doc.contains("\"lcr_lower_limit\": 100.5"));
    assert!(doc.contains("\"lcr_upper_limit\": 200.0"));
    assert!(doc.contains("\"lcr_average_dra_pd\": 0.25"));
    assert_eq!(parse(&chars(&doc)).unwrap(), store.config);
}

#[test]
fn leading_zero_number_fails() {
    let doc = doc_of(&Configuration::default());
    let broken = doc.replacen("\"stage_count\": 2", "\"stage_count\": 02", 1);
    assert!(parse(&chars(&broken)).is_err());
}

#[test]
fn out_of_range_stage_count_fails() {
    let doc = doc_of(&Configuration::default());
    let broken = doc.replacen("\"stage_count\": 2", "\"stage_count\": 5", 1);
    assert!(parse(&chars(&broken)).is_err());
}

#[test]
fn lcr_limits_out_of_order_fail_parse() {
    let doc = doc_of(&Configuration::default());
    // lower 150.0 above upper 100.0 is never accepted
    let broken = doc.replacen("\"lcr_lower_limit\": 0.0", "\"lcr_lower_limit\": 150.0", 1);
    assert!(parse(&chars(&broken)).is_err());
}

#[test]
fn folder_with_spaces_round_trips() {
    let mut store = ConfigurationStore::new(Configuration::default());
    store
        .set_reports_folder(String::from("Reports 2024/Q1"))
        .expect("plain text is accepted");
    let doc = doc_of(&store.config);
    assert!(doc.contains("\"reports_folder\": \"Reports 2024/Q1\""));
    assert_eq!(parse(&chars(&doc)).unwrap(), store.config);
}

#[test]
fn reordered_keys_fail_parse() {
    // the document is canonical: keys come in one fixed order
    let doc = doc_of(&Configuration::default());
    let swapped = doc.replacen("\"stage_count\": 2,\n  \"step_size_months\": 4", "\"step_size_months\": 4,\n  \"stage_count\": 2", 1);
    assert!(parse(&chars(&swapped)).is_err());
}

#[test]
fn fully_edited_configuration_round_trips() {
    let mut s = ConfigurationStore::new(Configuration::default());
    s.set_bounded_integer(IntegerField::StageCount, 4);
    s.set_bounded_integer(IntegerField::StepSizeMonths, 1);
    s.set_bounded_integer(IntegerField::DeltaNiiHorizonMonths, 36);
    s.set_bounded_integer(IntegerField::MxnTreasuryLiquidityFloor, 2500000);
    s.set_bounded_integer(IntegerField::CopTreasuryLiquidityFloor, 99999999);
    s.set_bounded_integer(IntegerField::BrlTreasuryLiquidityFloor, 1000001);
    s.set_base_date(Date::new(1999, 12, 31).unwrap());
    s.set_start_date(Date::new(2100, 2, 28).unwrap());
    s.set_reports_folder(String::from("out/alm (v2)")).unwrap();
    s.set_environment(Environment::Testing);
    s.set_assumption_profile(AssumptionProfile::Scenario1);
    s.set_optimizer(Optimizer::Cbc);
    s.set_fwd_start_swap(IncludedOrExcluded::Excluded);
    s.set_lcr_upper_limit(Percent::from_hundredths(29999));
    s.set_lcr_lower_limit(Percent::from_hundredths(10001));
    s.set_lcr_average_dra_pd(Percent::from_hundredths(4999));
    s.set_require_annual_benchmark(true);
    s.set_must_borrow_benchmark_in_first_year(true);
    for year in 0..10 {
        s.set_curve_point(CurveId::ClpVCamara, year, (year as i32) * 100 - 500);
    }
    assert!(s.config.is_valid());
    let doc = doc_of(&s.config);
    assert!(doc.contains("\"lcr_lower_limit\": 100.01"));
    assert!(doc.contains("\"lcr_average_dra_pd\": 49.99"));
    assert!(doc.contains("\"CURVE_CLP_V_CAMARA\": [-500, -400, -300, -200, -100, 0, 100, 200, 300, 400]"));
    assert_eq!(parse(&chars(&doc)).unwrap(), s.config);
}
