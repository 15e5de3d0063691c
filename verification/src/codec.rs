//! The persisted document: a pretty-printed JSON object with one fixed key
//! set, written in one canonical spelling.
//!
//! [`serialize`] prints a well-formed configuration into that spelling, and
//! [`parse`] accepts exactly the canonical spellings of well-formed
//! configurations and returns the configuration spelled there. Together the
//! two contracts give the round-trip law: parsing a serialized
//! configuration yields it back.

use vstd::prelude::*;

use crate::choices::{
    env_token, optimizer_token, profile_token, swap_token, AssumptionProfile, Environment,
    IncludedOrExcluded, Optimizer,
};
use crate::config::{ConfigModel, Configuration};
use crate::curves::{curve_token_at, shocks_in_range, Curve, CURVE_COUNT, CURVE_HORIZON_YEARS};
use crate::date::Date;
use crate::percent::Percent;
use crate::wire::{
    canon_bool, canon_date, canon_pct, canon_points, dec_nat, emit_bool, emit_date, emit_lit,
    emit_pct, emit_points, emit_quoted, emit_u32, expect_lit, lemma_match_split,
    lemma_quoted_shape, match_at, nondigit_after, parse_bool, parse_date, parse_folder, parse_pct,
    parse_points, parse_u32, points_hyp, quoted,
};

verus! {

/// Error returned when the text is not the canonical spelling of any
/// well-formed configuration.
#[derive(Clone, Copy, Debug, PartialEq, Eq, Structural)]
pub struct ParseError;

/// The text holds no double quote (true of every wire token).
pub open spec fn no_quote(t: Seq<char>) -> bool {
    forall|i: int| 0 <= i < t.len() ==> t[i] != '"'
}

/// Two quoted quote-free texts standing at the same position are the same
/// text.
proof fn lemma_token_unique(s: Seq<char>, from: int, a: Seq<char>, b: Seq<char>)
    requires
        match_at(s, from, quoted(a)),
        match_at(s, from, quoted(b)),
        no_quote(a),
        no_quote(b),
    ensures
        a =~= b,
{
    lemma_quoted_shape(s, from, a);
    lemma_quoted_shape(s, from, b);
    if a.len() < b.len() {
        assert(s[from + 1 + a.len()] == '"');
        assert(s[from + 1 + a.len()] == b[a.len() as int]);
    } else if b.len() < a.len() {
        assert(s[from + 1 + b.len()] == '"');
        assert(s[from + 1 + b.len()] == a[b.len() as int]);
    } else {
        assert forall|t: int| 0 <= t < a.len() implies a[t] == b[t] by {
            assert(s[from + 1 + t] == a[t]);
            assert(s[from + 1 + t] == b[t]);
        }
    }
}

/// Reads the quoted wire token of an [`Environment`] standing at `from`.
fn parse_environment(s: &Vec<char>, from: usize) -> (r: Option<(Environment, usize)>)
    requires
        from <= s@.len(),
    ensures
        r is Some ==> from < (r->0).1 <= s@.len() && s@.subrange(from as int, (r->0).1 as int)
            == quoted(env_token((r->0).0)),
        forall|e: Environment|
            #[trigger] match_at(s@, from as int, quoted(env_token(e))) ==> r == Some(
                (e, (from + quoted(env_token(e)).len()) as usize),
            ),
{
    proof {
        reveal_strlit("\"PRODUCTION\"");
        reveal_strlit("\"DEVELOPMENT\"");
        reveal_strlit("\"TESTING\"");
        reveal_strlit("PRODUCTION");
        reveal_strlit("DEVELOPMENT");
        reveal_strlit("TESTING");
        assert("\"PRODUCTION\""@ =~= quoted("PRODUCTION"@));
        assert("\"DEVELOPMENT\""@ =~= quoted("DEVELOPMENT"@));
        assert("\"TESTING\""@ =~= quoted("TESTING"@));
        assert(forall|e: Environment| no_quote(#[trigger] env_token(e)));
    }
    match expect_lit(s, from, "\"PRODUCTION\"") {
        Some(j) => {
            proof {
                assert forall|e: Environment| match_at(
                    s@,
                    from as int,
                    quoted(env_token(e)),
                ) implies Some((Environment::Production, j)) == Some(
                    (e, (from + quoted(env_token(e)).len()) as usize),
                ) by {
                    lemma_token_unique(
                        s@,
                        from as int,
                        env_token(e),
                        env_token(Environment::Production),
                    );
                }
            }
            return Some((Environment::Production, j));
        },
        None => {},
    }
    match expect_lit(s, from, "\"DEVELOPMENT\"") {
        Some(j) => {
            proof {
                assert forall|e: Environment| match_at(
                    s@,
                    from as int,
                    quoted(env_token(e)),
                ) implies Some((Environment::Development, j)) == Some(
                    (e, (from + quoted(env_token(e)).len()) as usize),
                ) by {
                    lemma_token_unique(
                        s@,
                        from as int,
                        env_token(e),
                        env_token(Environment::Development),
                    );
                }
            }
            return Some((Environment::Development, j));
        },
        None => {},
    }
    match expect_lit(s, from, "\"TESTING\"") {
        Some(j) => {
            proof {
                assert forall|e: Environment| match_at(
                    s@,
                    from as int,
                    quoted(env_token(e)),
                ) implies Some((Environment::Testing, j)) == Some(
                    (e, (from + quoted(env_token(e)).len()) as usize),
                ) by {
                    lemma_token_unique(
                        s@,
                        from as int,
                        env_token(e),
                        env_token(Environment::Testing),
                    );
                }
            }
            return Some((Environment::Testing, j));
        },
        None => {},
    }
    None
}

/// Reads the quoted wire token of an [`AssumptionProfile`] standing at
/// `from`.
fn parse_profile(s: &Vec<char>, from: usize) -> (r: Option<(AssumptionProfile, usize)>)
    requires
        from <= s@.len(),
    ensures
        r is Some ==> from < (r->0).1 <= s@.len() && s@.subrange(from as int, (r->0).1 as int)
            == quoted(profile_token((r->0).0)),
        forall|p: AssumptionProfile|
            #[trigger] match_at(s@, from as int, quoted(profile_token(p))) ==> r == Some(
                (p, (from + quoted(profile_token(p)).len()) as usize),
            ),
{
    proof {
        reveal_strlit("\"BASE CASE\"");
        reveal_strlit("\"SCENARIO 1\"");
        reveal_strlit("\"SCENARIO 2\"");
        reveal_strlit("\"SCENARIO 3\"");
        reveal_strlit("BASE CASE");
        reveal_strlit("SCENARIO 1");
        reveal_strlit("SCENARIO 2");
        reveal_strlit("SCENARIO 3");
        assert("\"BASE CASE\""@ =~= quoted("BASE CASE"@));
        assert("\"SCENARIO 1\""@ =~= quoted("SCENARIO 1"@));
        assert("\"SCENARIO 2\""@ =~= quoted("SCENARIO 2"@));
        assert("\"SCENARIO 3\""@ =~= quoted("SCENARIO 3"@));
        assert(forall|p: AssumptionProfile| no_quote(#[trigger] profile_token(p)));
        assert("SCENARIO 1"@[9] == '1');
        assert("SCENARIO 2"@[9] == '2');
        assert("SCENARIO 3"@[9] == '3');
    }
    match expect_lit(s, from, "\"BASE CASE\"") {
        Some(j) => {
            proof {
                assert forall|p: AssumptionProfile| match_at(
                    s@,
                    from as int,
                    quoted(profile_token(p)),
                ) implies Some((AssumptionProfile::BaseCase, j)) == Some(
                    (p, (from + quoted(profile_token(p)).len()) as usize),
                ) by {
                    lemma_token_unique(
                        s@,
                        from as int,
                        profile_token(p),
                        profile_token(AssumptionProfile::BaseCase),
                    );
                }
            }
            return Some((AssumptionProfile::BaseCase, j));
        },
        None => {},
    }
    match expect_lit(s, from, "\"SCENARIO 1\"") {
        Some(j) => {
            proof {
                assert forall|p: AssumptionProfile| match_at(
                    s@,
                    from as int,
                    quoted(profile_token(p)),
                ) implies Some((AssumptionProfile::Scenario1, j)) == Some(
                    (p, (from + quoted(profile_token(p)).len()) as usize),
                ) by {
                    lemma_token_unique(
                        s@,
                        from as int,
                        profile_token(p),
                        profile_token(AssumptionProfile::Scenario1),
                    );
                }
            }
            return Some((AssumptionProfile::Scenario1, j));
        },
        None => {},
    }
    match expect_lit(s, from, "\"SCENARIO 2\"") {
        Some(j) => {
            proof {
                assert forall|p: AssumptionProfile| match_at(
                    s@,
                    from as int,
                    quoted(profile_token(p)),
                ) implies Some((AssumptionProfile::Scenario2, j)) == Some(
                    (p, (from + quoted(profile_token(p)).len()) as usize),
                ) by {
                    lemma_token_unique(
                        s@,
                        from as int,
                        profile_token(p),
                        profile_token(AssumptionProfile::Scenario2),
                    );
                }
            }
            return Some((AssumptionProfile::Scenario2, j));
        },
        None => {},
    }
    match expect_lit(s, from, "\"SCENARIO 3\"") {
        Some(j) => {
            proof {
                assert forall|p: AssumptionProfile| match_at(
                    s@,
                    from as int,
                    quoted(profile_token(p)),
                ) implies Some((AssumptionProfile::Scenario3, j)) == Some(
                    (p, (from + quoted(profile_token(p)).len()) as usize),
                ) by {
                    lemma_token_unique(
                        s@,
                        from as int,
                        profile_token(p),
                        profile_token(AssumptionProfile::Scenario3),
                    );
                }
            }
            return Some((AssumptionProfile::Scenario3, j));
        },
        None => {},
    }
    None
}

/// Reads the quoted wire token of an [`Optimizer`] standing at `from`.
fn parse_optimizer(s: &Vec<char>, from: usize) -> (r: Option<(Optimizer, usize)>)
    requires
        from <= s@.len(),
    ensures
        r is Some ==> from < (r->0).1 <= s@.len() && s@.subrange(from as int, (r->0).1 as int)
            == quoted(optimizer_token((r->0).0)),
        forall|o: Optimizer|
            #[trigger] match_at(s@, from as int, quoted(optimizer_token(o))) ==> r == Some(
                (o, (from + quoted(optimizer_token(o)).len()) as usize),
            ),
{
    proof {
        reveal_strlit("\"highs\"");
        reveal_strlit("\"cbc\"");
        reveal_strlit("\"gurobi\"");
        reveal_strlit("highs");
        reveal_strlit("cbc");
        reveal_strlit("gurobi");
        assert("\"highs\""@ =~= quoted("highs"@));
        assert("\"cbc\""@ =~= quoted("cbc"@));
        assert("\"gurobi\""@ =~= quoted("gurobi"@));
        assert(forall|o: Optimizer| no_quote(#[trigger] optimizer_token(o)));
    }
    match expect_lit(s, from, "\"highs\"") {
        Some(j) => {
            proof {
                assert forall|o: Optimizer| match_at(
                    s@,
                    from as int,
                    quoted(optimizer_token(o)),
                ) implies Some((Optimizer::Highs, j)) == Some(
                    (o, (from + quoted(optimizer_token(o)).len()) as usize),
                ) by {
                    lemma_token_unique(
                        s@,
                        from as int,
                        optimizer_token(o),
                        optimizer_token(Optimizer::Highs),
                    );
                }
            }
            return Some((Optimizer::Highs, j));
        },
        None => {},
    }
    match expect_lit(s, from, "\"cbc\"") {
        Some(j) => {
            proof {
                assert forall|o: Optimizer| match_at(
                    s@,
                    from as int,
                    quoted(optimizer_token(o)),
                ) implies Some((Optimizer::Cbc, j)) == Some(
                    (o, (from + quoted(optimizer_token(o)).len()) as usize),
                ) by {
                    lemma_token_unique(
                        s@,
                        from as int,
                        optimizer_token(o),
                        optimizer_token(Optimizer::Cbc),
                    );
                }
            }
            return Some((Optimizer::Cbc, j));
        },
        None => {},
    }
    match expect_lit(s, from, "\"gurobi\"") {
        Some(j) => {
            proof {
                assert forall|o: Optimizer| match_at(
                    s@,
                    from as int,
                    quoted(optimizer_token(o)),
                ) implies Some((Optimizer::Gurobi, j)) == Some(
                    (o, (from + quoted(optimizer_token(o)).len()) as usize),
                ) by {
                    lemma_token_unique(
                        s@,
                        from as int,
                        optimizer_token(o),
                        optimizer_token(Optimizer::Gurobi),
                    );
                }
            }
            return Some((Optimizer::Gurobi, j));
        },
        None => {},
    }
    None
}

/// Reads the quoted wire token of an [`IncludedOrExcluded`] standing at
/// `from`.
fn parse_swap(s: &Vec<char>, from: usize) -> (r: Option<(IncludedOrExcluded, usize)>)
    requires
        from <= s@.len(),
    ensures
        r is Some ==> from < (r->0).1 <= s@.len() && s@.subrange(from as int, (r->0).1 as int)
            == quoted(swap_token((r->0).0)),
        forall|w: IncludedOrExcluded|
            #[trigger] match_at(s@, from as int, quoted(swap_token(w))) ==> r == Some(
                (w, (from + quoted(swap_token(w)).len()) as usize),
            ),
{
    proof {
        reveal_strlit("\"included\"");
        reveal_strlit("\"excluded\"");
        reveal_strlit("included");
        reveal_strlit("excluded");
        assert("\"included\""@ =~= quoted("included"@));
        assert("\"excluded\""@ =~= quoted("excluded"@));
        assert(forall|w: IncludedOrExcluded| no_quote(#[trigger] swap_token(w)));
        assert("included"@[0] == 'i');
        assert("excluded"@[0] == 'e');
    }
    match expect_lit(s, from, "\"included\"") {
        Some(j) => {
            proof {
                assert forall|w: IncludedOrExcluded| match_at(
                    s@,
                    from as int,
                    quoted(swap_token(w)),
                ) implies Some((IncludedOrExcluded::Included, j)) == Some(
                    (w, (from + quoted(swap_token(w)).len()) as usize),
                ) by {
                    lemma_token_unique(
                        s@,
                        from as int,
                        swap_token(w),
                        swap_token(IncludedOrExcluded::Included),
                    );
                }
            }
            return Some((IncludedOrExcluded::Included, j));
        },
        None => {},
    }
    match expect_lit(s, from, "\"excluded\"") {
        Some(j) => {
            proof {
                assert forall|w: IncludedOrExcluded| match_at(
                    s@,
                    from as int,
                    quoted(swap_token(w)),
                ) implies Some((IncludedOrExcluded::Excluded, j)) == Some(
                    (w, (from + quoted(swap_token(w)).len()) as usize),
                ) by {
                    lemma_token_unique(
                        s@,
                        from as int,
                        swap_token(w),
                        swap_token(IncludedOrExcluded::Excluded),
                    );
                }
            }
            return Some((IncludedOrExcluded::Excluded, j));
        },
        None => {},
    }
    None
}

/// The run-setup field values, bundled for the codec contracts.
pub ghost struct RunFields {
    pub sc: u32,
    pub ssm: u32,
    pub bd: Date,
    pub sd: Date,
    pub rf: Seq<char>,
    pub env: Environment,
    pub ap: AssumptionProfile,
    pub op: Optimizer,
    pub fss: IncludedOrExcluded,
}

/// The run-setup fields of a configuration model.
pub open spec fn run_of(m: ConfigModel) -> RunFields {
    RunFields {
        sc: m.stage_count,
        ssm: m.step_size_months,
        bd: m.base_date,
        sd: m.start_date,
        rf: m.reports_folder,
        env: m.environment,
        ap: m.assumption_profile,
        op: m.optimizer,
        fss: m.fwd_start_swap,
    }
}

/// Spelling of the first run-setup fields: stage count, step size and the
/// two dates.
pub open spec fn canon_run_a(f: RunFields) -> Seq<char> {
    "{\n  \"stage_count\": "@ + dec_nat(f.sc as nat) + ",\n  \"step_size_months\": "@ + dec_nat(
        f.ssm as nat,
    ) + ",\n  \"base_date\": "@ + canon_date(f.bd) + ",\n  \"start_date\": "@ + canon_date(f.sd)
}

/// Spelling of the reports folder and the environment.
pub open spec fn canon_run_b1(f: RunFields) -> Seq<char> {
    ",\n  \"reports_folder\": "@ + quoted(f.rf) + ",\n  \"environment\": "@ + quoted(
        env_token(f.env),
    )
}

/// Spelling of the assumption-profile field.
pub open spec fn chunk_profile(p: AssumptionProfile) -> Seq<char> {
    ",\n  \"assumption_profile\": "@ + quoted(profile_token(p))
}

/// Spelling of the optimizer field.
pub open spec fn chunk_optimizer(o: Optimizer) -> Seq<char> {
    ",\n  \"optimizer\": "@ + quoted(optimizer_token(o))
}

/// Spelling of the forward-start-swap field.
pub open spec fn chunk_swap(w: IncludedOrExcluded) -> Seq<char> {
    ",\n  \"fwd_start_swap\": "@ + quoted(swap_token(w))
}

/// Spelling of the assumption profile, optimizer and forward-start-swap
/// choices.
pub open spec fn canon_run_b2(f: RunFields) -> Seq<char> {
    chunk_profile(f.ap) + chunk_optimizer(f.op) + chunk_swap(f.fss)
}

/// Spelling of the remaining run-setup fields: the reports folder and the
/// four enumerated choices.
pub open spec fn canon_run_b(f: RunFields) -> Seq<char> {
    canon_run_b1(f) + canon_run_b2(f)
}

/// Spelling of the run-setup fields, from the opening brace through the
/// forward-start-swap token.
pub open spec fn canon_run(f: RunFields) -> Seq<char> {
    canon_run_a(f) + canon_run_b(f)
}

/// Spelling of the three percentage liquidity fields.
pub open spec fn canon_liq_a(lo: Percent, hi: Percent, dra: Percent) -> Seq<char> {
    ",\n  \"lcr_lower_limit\": "@ + canon_pct(lo.hundredths) + ",\n  \"lcr_upper_limit\": "@
        + canon_pct(hi.hundredths) + ",\n  \"lcr_average_dra_pd\": "@ + canon_pct(dra.hundredths)
}

/// Spelling of the three treasury-liquidity-floor fields.
pub open spec fn canon_liq_b(mxn: u32, cop: u32, brl: u32) -> Seq<char> {
    ",\n  \"MXN_treasury_liquidity_floor\": "@ + dec_nat(mxn as nat)
        + ",\n  \"COP_treasury_liquidity_floor\": "@ + dec_nat(cop as nat)
        + ",\n  \"BRL_treasury_liquidity_floor\": "@ + dec_nat(brl as nat)
}

/// Spelling of the liquidity fields, from the lower LCR limit through the
/// BRL floor.
pub open spec fn canon_liq(
    lo: Percent,
    hi: Percent,
    dra: Percent,
    mxn: u32,
    cop: u32,
    brl: u32,
) -> Seq<char> {
    canon_liq_a(lo, hi, dra) + canon_liq_b(mxn, cop, brl)
}

/// Spelling of the funding-gap fields.
pub open spec fn canon_funding(rab: bool, mbb: bool) -> Seq<char> {
    ",\n  \"require_annual_benchmark\": "@ + canon_bool(rab)
        + ",\n  \"must_borrow_benchmark_in_first_year\": "@ + canon_bool(mbb)
}

/// Key of the curve at document position `k`: indentation, quoted wire
/// name, colon.
pub open spec fn entry_lit(k: int) -> Seq<char> {
    seq![' ', ' ', ' ', ' ', '"'] + curve_token_at(k) + seq!['"', ':', ' ']
}

/// What follows the curve at document position `k`: a separator, or after
/// the last curve the closing braces of the document.
pub open spec fn entry_sep(k: int) -> Seq<char> {
    if k == CURVE_COUNT - 1 {
        "\n  }\n}"@
    } else {
        ",\n"@
    }
}

/// Spelling of one curve entry.
pub open spec fn canon_entry(k: int, ps: Seq<i32>) -> Seq<char> {
    entry_lit(k) + canon_points(ps) + entry_sep(k)
}

/// Spelling of the curve entries from document position `k` on.
pub open spec fn canon_entries(cs: Seq<Seq<i32>>, k: int) -> Seq<char>
    decreases CURVE_COUNT - k,
{
    if !(0 <= k < CURVE_COUNT) {
        Seq::empty()
    } else {
        canon_entry(k, cs[k]) + canon_entries(cs, k + 1)
    }
}

/// Spelling of the curve entries before document position `k`.
pub open spec fn canon_entries_done(cs: Seq<Seq<i32>>, k: int) -> Seq<char>
    decreases k,
{
    if k <= 0 {
        Seq::empty()
    } else {
        canon_entries_done(cs, k - 1) + canon_entry(k - 1, cs[k - 1])
    }
}

/// The entries before `k` and from `k` on together spell all entries.
proof fn lemma_entries_done(cs: Seq<Seq<i32>>, k: int)
    requires
        0 <= k <= CURVE_COUNT,
    ensures
        canon_entries_done(cs, k) + canon_entries(cs, k) =~= canon_entries(cs, 0),
    decreases k,
{
    if k == 0 {
        assert(canon_entries_done(cs, 0) + canon_entries(cs, 0) =~= canon_entries(cs, 0));
    } else {
        lemma_entries_done(cs, k - 1);
        assert(canon_entries(cs, k - 1) == canon_entry(k - 1, cs[k - 1]) + canon_entries(cs, k));
        assert(canon_entries_done(cs, k) + canon_entries(cs, k) =~= canon_entries_done(cs, k - 1)
            + canon_entries(cs, k - 1));
    }
}

/// Spelling of the interest-rate-risk fields: the NII horizon and all curve
/// entries, through the closing brace of the document.
pub open spec fn canon_rate(h: u32, cs: Seq<Seq<i32>>) -> Seq<char> {
    ",\n  \"delta_nii_horizon_months\": "@ + dec_nat(h as nat)
        + ",\n  \"rate_shock_curves\": {\n"@ + canon_entries(cs, 0)
}

/// The canonical spelling of a whole configuration: the persisted document.
pub open spec fn canon_doc(m: ConfigModel) -> Seq<char> {
    canon_run(run_of(m)) + canon_liq(
        m.lcr_lower_limit,
        m.lcr_upper_limit,
        m.lcr_average_dra_pd,
        m.mxn_treasury_liquidity_floor,
        m.cop_treasury_liquidity_floor,
        m.brl_treasury_liquidity_floor,
    ) + canon_funding(m.require_annual_benchmark, m.must_borrow_benchmark_in_first_year)
        + canon_rate(m.delta_nii_horizon_months, m.rate_shock_curves)
}

/// Wire name of the curve at document position `k`, as text.
fn curve_name_at(k: usize) -> (r: &'static str)
    requires
        k < CURVE_COUNT,
    ensures
        r@ == curve_token_at(k as int),
{
    if k == 0 {
        "CURVE_AUD_OIS"
    } else if k == 1 {
        "CURVE_BRL_CDI"
    } else if k == 2 {
        "CURVE_CLP_V_CAMARA"
    } else if k == 3 {
        "CURVE_COP_OVIBR"
    } else if k == 4 {
        "CURVE_EUR_OIS"
    } else if k == 5 {
        "CURVE_MXN_TIIE28D"
    } else if k == 6 {
        "CURVE_PEN_V_USD6M"
    } else if k == 7 {
        "CURVE_TTD_GORTT"
    } else if k == 8 {
        "CURVE_TTD_LIBOR6M"
    } else if k == 9 {
        "CURVE_USD_FED_FUNDS"
    } else if k == 10 {
        "CURVE_USD_LIBOR12M"
    } else if k == 11 {
        "CURVE_USD_LIBOR1M"
    } else if k == 12 {
        "CURVE_USD_LIBOR3M"
    } else if k == 13 {
        "CURVE_USD_LIBOR6M"
    } else if k == 14 {
        "CURVE_USD_OIS"
    } else {
        "CURVE_USD_OVERNIGHTSOFR"
    }
}

/// Prints the run-setup fields.
fn emit_run(out: &mut Vec<char>, c: &Configuration)
    ensures
        final(out)@ == old(out)@ + canon_run(run_of(c@)),
{
    emit_lit(out, "{\n  \"stage_count\": ");
    emit_u32(out, c.stage_count);
    emit_lit(out, ",\n  \"step_size_months\": ");
    emit_u32(out, c.step_size_months);
    proof {
        assert(out@ =~= old(out)@ + "{\n  \"stage_count\": "@ + dec_nat(c@.stage_count as nat)
            + ",\n  \"step_size_months\": "@ + dec_nat(c@.step_size_months as nat));
    }
    emit_lit(out, ",\n  \"base_date\": ");
    emit_date(out, c.base_date);
    emit_lit(out, ",\n  \"start_date\": ");
    emit_date(out, c.start_date);
    proof {
        assert(out@ =~= old(out)@ + "{\n  \"stage_count\": "@ + dec_nat(c@.stage_count as nat)
            + ",\n  \"step_size_months\": "@ + dec_nat(c@.step_size_months as nat)
            + ",\n  \"base_date\": "@ + canon_date(c@.base_date) + ",\n  \"start_date\": "@
            + canon_date(c@.start_date));
    }
    emit_lit(out, ",\n  \"reports_folder\": ");
    emit_quoted(out, c.reports_folder.as_str());
    emit_lit(out, ",\n  \"environment\": ");
    emit_quoted(out, c.environment.wire_token());
    emit_lit(out, ",\n  \"assumption_profile\": ");
    emit_quoted(out, c.assumption_profile.wire_token());
    emit_lit(out, ",\n  \"optimizer\": ");
    emit_quoted(out, c.optimizer.wire_token());
    emit_lit(out, ",\n  \"fwd_start_swap\": ");
    emit_quoted(out, c.fwd_start_swap.wire_token());
    proof {
        assert(out@ =~= old(out)@ + canon_run(run_of(c@)));
    }
}

/// Prints the liquidity fields.
fn emit_liq(out: &mut Vec<char>, c: &Configuration)
    ensures
        final(out)@ == old(out)@ + canon_liq(
            c@.lcr_lower_limit,
            c@.lcr_upper_limit,
            c@.lcr_average_dra_pd,
            c@.mxn_treasury_liquidity_floor,
            c@.cop_treasury_liquidity_floor,
            c@.brl_treasury_liquidity_floor,
        ),
{
    emit_lit(out, ",\n  \"lcr_lower_limit\": ");
    emit_pct(out, c.lcr_lower_limit);
    emit_lit(out, ",\n  \"lcr_upper_limit\": ");
    emit_pct(out, c.lcr_upper_limit);
    emit_lit(out, ",\n  \"lcr_average_dra_pd\": ");
    emit_pct(out, c.lcr_average_dra_pd);
    proof {
        assert(out@ =~= old(out)@ + ",\n  \"lcr_lower_limit\": "@ + canon_pct(
            c@.lcr_lower_limit.hundredths,
        ) + ",\n  \"lcr_upper_limit\": "@ + canon_pct(c@.lcr_upper_limit.hundredths)
            + ",\n  \"lcr_average_dra_pd\": "@ + canon_pct(c@.lcr_average_dra_pd.hundredths));
    }
    emit_lit(out, ",\n  \"MXN_treasury_liquidity_floor\": ");
    emit_u32(out, c.mxn_treasury_liquidity_floor);
    emit_lit(out, ",\n  \"COP_treasury_liquidity_floor\": ");
    emit_u32(out, c.cop_treasury_liquidity_floor);
    emit_lit(out, ",\n  \"BRL_treasury_liquidity_floor\": ");
    emit_u32(out, c.brl_treasury_liquidity_floor);
    proof {
        assert(out@ =~= old(out)@ + canon_liq(
            c@.lcr_lower_limit,
            c@.lcr_upper_limit,
            c@.lcr_average_dra_pd,
            c@.mxn_treasury_liquidity_floor,
            c@.cop_treasury_liquidity_floor,
            c@.brl_treasury_liquidity_floor,
        ));
    }
}

/// Prints the funding-gap fields.
fn emit_funding(out: &mut Vec<char>, c: &Configuration)
    ensures
        final(out)@ == old(out)@ + canon_funding(
            c@.require_annual_benchmark,
            c@.must_borrow_benchmark_in_first_year,
        ),
{
    emit_lit(out, ",\n  \"require_annual_benchmark\": ");
    emit_bool(out, c.require_annual_benchmark);
    emit_lit(out, ",\n  \"must_borrow_benchmark_in_first_year\": ");
    emit_bool(out, c.must_borrow_benchmark_in_first_year);
    proof {
        assert(out@ =~= old(out)@ + canon_funding(
            c@.require_annual_benchmark,
            c@.must_borrow_benchmark_in_first_year,
        ));
    }
}

/// Prints the interest-rate-risk fields and the document tail.
fn emit_rate(out: &mut Vec<char>, c: &Configuration)
    requires
        c.valid(),
    ensures
        final(out)@ == old(out)@ + canon_rate(c@.delta_nii_horizon_months, c@.rate_shock_curves),
{
    emit_lit(out, ",\n  \"delta_nii_horizon_months\": ");
    emit_u32(out, c.delta_nii_horizon_months);
    emit_lit(out, ",\n  \"rate_shock_curves\": {\n");
    let ghost header = ",\n  \"delta_nii_horizon_months\": "@ + dec_nat(
        c@.delta_nii_horizon_months as nat,
    ) + ",\n  \"rate_shock_curves\": {\n"@;
    proof {
        assert(out@ =~= old(out)@ + header);
    }
    let mut k: usize = 0;
    while k < CURVE_COUNT
        invariant
            k <= CURVE_COUNT,
            c.valid(),
            out@ == old(out)@ + header + canon_entries_done(c@.rate_shock_curves, k as int),
        decreases CURVE_COUNT - k,
    {
        out.push(' ');
        out.push(' ');
        out.push(' ');
        out.push(' ');
        out.push('"');
        emit_lit(out, curve_name_at(k));
        out.push('"');
        out.push(':');
        out.push(' ');
        proof {
            assert(out@ =~= old(out)@ + header + canon_entries_done(c@.rate_shock_curves, k as int)
                + entry_lit(k as int));
        }
        let curve = &c.rate_shock_curves[k];
        proof {
            assert(curve@ == c@.rate_shock_curves[k as int]);
        }
        emit_points(out, &curve.points);
        if k < CURVE_COUNT - 1 {
            emit_lit(out, ",\n");
        } else {
            emit_lit(out, "\n  }\n}");
        }
        proof {
            assert(out@ =~= old(out)@ + header + canon_entries_done(
                c@.rate_shock_curves,
                k as int + 1,
            ));
        }
        k = k + 1;
    }
    proof {
        lemma_entries_done(c@.rate_shock_curves, CURVE_COUNT as int);
        assert(canon_entries(c@.rate_shock_curves, CURVE_COUNT as int) =~= Seq::<char>::empty());
        assert(out@ =~= old(out)@ + canon_rate(c@.delta_nii_horizon_months, c@.rate_shock_curves));
    }
}

/// Prints a well-formed configuration as the canonical persisted document.
pub fn serialize(c: &Configuration) -> (r: Vec<char>)
    requires
        c.valid(),
    ensures
        r@ == canon_doc(c@),
{
    let mut out: Vec<char> = Vec::new();
    emit_run(&mut out, c);
    emit_liq(&mut out, c);
    emit_funding(&mut out, c);
    emit_rate(&mut out, c);
    proof {
        assert(out@ =~= canon_doc(c@));
    }
    out
}

/// The completeness hypothesis of [`parse_run_a`].
pub open spec fn run_hyp_a(s: Seq<char>, from: int, f: RunFields) -> bool {
    &&& 1 <= f.sc <= 4
    &&& 1 <= f.ssm <= 6
    &&& f.bd.valid()
    &&& f.sd.valid()
    &&& match_at(s, from, canon_run_a(f))
}

/// The completeness hypothesis of [`parse_run_b1`].
pub open spec fn run_hyp_b1(s: Seq<char>, from: int, f: RunFields) -> bool {
    &&& f.rf.len() >= 1
    &&& crate::config::plain_text(f.rf)
    &&& match_at(s, from, canon_run_b1(f))
}

/// The completeness hypothesis of [`parse_run_b2`].
pub open spec fn run_hyp_b2(s: Seq<char>, from: int, f: RunFields) -> bool {
    match_at(s, from, canon_run_b2(f))
}

/// The completeness hypothesis of [`parse_run_b`].
pub open spec fn run_hyp_b(s: Seq<char>, from: int, f: RunFields) -> bool {
    &&& f.rf.len() >= 1
    &&& crate::config::plain_text(f.rf)
    &&& match_at(s, from, canon_run_b(f))
}

/// The completeness hypothesis of [`parse_run`]: the run-setup spelling of
/// well-formed field values stands at `from`.
pub open spec fn run_hyp(s: Seq<char>, from: int, f: RunFields) -> bool {
    &&& 1 <= f.sc <= 4
    &&& 1 <= f.ssm <= 6
    &&& f.bd.valid()
    &&& f.sd.valid()
    &&& f.rf.len() >= 1
    &&& crate::config::plain_text(f.rf)
    &&& match_at(s, from, canon_run(f))
}

/// Where each piece of the first run-setup spelling stands in the text.
#[verifier::rlimit(60)]
#[verifier::spinoff_prover]
proof fn lemma_run_shape_a(s: Seq<char>, from: int, f: RunFields)
    requires
        match_at(s, from, canon_run_a(f)),
    ensures
        ({
            let p1 = from + "{\n  \"stage_count\": "@.len();
            let p2 = p1 + dec_nat(f.sc as nat).len();
            let p3 = p2 + ",\n  \"step_size_months\": "@.len();
            let p4 = p3 + dec_nat(f.ssm as nat).len();
            let p5 = p4 + ",\n  \"base_date\": "@.len();
            let p6 = p5 + canon_date(f.bd).len();
            let p7 = p6 + ",\n  \"start_date\": "@.len();
            &&& match_at(s, from, "{\n  \"stage_count\": "@)
            &&& match_at(s, p1, dec_nat(f.sc as nat))
            &&& nondigit_after(s, p2)
            &&& match_at(s, p2, ",\n  \"step_size_months\": "@)
            &&& match_at(s, p3, dec_nat(f.ssm as nat))
            &&& nondigit_after(s, p4)
            &&& match_at(s, p4, ",\n  \"base_date\": "@)
            &&& match_at(s, p5, canon_date(f.bd))
            &&& match_at(s, p6, ",\n  \"start_date\": "@)
            &&& match_at(s, p7, canon_date(f.sd))
            &&& p7 + canon_date(f.sd).len() == from + canon_run_a(f).len()
        }),
{
    let a1 = "{\n  \"stage_count\": "@;
    let a2 = dec_nat(f.sc as nat);
    let a3 = ",\n  \"step_size_months\": "@;
    let a4 = dec_nat(f.ssm as nat);
    let a5 = ",\n  \"base_date\": "@;
    let a6 = canon_date(f.bd);
    let a7 = ",\n  \"start_date\": "@;
    let a8 = canon_date(f.sd);
    let r8 = a8;
    let r7 = a7 + r8;
    let r6 = a6 + r7;
    let r5 = a5 + r6;
    let r4 = a4 + r5;
    let r3 = a3 + r4;
    let r2 = a2 + r3;
    let r1 = a1 + r2;
    assert(canon_run_a(f) =~= r1);
    let p1 = from + a1.len();
    lemma_match_split(s, from, a1, r2);
    lemma_match_split(s, p1, a2, r3);
    let p2 = p1 + a2.len();
    lemma_match_split(s, p2, a3, r4);
    let p3 = p2 + a3.len();
    lemma_match_split(s, p3, a4, r5);
    let p4 = p3 + a4.len();
    lemma_match_split(s, p4, a5, r6);
    let p5 = p4 + a5.len();
    lemma_match_split(s, p5, a6, r7);
    let p6 = p5 + a6.len();
    lemma_match_split(s, p6, a7, r8);
    // the literal after each number starts with a comma, so the number is
    // followed by a non-digit
    reveal_strlit(",\n  \"step_size_months\": ");
    reveal_strlit(",\n  \"base_date\": ");
    assert(s[p2] == a3[0]) by {
        assert(s.subrange(p2, p2 + a3.len())[0] == s[p2]);
    }
    assert(s[p4] == a5[0]) by {
        assert(s.subrange(p4, p4 + a5.len())[0] == s[p4]);
    }
}

/// Where the reports folder and environment pieces stand in the text.
#[verifier::rlimit(60)]
#[verifier::spinoff_prover]
proof fn lemma_run_shape_b1(s: Seq<char>, from: int, f: RunFields)
    requires
        match_at(s, from, canon_run_b1(f)),
    ensures
        ({
            let p9 = from + ",\n  \"reports_folder\": "@.len();
            let p10 = p9 + quoted(f.rf).len();
            let p11 = p10 + ",\n  \"environment\": "@.len();
            &&& match_at(s, from, ",\n  \"reports_folder\": "@)
            &&& match_at(s, p9, quoted(f.rf))
            &&& match_at(s, p10, ",\n  \"environment\": "@)
            &&& match_at(s, p11, quoted(env_token(f.env)))
            &&& p11 + quoted(env_token(f.env)).len() == from + canon_run_b1(f).len()
        }),
{
    let a9 = ",\n  \"reports_folder\": "@;
    let a10 = quoted(f.rf);
    let a11 = ",\n  \"environment\": "@;
    let a12 = quoted(env_token(f.env));
    let r12 = a12;
    let r11 = a11 + r12;
    let r10 = a10 + r11;
    let r9 = a9 + r10;
    assert(canon_run_b1(f) =~= r9);
    let p9 = from + a9.len();
    lemma_match_split(s, from, a9, r10);
    lemma_match_split(s, p9, a10, r11);
    let p10 = p9 + a10.len();
    lemma_match_split(s, p10, a11, r12);
}

/// Reads stage count, step size and the dates into `c`.
#[verifier::rlimit(100)]
#[verifier::spinoff_prover]
fn parse_run_a(s: &Vec<char>, from: usize, c: &mut Configuration) -> (r: Option<usize>)
    requires
        from <= s@.len(),
    ensures
        r is Some ==> ({
            &&& from <= r->0 <= s@.len()
            &&& s@.subrange(from as int, r->0 as int) == canon_run_a(run_of(final(c)@))
            &&& 1 <= final(c)@.stage_count <= 4
            &&& 1 <= final(c)@.step_size_months <= 6
            &&& final(c)@.base_date.valid()
            &&& final(c)@.start_date.valid()
            &&& final(c)@ == (ConfigModel {
                stage_count: final(c)@.stage_count,
                step_size_months: final(c)@.step_size_months,
                base_date: final(c)@.base_date,
                start_date: final(c)@.start_date,
                ..old(c)@
            })
        }),
        forall|f: RunFields|
            #[trigger] run_hyp_a(s@, from as int, f) ==> (r is Some && final(c)@.stage_count == f.sc
                && final(c)@.step_size_months == f.ssm && final(c)@.base_date == f.bd
                && final(c)@.start_date == f.sd && r->0 == from + canon_run_a(f).len()),
{
    let j0 = match expect_lit(s, from, "{\n  \"stage_count\": ") {
        Some(j) => j,
        None => {
            proof {
                assert forall|f: RunFields| !run_hyp_a(s@, from as int, f) by {
                    if run_hyp_a(s@, from as int, f) {
                        lemma_run_shape_a(s@, from as int, f);
                    }
                }
            }
            return None;
        },
    };
    let (sc, j1) = match parse_u32(s, j0) {
        Some(p) => p,
        None => {
            proof {
                assert forall|f: RunFields| !run_hyp_a(s@, from as int, f) by {
                    if run_hyp_a(s@, from as int, f) {
                        lemma_run_shape_a(s@, from as int, f);
                    }
                }
            }
            return None;
        },
    };
    if sc < 1 || sc > 4 {
            proof {
                assert forall|f: RunFields| !run_hyp_a(s@, from as int, f) by {
                    if run_hyp_a(s@, from as int, f) {
                        lemma_run_shape_a(s@, from as int, f);
                    }
                }
            }
            return None;
    }
    let j2 = match expect_lit(s, j1, ",\n  \"step_size_months\": ") {
        Some(j) => j,
        None => {
            proof {
                assert forall|f: RunFields| !run_hyp_a(s@, from as int, f) by {
                    if run_hyp_a(s@, from as int, f) {
                        lemma_run_shape_a(s@, from as int, f);
                    }
                }
            }
            return None;
        },
    };
    let (ssm, j3) = match parse_u32(s, j2) {
        Some(p) => p,
        None => {
            proof {
                assert forall|f: RunFields| !run_hyp_a(s@, from as int, f) by {
                    if run_hyp_a(s@, from as int, f) {
                        lemma_run_shape_a(s@, from as int, f);
                    }
                }
            }
            return None;
        },
    };
    if ssm < 1 || ssm > 6 {
            proof {
                assert forall|f: RunFields| !run_hyp_a(s@, from as int, f) by {
                    if run_hyp_a(s@, from as int, f) {
                        lemma_run_shape_a(s@, from as int, f);
                    }
                }
            }
            return None;
    }
    let j4 = match expect_lit(s, j3, ",\n  \"base_date\": ") {
        Some(j) => j,
        None => {
            proof {
                assert forall|f: RunFields| !run_hyp_a(s@, from as int, f) by {
                    if run_hyp_a(s@, from as int, f) {
                        lemma_run_shape_a(s@, from as int, f);
                    }
                }
            }
            return None;
        },
    };
    let (bd, j5) = match parse_date(s, j4) {
        Some(p) => p,
        None => {
            proof {
                assert forall|f: RunFields| !run_hyp_a(s@, from as int, f) by {
                    if run_hyp_a(s@, from as int, f) {
                        lemma_run_shape_a(s@, from as int, f);
                    }
                }
            }
            return None;
        },
    };
    let j6 = match expect_lit(s, j5, ",\n  \"start_date\": ") {
        Some(j) => j,
        None => {
            proof {
                assert forall|f: RunFields| !run_hyp_a(s@, from as int, f) by {
                    if run_hyp_a(s@, from as int, f) {
                        lemma_run_shape_a(s@, from as int, f);
                    }
                }
            }
            return None;
        },
    };
    let (sd, j7) = match parse_date(s, j6) {
        Some(p) => p,
        None => {
            proof {
                assert forall|f: RunFields| !run_hyp_a(s@, from as int, f) by {
                    if run_hyp_a(s@, from as int, f) {
                        lemma_run_shape_a(s@, from as int, f);
                    }
                }
            }
            return None;
        },
    };
    c.stage_count = sc;
    c.step_size_months = ssm;
    c.base_date = bd;
    c.start_date = sd;
    proof {
        let a1 = "{\n  \"stage_count\": "@;
        let a2 = dec_nat(sc as nat);
        let a3 = ",\n  \"step_size_months\": "@;
        let a4 = dec_nat(ssm as nat);
        let a5 = ",\n  \"base_date\": "@;
        let a6 = canon_date(bd);
        let a7 = ",\n  \"start_date\": "@;
        let a8 = canon_date(sd);
        crate::wire::lemma_match_join(s@, from as int, a1, a2);
        crate::wire::lemma_match_join(s@, from as int, a1 + a2, a3);
        crate::wire::lemma_match_join(s@, from as int, a1 + a2 + a3, a4);
        crate::wire::lemma_match_join(s@, from as int, a1 + a2 + a3 + a4, a5);
        crate::wire::lemma_match_join(s@, from as int, a1 + a2 + a3 + a4 + a5, a6);
        crate::wire::lemma_match_join(s@, from as int, a1 + a2 + a3 + a4 + a5 + a6, a7);
        crate::wire::lemma_match_join(s@, from as int, a1 + a2 + a3 + a4 + a5 + a6 + a7, a8);
        assert(s@.subrange(from as int, j7 as int) == canon_run_a(run_of(c@)));
        assert forall|f: RunFields| run_hyp_a(s@, from as int, f) implies (c@.stage_count == f.sc
            && c@.step_size_months == f.ssm && c@.base_date == f.bd && c@.start_date == f.sd && j7
            == from + canon_run_a(f).len()) by {
            lemma_run_shape_a(s@, from as int, f);
        }
    }
    Some(j7)
}

/// Reads the reports folder and the environment into `c`.
#[verifier::rlimit(60)]
#[verifier::spinoff_prover]
fn parse_run_b1(s: &Vec<char>, from: usize, c: &mut Configuration) -> (r: Option<usize>)
    requires
        from <= s@.len(),
    ensures
        r is Some ==> ({
            &&& from <= r->0 <= s@.len()
            &&& s@.subrange(from as int, r->0 as int) == canon_run_b1(run_of(final(c)@))
            &&& final(c)@.reports_folder.len() >= 1
            &&& crate::config::plain_text(final(c)@.reports_folder)
            &&& final(c)@ == (ConfigModel {
                reports_folder: final(c)@.reports_folder,
                environment: final(c)@.environment,
                ..old(c)@
            })
        }),
        forall|f: RunFields|
            #[trigger] run_hyp_b1(s@, from as int, f) ==> (r is Some && final(c)@.reports_folder
                == f.rf && final(c)@.environment == f.env && r->0 == from + canon_run_b1(f).len()),
{
    let j8 = match expect_lit(s, from, ",\n  \"reports_folder\": ") {
        Some(j) => j,
        None => {
            proof {
                assert forall|f: RunFields| !run_hyp_b1(s@, from as int, f) by {
                    if run_hyp_b1(s@, from as int, f) {
                        lemma_run_shape_b1(s@, from as int, f);
                    }
                }
            }
            return None;
        },
    };
    let (rf, j9) = match parse_folder(s, j8) {
        Some(p) => p,
        None => {
            proof {
                assert forall|f: RunFields| !run_hyp_b1(s@, from as int, f) by {
                    if run_hyp_b1(s@, from as int, f) {
                        lemma_run_shape_b1(s@, from as int, f);
                    }
                }
            }
            return None;
        },
    };
    let j10 = match expect_lit(s, j9, ",\n  \"environment\": ") {
        Some(j) => j,
        None => {
            proof {
                assert forall|f: RunFields| !run_hyp_b1(s@, from as int, f) by {
                    if run_hyp_b1(s@, from as int, f) {
                        lemma_run_shape_b1(s@, from as int, f);
                    }
                }
            }
            return None;
        },
    };
    let (env, j11) = match parse_environment(s, j10) {
        Some(p) => p,
        None => {
            proof {
                assert forall|f: RunFields| !run_hyp_b1(s@, from as int, f) by {
                    if run_hyp_b1(s@, from as int, f) {
                        lemma_run_shape_b1(s@, from as int, f);
                    }
                }
            }
            return None;
        },
    };
    c.reports_folder = rf;
    c.environment = env;
    proof {
        let a9 = ",\n  \"reports_folder\": "@;
        let a10 = quoted(c@.reports_folder);
        let a11 = ",\n  \"environment\": "@;
        let a12 = quoted(env_token(env));
        crate::wire::lemma_match_join(s@, from as int, a9, a10);
        crate::wire::lemma_match_join(s@, from as int, a9 + a10, a11);
        crate::wire::lemma_match_join(s@, from as int, a9 + a10 + a11, a12);
        assert(s@.subrange(from as int, j11 as int) == canon_run_b1(run_of(c@)));
        assert forall|f: RunFields| run_hyp_b1(s@, from as int, f) implies (c@.reports_folder
            == f.rf && c@.environment == f.env && j11 == from + canon_run_b1(f).len()) by {
            lemma_run_shape_b1(s@, from as int, f);
        }
    }
    Some(j11)
}

/// Reads the assumption-profile field standing at `from`.
fn parse_chunk_profile(s: &Vec<char>, from: usize) -> (r: Option<(AssumptionProfile, usize)>)
    requires
        from <= s@.len(),
    ensures
        r is Some ==> from <= (r->0).1 <= s@.len() && s@.subrange(from as int, (r->0).1 as int)
            == chunk_profile((r->0).0),
        forall|p: AssumptionProfile|
            #[trigger] match_at(s@, from as int, chunk_profile(p)) ==> r == Some(
                (p, (from + chunk_profile(p).len()) as usize),
            ),
{
    proof {
        assert forall|p: AssumptionProfile| match_at(s@, from as int, chunk_profile(p)) implies (
        match_at(s@, from as int, ",\n  \"assumption_profile\": "@) && match_at(
            s@,
            from + ",\n  \"assumption_profile\": "@.len(),
            quoted(profile_token(p)),
        )) by {
            lemma_match_split(s@, from as int, ",\n  \"assumption_profile\": "@, quoted(profile_token(p)));
        }
    }
    let j0 = match expect_lit(s, from, ",\n  \"assumption_profile\": ") {
        Some(j) => j,
        None => {
            return None;
        },
    };
    let (v, j1) = match parse_profile(s, j0) {
        Some(p) => p,
        None => {
            return None;
        },
    };
    proof {
        crate::wire::lemma_match_join(
            s@,
            from as int,
            ",\n  \"assumption_profile\": "@,
            quoted(profile_token(v)),
        );
    }
    Some((v, j1))
}

/// Reads the optimizer field standing at `from`.
fn parse_chunk_optimizer(s: &Vec<char>, from: usize) -> (r: Option<(Optimizer, usize)>)
    requires
        from <= s@.len(),
    ensures
        r is Some ==> from <= (r->0).1 <= s@.len() && s@.subrange(from as int, (r->0).1 as int)
            == chunk_optimizer((r->0).0),
        forall|o: Optimizer|
            #[trigger] match_at(s@, from as int, chunk_optimizer(o)) ==> r == Some(
                (o, (from + chunk_optimizer(o).len()) as usize),
            ),
{
    proof {
        assert forall|o: Optimizer| match_at(s@, from as int, chunk_optimizer(o)) implies (match_at(
            s@,
            from as int,
            ",\n  \"optimizer\": "@,
        ) && match_at(
            s@,
            from + ",\n  \"optimizer\": "@.len(),
            quoted(optimizer_token(o)),
        )) by {
            lemma_match_split(s@, from as int, ",\n  \"optimizer\": "@, quoted(optimizer_token(o)));
        }
    }
    let j0 = match expect_lit(s, from, ",\n  \"optimizer\": ") {
        Some(j) => j,
        None => {
            return None;
        },
    };
    let (v, j1) = match parse_optimizer(s, j0) {
        Some(p) => p,
        None => {
            return None;
        },
    };
    proof {
        crate::wire::lemma_match_join(
            s@,
            from as int,
            ",\n  \"optimizer\": "@,
            quoted(optimizer_token(v)),
        );
    }
    Some((v, j1))
}

/// Reads the forward-start-swap field standing at `from`.
fn parse_chunk_swap(s: &Vec<char>, from: usize) -> (r: Option<(IncludedOrExcluded, usize)>)
    requires
        from <= s@.len(),
    ensures
        r is Some ==> from <= (r->0).1 <= s@.len() && s@.subrange(from as int, (r->0).1 as int)
            == chunk_swap((r->0).0),
        forall|w: IncludedOrExcluded|
            #[trigger] match_at(s@, from as int, chunk_swap(w)) ==> r == Some(
                (w, (from + chunk_swap(w).len()) as usize),
            ),
{
    proof {
        assert forall|w: IncludedOrExcluded| match_at(s@, from as int, chunk_swap(w)) implies (
        match_at(s@, from as int, ",\n  \"fwd_start_swap\": "@) && match_at(
            s@,
            from + ",\n  \"fwd_start_swap\": "@.len(),
            quoted(swap_token(w)),
        )) by {
            lemma_match_split(s@, from as int, ",\n  \"fwd_start_swap\": "@, quoted(swap_token(w)));
        }
    }
    let j0 = match expect_lit(s, from, ",\n  \"fwd_start_swap\": ") {
        Some(j) => j,
        None => {
            return None;
        },
    };
    let (v, j1) = match parse_swap(s, j0) {
        Some(p) => p,
        None => {
            return None;
        },
    };
    proof {
        crate::wire::lemma_match_join(
            s@,
            from as int,
            ",\n  \"fwd_start_swap\": "@,
            quoted(swap_token(v)),
        );
    }
    Some((v, j1))
}

/// Reads the assumption profile, optimizer and forward-start-swap choices
/// into `c`.
#[verifier::rlimit(60)]
#[verifier::spinoff_prover]
fn parse_run_b2(s: &Vec<char>, from: usize, c: &mut Configuration) -> (r: Option<usize>)
    requires
        from <= s@.len(),
    ensures
        r is Some ==> ({
            &&& from <= r->0 <= s@.len()
            &&& s@.subrange(from as int, r->0 as int) == canon_run_b2(run_of(final(c)@))
            &&& final(c)@ == (ConfigModel {
                assumption_profile: final(c)@.assumption_profile,
                optimizer: final(c)@.optimizer,
                fwd_start_swap: final(c)@.fwd_start_swap,
                ..old(c)@
            })
        }),
        forall|f: RunFields|
            #[trigger] run_hyp_b2(s@, from as int, f) ==> (r is Some
                && final(c)@.assumption_profile == f.ap && final(c)@.optimizer == f.op
                && final(c)@.fwd_start_swap == f.fss && r->0 == from + canon_run_b2(f).len()),
{
    proof {
        assert forall|f: RunFields| run_hyp_b2(s@, from as int, f) implies (match_at(
            s@,
            from as int,
            chunk_profile(f.ap),
        ) && match_at(s@, from + chunk_profile(f.ap).len(), chunk_optimizer(f.op)) && match_at(
            s@,
            from + chunk_profile(f.ap).len() + chunk_optimizer(f.op).len(),
            chunk_swap(f.fss),
        )) by {
            assert(canon_run_b2(f) =~= chunk_profile(f.ap) + (chunk_optimizer(f.op) + chunk_swap(
                f.fss,
            )));
            lemma_match_split(
                s@,
                from as int,
                chunk_profile(f.ap),
                chunk_optimizer(f.op) + chunk_swap(f.fss),
            );
            lemma_match_split(
                s@,
                from + chunk_profile(f.ap).len(),
                chunk_optimizer(f.op),
                chunk_swap(f.fss),
            );
        }
    }
    let (ap, j13) = match parse_chunk_profile(s, from) {
        Some(p) => p,
        None => {
            return None;
        },
    };
    let (op, j15) = match parse_chunk_optimizer(s, j13) {
        Some(p) => p,
        None => {
            return None;
        },
    };
    let (fss, j17) = match parse_chunk_swap(s, j15) {
        Some(p) => p,
        None => {
            return None;
        },
    };
    c.assumption_profile = ap;
    c.optimizer = op;
    c.fwd_start_swap = fss;
    proof {
        crate::wire::lemma_match_join(s@, from as int, chunk_profile(ap), chunk_optimizer(op));
        crate::wire::lemma_match_join(
            s@,
            from as int,
            chunk_profile(ap) + chunk_optimizer(op),
            chunk_swap(fss),
        );
        assert(s@.subrange(from as int, j17 as int) == canon_run_b2(run_of(c@)));
    }
    Some(j17)
}

/// Reads the reports folder and the enumerated choices into `c`.
#[verifier::rlimit(60)]
#[verifier::spinoff_prover]
fn parse_run_b(s: &Vec<char>, from: usize, c: &mut Configuration) -> (r: Option<usize>)
    requires
        from <= s@.len(),
    ensures
        r is Some ==> ({
            &&& from <= r->0 <= s@.len()
            &&& s@.subrange(from as int, r->0 as int) == canon_run_b(run_of(final(c)@))
            &&& final(c)@.reports_folder.len() >= 1
            &&& crate::config::plain_text(final(c)@.reports_folder)
            &&& final(c)@ == (ConfigModel {
                reports_folder: final(c)@.reports_folder,
                environment: final(c)@.environment,
                assumption_profile: final(c)@.assumption_profile,
                optimizer: final(c)@.optimizer,
                fwd_start_swap: final(c)@.fwd_start_swap,
                ..old(c)@
            })
        }),
        forall|f: RunFields|
            #[trigger] run_hyp_b(s@, from as int, f) ==> (r is Some && final(c)@.reports_folder
                == f.rf && final(c)@.environment == f.env && final(c)@.assumption_profile == f.ap
                && final(c)@.optimizer == f.op && final(c)@.fwd_start_swap == f.fss && r->0 == from
                + canon_run_b(f).len()),
{
    let jb1 = match parse_run_b1(s, from, c) {
        Some(j) => j,
        None => {
            proof {
                assert forall|f: RunFields| !run_hyp_b(s@, from as int, f) by {
                    if run_hyp_b(s@, from as int, f) {
                        lemma_match_split(s@, from as int, canon_run_b1(f), canon_run_b2(f));
                        assert(run_hyp_b1(s@, from as int, f));
                    }
                }
            }
            return None;
        },
    };
    let jb2 = match parse_run_b2(s, jb1, c) {
        Some(j) => j,
        None => {
            proof {
                assert forall|f: RunFields| !run_hyp_b(s@, from as int, f) by {
                    if run_hyp_b(s@, from as int, f) {
                        lemma_match_split(s@, from as int, canon_run_b1(f), canon_run_b2(f));
                        assert(run_hyp_b1(s@, from as int, f));
                        assert(run_hyp_b2(s@, from + canon_run_b1(f).len(), f));
                    }
                }
            }
            return None;
        },
    };
    proof {
        crate::wire::lemma_match_join(
            s@,
            from as int,
            canon_run_b1(run_of(c@)),
            canon_run_b2(run_of(c@)),
        );
        assert(s@.subrange(from as int, jb2 as int) == canon_run_b(run_of(c@)));
        assert forall|f: RunFields| run_hyp_b(s@, from as int, f) implies (c@.reports_folder == f.rf
            && c@.environment == f.env && c@.assumption_profile == f.ap && c@.optimizer == f.op
            && c@.fwd_start_swap == f.fss && jb2 == from + canon_run_b(f).len()) by {
            lemma_match_split(s@, from as int, canon_run_b1(f), canon_run_b2(f));
            assert(run_hyp_b1(s@, from as int, f));
            assert(run_hyp_b2(s@, from + canon_run_b1(f).len(), f));
        }
    }
    Some(jb2)
}

/// Reads the run-setup section into `c`.
#[verifier::rlimit(60)]
#[verifier::spinoff_prover]
fn parse_run(s: &Vec<char>, from: usize, c: &mut Configuration) -> (r: Option<usize>)
    requires
        from <= s@.len(),
    ensures
        r is Some ==> ({
            &&& from <= r->0 <= s@.len()
            &&& s@.subrange(from as int, r->0 as int) == canon_run(run_of(final(c)@))
            &&& 1 <= final(c)@.stage_count <= 4
            &&& 1 <= final(c)@.step_size_months <= 6
            &&& final(c)@.base_date.valid()
            &&& final(c)@.start_date.valid()
            &&& final(c)@.reports_folder.len() >= 1
            &&& crate::config::plain_text(final(c)@.reports_folder)
            &&& final(c)@ == (ConfigModel {
                stage_count: final(c)@.stage_count,
                step_size_months: final(c)@.step_size_months,
                base_date: final(c)@.base_date,
                start_date: final(c)@.start_date,
                reports_folder: final(c)@.reports_folder,
                environment: final(c)@.environment,
                assumption_profile: final(c)@.assumption_profile,
                optimizer: final(c)@.optimizer,
                fwd_start_swap: final(c)@.fwd_start_swap,
                ..old(c)@
            })
        }),
        forall|f: RunFields|
            #[trigger] run_hyp(s@, from as int, f) ==> (r is Some && run_of(final(c)@) == f && r->0
                == from + canon_run(f).len()),
{
    let ja = match parse_run_a(s, from, c) {
        Some(j) => j,
        None => {
            proof {
                assert forall|f: RunFields| !run_hyp(s@, from as int, f) by {
                    if run_hyp(s@, from as int, f) {
                        lemma_match_split(s@, from as int, canon_run_a(f), canon_run_b(f));
                        assert(run_hyp_a(s@, from as int, f));
                    }
                }
            }
            return None;
        },
    };
    let jb = match parse_run_b(s, ja, c) {
        Some(j) => j,
        None => {
            proof {
                assert forall|f: RunFields| !run_hyp(s@, from as int, f) by {
                    if run_hyp(s@, from as int, f) {
                        lemma_match_split(s@, from as int, canon_run_a(f), canon_run_b(f));
                        assert(run_hyp_a(s@, from as int, f));
                        assert(run_hyp_b(s@, from + canon_run_a(f).len(), f));
                    }
                }
            }
            return None;
        },
    };
    proof {
        crate::wire::lemma_match_join(
            s@,
            from as int,
            canon_run_a(run_of(c@)),
            canon_run_b(run_of(c@)),
        );
        assert(s@.subrange(from as int, jb as int) == canon_run(run_of(c@)));
        assert forall|f: RunFields| run_hyp(s@, from as int, f) implies (run_of(c@) == f && jb
            == from + canon_run(f).len()) by {
            lemma_match_split(s@, from as int, canon_run_a(f), canon_run_b(f));
            assert(run_hyp_a(s@, from as int, f));
            assert(run_hyp_b(s@, from + canon_run_a(f).len(), f));
            assert(run_of(c@) == f);
        }
    }
    Some(jb)
}

/// Reads a key literal followed by the canonical spelling of a `u32`.
fn parse_kv_u32(s: &Vec<char>, from: usize, key: &str) -> (r: Option<(u32, usize)>)
    requires
        from <= s@.len(),
    ensures
        r is Some ==> from <= (r->0).1 <= s@.len() && s@.subrange(from as int, (r->0).1 as int)
            == key@ + dec_nat((r->0).0 as nat),
        forall|n: u32|
            (#[trigger] match_at(s@, from as int, key@ + dec_nat(n as nat)) && nondigit_after(
                s@,
                from + key@.len() + dec_nat(n as nat).len(),
            )) ==> r == Some((n, (from + key@.len() + dec_nat(n as nat).len()) as usize)),
{
    proof {
        assert forall|n: u32|
            match_at(s@, from as int, key@ + dec_nat(n as nat)) implies (match_at(
            s@,
            from as int,
            key@,
        ) && match_at(s@, from + key@.len(), dec_nat(n as nat))) by {
            lemma_match_split(s@, from as int, key@, dec_nat(n as nat));
        }
    }
    let j0 = match expect_lit(s, from, key) {
        Some(j) => j,
        None => {
            return None;
        },
    };
    let (v, j1) = match parse_u32(s, j0) {
        Some(p) => p,
        None => {
            return None;
        },
    };
    proof {
        crate::wire::lemma_match_join(s@, from as int, key@, dec_nat(v as nat));
    }
    Some((v, j1))
}

/// Reads a key literal followed by the canonical spelling of a percentage.
fn parse_kv_pct(s: &Vec<char>, from: usize, key: &str) -> (r: Option<(Percent, usize)>)
    requires
        from <= s@.len(),
    ensures
        r is Some ==> from <= (r->0).1 <= s@.len() && s@.subrange(from as int, (r->0).1 as int)
            == key@ + canon_pct((r->0).0.hundredths),
        forall|h: u32|
            (#[trigger] match_at(s@, from as int, key@ + canon_pct(h)) && nondigit_after(
                s@,
                from + key@.len() + canon_pct(h).len(),
            )) ==> r == Some(
                (
                    Percent { hundredths: h },
                    (from + key@.len() + canon_pct(h).len()) as usize,
                ),
            ),
{
    proof {
        assert forall|h: u32|
            match_at(s@, from as int, key@ + canon_pct(h)) implies (match_at(s@, from as int, key@)
            && match_at(s@, from + key@.len(), canon_pct(h))) by {
            lemma_match_split(s@, from as int, key@, canon_pct(h));
        }
    }
    let j0 = match expect_lit(s, from, key) {
        Some(j) => j,
        None => {
            return None;
        },
    };
    let (v, j1) = match parse_pct(s, j0) {
        Some(p) => p,
        None => {
            return None;
        },
    };
    proof {
        crate::wire::lemma_match_join(s@, from as int, key@, canon_pct(v.hundredths));
    }
    Some((v, j1))
}

/// Reads a key literal followed by the spelling of a boolean.
fn parse_kv_bool(s: &Vec<char>, from: usize, key: &str) -> (r: Option<(bool, usize)>)
    requires
        from <= s@.len(),
    ensures
        r is Some ==> from <= (r->0).1 <= s@.len() && s@.subrange(from as int, (r->0).1 as int)
            == key@ + canon_bool((r->0).0),
        forall|b: bool|
            #[trigger] match_at(s@, from as int, key@ + canon_bool(b)) ==> r == Some(
                (b, (from + key@.len() + canon_bool(b).len()) as usize),
            ),
{
    proof {
        assert forall|b: bool|
            match_at(s@, from as int, key@ + canon_bool(b)) implies (match_at(s@, from as int, key@)
            && match_at(s@, from + key@.len(), canon_bool(b))) by {
            lemma_match_split(s@, from as int, key@, canon_bool(b));
        }
    }
    let j0 = match expect_lit(s, from, key) {
        Some(j) => j,
        None => {
            return None;
        },
    };
    let (v, j1) = match parse_bool(s, j0) {
        Some(p) => p,
        None => {
            return None;
        },
    };
    proof {
        crate::wire::lemma_match_join(s@, from as int, key@, canon_bool(v));
    }
    Some((v, j1))
}

/// The liquidity field values, bundled for the codec contracts.
pub ghost struct LiqFields {
    pub lo: Percent,
    pub hi: Percent,
    pub dra: Percent,
    pub mxn: u32,
    pub cop: u32,
    pub brl: u32,
}

/// The liquidity fields of a configuration model.
pub open spec fn liq_of(m: ConfigModel) -> LiqFields {
    LiqFields {
        lo: m.lcr_lower_limit,
        hi: m.lcr_upper_limit,
        dra: m.lcr_average_dra_pd,
        mxn: m.mxn_treasury_liquidity_floor,
        cop: m.cop_treasury_liquidity_floor,
        brl: m.brl_treasury_liquidity_floor,
    }
}

/// The completeness hypothesis of [`parse_liq_a`].
pub open spec fn liq_hyp_a(s: Seq<char>, from: int, g: LiqFields) -> bool {
    &&& g.lo.hundredths <= g.hi.hundredths
    &&& g.dra.hundredths <= crate::config::DRA_PD_MAX
    &&& match_at(s, from, canon_liq_a(g.lo, g.hi, g.dra))
    &&& nondigit_after(s, from + canon_liq_a(g.lo, g.hi, g.dra).len())
}

/// The completeness hypothesis of [`parse_liq_b`].
pub open spec fn liq_hyp_b(s: Seq<char>, from: int, g: LiqFields) -> bool {
    &&& crate::config::LIQUIDITY_FLOOR_MIN <= g.mxn <= crate::config::LIQUIDITY_FLOOR_MAX
    &&& crate::config::LIQUIDITY_FLOOR_MIN <= g.cop <= crate::config::LIQUIDITY_FLOOR_MAX
    &&& crate::config::LIQUIDITY_FLOOR_MIN <= g.brl <= crate::config::LIQUIDITY_FLOOR_MAX
    &&& match_at(s, from, canon_liq_b(g.mxn, g.cop, g.brl))
    &&& nondigit_after(s, from + canon_liq_b(g.mxn, g.cop, g.brl).len())
}

/// The completeness hypothesis of [`parse_liq`]: the liquidity spelling of
/// well-formed field values stands at `from`, and the text does not go on
/// with a digit.
pub open spec fn liq_hyp(s: Seq<char>, from: int, g: LiqFields) -> bool {
    &&& g.lo.hundredths <= g.hi.hundredths
    &&& g.dra.hundredths <= crate::config::DRA_PD_MAX
    &&& crate::config::LIQUIDITY_FLOOR_MIN <= g.mxn <= crate::config::LIQUIDITY_FLOOR_MAX
    &&& crate::config::LIQUIDITY_FLOOR_MIN <= g.cop <= crate::config::LIQUIDITY_FLOOR_MAX
    &&& crate::config::LIQUIDITY_FLOOR_MIN <= g.brl <= crate::config::LIQUIDITY_FLOOR_MAX
    &&& match_at(s, from, canon_liq(g.lo, g.hi, g.dra, g.mxn, g.cop, g.brl))
    &&& nondigit_after(s, from + canon_liq(g.lo, g.hi, g.dra, g.mxn, g.cop, g.brl).len())
}

/// Where each percentage chunk of the liquidity spelling stands in the text.
#[verifier::rlimit(60)]
#[verifier::spinoff_prover]
proof fn lemma_liq_shape_a(s: Seq<char>, from: int, g: LiqFields)
    requires
        match_at(s, from, canon_liq_a(g.lo, g.hi, g.dra)),
        nondigit_after(s, from + canon_liq_a(g.lo, g.hi, g.dra).len()),
    ensures
        ({
            let c1 = ",\n  \"lcr_lower_limit\": "@ + canon_pct(g.lo.hundredths);
            let c2 = ",\n  \"lcr_upper_limit\": "@ + canon_pct(g.hi.hundredths);
            let c3 = ",\n  \"lcr_average_dra_pd\": "@ + canon_pct(g.dra.hundredths);
            &&& match_at(s, from, c1)
            &&& nondigit_after(s, from + c1.len())
            &&& match_at(s, from + c1.len(), c2)
            &&& nondigit_after(s, from + c1.len() + c2.len())
            &&& match_at(s, from + c1.len() + c2.len(), c3)
            &&& from + c1.len() + c2.len() + c3.len() == from + canon_liq_a(g.lo, g.hi, g.dra).len()
            &&& nondigit_after(s, from + c1.len() + c2.len() + c3.len())
        }),
{
    let c1 = ",\n  \"lcr_lower_limit\": "@ + canon_pct(g.lo.hundredths);
    let c2 = ",\n  \"lcr_upper_limit\": "@ + canon_pct(g.hi.hundredths);
    let c3 = ",\n  \"lcr_average_dra_pd\": "@ + canon_pct(g.dra.hundredths);
    assert(canon_liq_a(g.lo, g.hi, g.dra) =~= c1 + (c2 + c3));
    lemma_match_split(s, from, c1, c2 + c3);
    lemma_match_split(s, from + c1.len(), c2, c3);
    reveal_strlit(",\n  \"lcr_upper_limit\": ");
    reveal_strlit(",\n  \"lcr_average_dra_pd\": ");
    assert(s[from + c1.len()] == c2[0]) by {
        assert(s.subrange(from + c1.len(), from + c1.len() + c2.len())[0] == s[from + c1.len()]);
    }
    assert(s[from + c1.len() + c2.len()] == c3[0]) by {
        let p = from + c1.len() + c2.len();
        assert(s.subrange(p, p + c3.len())[0] == s[p]);
    }
}

/// Where each floor chunk of the liquidity spelling stands in the text.
#[verifier::rlimit(60)]
#[verifier::spinoff_prover]
proof fn lemma_liq_shape_b(s: Seq<char>, from: int, g: LiqFields)
    requires
        match_at(s, from, canon_liq_b(g.mxn, g.cop, g.brl)),
        nondigit_after(s, from + canon_liq_b(g.mxn, g.cop, g.brl).len()),
    ensures
        ({
            let c4 = ",\n  \"MXN_treasury_liquidity_floor\": "@ + dec_nat(g.mxn as nat);
            let c5 = ",\n  \"COP_treasury_liquidity_floor\": "@ + dec_nat(g.cop as nat);
            let c6 = ",\n  \"BRL_treasury_liquidity_floor\": "@ + dec_nat(g.brl as nat);
            &&& match_at(s, from, c4)
            &&& nondigit_after(s, from + c4.len())
            &&& match_at(s, from + c4.len(), c5)
            &&& nondigit_after(s, from + c4.len() + c5.len())
            &&& match_at(s, from + c4.len() + c5.len(), c6)
            &&& from + c4.len() + c5.len() + c6.len() == from + canon_liq_b(
                g.mxn,
                g.cop,
                g.brl,
            ).len()
            &&& nondigit_after(s, from + c4.len() + c5.len() + c6.len())
        }),
{
    let c4 = ",\n  \"MXN_treasury_liquidity_floor\": "@ + dec_nat(g.mxn as nat);
    let c5 = ",\n  \"COP_treasury_liquidity_floor\": "@ + dec_nat(g.cop as nat);
    let c6 = ",\n  \"BRL_treasury_liquidity_floor\": "@ + dec_nat(g.brl as nat);
    assert(canon_liq_b(g.mxn, g.cop, g.brl) =~= c4 + (c5 + c6));
    lemma_match_split(s, from, c4, c5 + c6);
    lemma_match_split(s, from + c4.len(), c5, c6);
    reveal_strlit(",\n  \"COP_treasury_liquidity_floor\": ");
    reveal_strlit(",\n  \"BRL_treasury_liquidity_floor\": ");
    assert(s[from + c4.len()] == c5[0]) by {
        assert(s.subrange(from + c4.len(), from + c4.len() + c5.len())[0] == s[from + c4.len()]);
    }
    assert(s[from + c4.len() + c5.len()] == c6[0]) by {
        let p = from + c4.len() + c5.len();
        assert(s.subrange(p, p + c6.len())[0] == s[p]);
    }
}

/// Reads the LCR limits and the treasury share into `c`.
#[verifier::rlimit(100)]
#[verifier::spinoff_prover]
fn parse_liq_a(s: &Vec<char>, from: usize, c: &mut Configuration) -> (r: Option<usize>)
    requires
        from <= s@.len(),
    ensures
        r is Some ==> ({
            &&& from <= r->0 <= s@.len()
            &&& s@.subrange(from as int, r->0 as int) == canon_liq_a(
                final(c)@.lcr_lower_limit,
                final(c)@.lcr_upper_limit,
                final(c)@.lcr_average_dra_pd,
            )
            &&& final(c)@.lcr_lower_limit.hundredths <= final(c)@.lcr_upper_limit.hundredths
            &&& final(c)@.lcr_average_dra_pd.hundredths <= crate::config::DRA_PD_MAX
            &&& final(c)@ == (ConfigModel {
                lcr_lower_limit: final(c)@.lcr_lower_limit,
                lcr_upper_limit: final(c)@.lcr_upper_limit,
                lcr_average_dra_pd: final(c)@.lcr_average_dra_pd,
                ..old(c)@
            })
        }),
        forall|g: LiqFields|
            #[trigger] liq_hyp_a(s@, from as int, g) ==> (r is Some && final(c)@.lcr_lower_limit
                == g.lo && final(c)@.lcr_upper_limit == g.hi && final(c)@.lcr_average_dra_pd
                == g.dra && r->0 == from + canon_liq_a(g.lo, g.hi, g.dra).len()),
{
    proof {
        assert forall|g: LiqFields| liq_hyp_a(s@, from as int, g) implies ({
            let c1 = ",\n  \"lcr_lower_limit\": "@ + canon_pct(g.lo.hundredths);
            let c2 = ",\n  \"lcr_upper_limit\": "@ + canon_pct(g.hi.hundredths);
            let c3 = ",\n  \"lcr_average_dra_pd\": "@ + canon_pct(g.dra.hundredths);
            &&& match_at(s@, from as int, c1)
            &&& nondigit_after(s@, from + c1.len())
            &&& match_at(s@, from + c1.len(), c2)
            &&& nondigit_after(s@, from + c1.len() + c2.len())
            &&& match_at(s@, from + c1.len() + c2.len(), c3)
            &&& from + c1.len() + c2.len() + c3.len() == from + canon_liq_a(
                g.lo,
                g.hi,
                g.dra,
            ).len()
            &&& nondigit_after(s@, from + c1.len() + c2.len() + c3.len())
        }) by {
            lemma_liq_shape_a(s@, from as int, g);
        }
    }
    let (lo, j1) = match parse_kv_pct(s, from, ",\n  \"lcr_lower_limit\": ") {
        Some(p) => p,
        None => {
            return None;
        },
    };
    let (hi, j2) = match parse_kv_pct(s, j1, ",\n  \"lcr_upper_limit\": ") {
        Some(p) => p,
        None => {
            return None;
        },
    };
    if lo.hundredths > hi.hundredths {
        return None;
    }
    let (dra, j3) = match parse_kv_pct(s, j2, ",\n  \"lcr_average_dra_pd\": ") {
        Some(p) => p,
        None => {
            return None;
        },
    };
    if dra.hundredths > crate::config::DRA_PD_MAX {
        return None;
    }
    c.lcr_lower_limit = lo;
    c.lcr_upper_limit = hi;
    c.lcr_average_dra_pd = dra;
    proof {
        let c1 = ",\n  \"lcr_lower_limit\": "@ + canon_pct(lo.hundredths);
        let c2 = ",\n  \"lcr_upper_limit\": "@ + canon_pct(hi.hundredths);
        let c3 = ",\n  \"lcr_average_dra_pd\": "@ + canon_pct(dra.hundredths);
        crate::wire::lemma_match_join(s@, from as int, c1, c2);
        crate::wire::lemma_match_join(s@, from as int, c1 + c2, c3);
        assert(s@.subrange(from as int, j3 as int) == canon_liq_a(lo, hi, dra));
    }
    Some(j3)
}

/// Reads the three treasury liquidity floors into `c`.
#[verifier::rlimit(100)]
#[verifier::spinoff_prover]
fn parse_liq_b(s: &Vec<char>, from: usize, c: &mut Configuration) -> (r: Option<usize>)
    requires
        from <= s@.len(),
    ensures
        r is Some ==> ({
            &&& from <= r->0 <= s@.len()
            &&& s@.subrange(from as int, r->0 as int) == canon_liq_b(
                final(c)@.mxn_treasury_liquidity_floor,
                final(c)@.cop_treasury_liquidity_floor,
                final(c)@.brl_treasury_liquidity_floor,
            )
            &&& crate::config::LIQUIDITY_FLOOR_MIN <= final(c)@.mxn_treasury_liquidity_floor
                <= crate::config::LIQUIDITY_FLOOR_MAX
            &&& crate::config::LIQUIDITY_FLOOR_MIN <= final(c)@.cop_treasury_liquidity_floor
                <= crate::config::LIQUIDITY_FLOOR_MAX
            &&& crate::config::LIQUIDITY_FLOOR_MIN <= final(c)@.brl_treasury_liquidity_floor
                <= crate::config::LIQUIDITY_FLOOR_MAX
            &&& final(c)@ == (ConfigModel {
                mxn_treasury_liquidity_floor: final(c)@.mxn_treasury_liquidity_floor,
                cop_treasury_liquidity_floor: final(c)@.cop_treasury_liquidity_floor,
                brl_treasury_liquidity_floor: final(c)@.brl_treasury_liquidity_floor,
                ..old(c)@
            })
        }),
        forall|g: LiqFields|
            #[trigger] liq_hyp_b(s@, from as int, g) ==> (r is Some
                && final(c)@.mxn_treasury_liquidity_floor == g.mxn
                && final(c)@.cop_treasury_liquidity_floor == g.cop
                && final(c)@.brl_treasury_liquidity_floor == g.brl && r->0 == from + canon_liq_b(
                g.mxn,
                g.cop,
                g.brl,
            ).len()),
{
    proof {
        assert forall|g: LiqFields| liq_hyp_b(s@, from as int, g) implies ({
            let c4 = ",\n  \"MXN_treasury_liquidity_floor\": "@ + dec_nat(g.mxn as nat);
            let c5 = ",\n  \"COP_treasury_liquidity_floor\": "@ + dec_nat(g.cop as nat);
            let c6 = ",\n  \"BRL_treasury_liquidity_floor\": "@ + dec_nat(g.brl as nat);
            &&& match_at(s@, from as int, c4)
            &&& nondigit_after(s@, from + c4.len())
            &&& match_at(s@, from + c4.len(), c5)
            &&& nondigit_after(s@, from + c4.len() + c5.len())
            &&& match_at(s@, from + c4.len() + c5.len(), c6)
            &&& from + c4.len() + c5.len() + c6.len() == from + canon_liq_b(
                g.mxn,
                g.cop,
                g.brl,
            ).len()
            &&& nondigit_after(s@, from + c4.len() + c5.len() + c6.len())
        }) by {
            lemma_liq_shape_b(s@, from as int, g);
        }
    }
    let (mxn, j4) = match parse_kv_u32(s, from, ",\n  \"MXN_treasury_liquidity_floor\": ") {
        Some(p) => p,
        None => {
            return None;
        },
    };
    if mxn < crate::config::LIQUIDITY_FLOOR_MIN || mxn > crate::config::LIQUIDITY_FLOOR_MAX {
        return None;
    }
    let (cop, j5) = match parse_kv_u32(s, j4, ",\n  \"COP_treasury_liquidity_floor\": ") {
        Some(p) => p,
        None => {
            return None;
        },
    };
    if cop < crate::config::LIQUIDITY_FLOOR_MIN || cop > crate::config::LIQUIDITY_FLOOR_MAX {
        return None;
    }
    let (brl, j6) = match parse_kv_u32(s, j5, ",\n  \"BRL_treasury_liquidity_floor\": ") {
        Some(p) => p,
        None => {
            return None;
        },
    };
    if brl < crate::config::LIQUIDITY_FLOOR_MIN || brl > crate::config::LIQUIDITY_FLOOR_MAX {
        return None;
    }
    c.mxn_treasury_liquidity_floor = mxn;
    c.cop_treasury_liquidity_floor = cop;
    c.brl_treasury_liquidity_floor = brl;
    proof {
        let c4 = ",\n  \"MXN_treasury_liquidity_floor\": "@ + dec_nat(mxn as nat);
        let c5 = ",\n  \"COP_treasury_liquidity_floor\": "@ + dec_nat(cop as nat);
        let c6 = ",\n  \"BRL_treasury_liquidity_floor\": "@ + dec_nat(brl as nat);
        crate::wire::lemma_match_join(s@, from as int, c4, c5);
        crate::wire::lemma_match_join(s@, from as int, c4 + c5, c6);
        assert(s@.subrange(from as int, j6 as int) == canon_liq_b(mxn, cop, brl));
    }
    Some(j6)
}

/// Reads the liquidity section into `c`.
#[verifier::rlimit(100)]
#[verifier::spinoff_prover]
fn parse_liq(s: &Vec<char>, from: usize, c: &mut Configuration) -> (r: Option<usize>)
    requires
        from <= s@.len(),
    ensures
        r is Some ==> ({
            &&& from <= r->0 <= s@.len()
            &&& s@.subrange(from as int, r->0 as int) == canon_liq(
                final(c)@.lcr_lower_limit,
                final(c)@.lcr_upper_limit,
                final(c)@.lcr_average_dra_pd,
                final(c)@.mxn_treasury_liquidity_floor,
                final(c)@.cop_treasury_liquidity_floor,
                final(c)@.brl_treasury_liquidity_floor,
            )
            &&& final(c)@.lcr_lower_limit.hundredths <= final(c)@.lcr_upper_limit.hundredths
            &&& final(c)@.lcr_average_dra_pd.hundredths <= crate::config::DRA_PD_MAX
            &&& crate::config::LIQUIDITY_FLOOR_MIN <= final(c)@.mxn_treasury_liquidity_floor
                <= crate::config::LIQUIDITY_FLOOR_MAX
            &&& crate::config::LIQUIDITY_FLOOR_MIN <= final(c)@.cop_treasury_liquidity_floor
                <= crate::config::LIQUIDITY_FLOOR_MAX
            &&& crate::config::LIQUIDITY_FLOOR_MIN <= final(c)@.brl_treasury_liquidity_floor
                <= crate::config::LIQUIDITY_FLOOR_MAX
            &&& final(c)@ == (ConfigModel {
                lcr_lower_limit: final(c)@.lcr_lower_limit,
                lcr_upper_limit: final(c)@.lcr_upper_limit,
                lcr_average_dra_pd: final(c)@.lcr_average_dra_pd,
                mxn_treasury_liquidity_floor: final(c)@.mxn_treasury_liquidity_floor,
                cop_treasury_liquidity_floor: final(c)@.cop_treasury_liquidity_floor,
                brl_treasury_liquidity_floor: final(c)@.brl_treasury_liquidity_floor,
                ..old(c)@
            })
        }),
        forall|g: LiqFields|
            #[trigger] liq_hyp(s@, from as int, g) ==> (r is Some && liq_of(final(c)@) == g && r->0
                == from + canon_liq(g.lo, g.hi, g.dra, g.mxn, g.cop, g.brl).len()),
{
    proof {
        assert forall|g: LiqFields| liq_hyp(s@, from as int, g) implies (liq_hyp_a(
            s@,
            from as int,
            g,
        ) && liq_hyp_b(
            s@,
            from + canon_liq_a(g.lo, g.hi, g.dra).len(),
            g,
        )) by {
            lemma_match_split(
                s@,
                from as int,
                canon_liq_a(g.lo, g.hi, g.dra),
                canon_liq_b(g.mxn, g.cop, g.brl),
            );
            // the floor section opens with a comma, ending the last
            // percentage at a non-digit
            reveal_strlit(",\n  \"MXN_treasury_liquidity_floor\": ");
            let p = from + canon_liq_a(g.lo, g.hi, g.dra).len();
            let cb = canon_liq_b(g.mxn, g.cop, g.brl);
            assert(cb[0] == ',');
            assert(s@[p] == cb[0]) by {
                assert(s@.subrange(p, p + cb.len())[0] == s@[p]);
            }
        }
    }
    let ja = match parse_liq_a(s, from, c) {
        Some(j) => j,
        None => {
            return None;
        },
    };
    let jb = match parse_liq_b(s, ja, c) {
        Some(j) => j,
        None => {
            return None;
        },
    };
    proof {
        crate::wire::lemma_match_join(
            s@,
            from as int,
            canon_liq_a(c@.lcr_lower_limit, c@.lcr_upper_limit, c@.lcr_average_dra_pd),
            canon_liq_b(
                c@.mxn_treasury_liquidity_floor,
                c@.cop_treasury_liquidity_floor,
                c@.brl_treasury_liquidity_floor,
            ),
        );
    }
    Some(jb)
}

/// The completeness hypothesis of [`parse_funding`]: the funding-gap
/// spelling of two booleans stands at `from`.
pub open spec fn funding_hyp(s: Seq<char>, from: int, rab: bool, mbb: bool) -> bool {
    match_at(s, from, canon_funding(rab, mbb))
}

/// Reads the funding-gap section into `c`.
#[verifier::rlimit(60)]
#[verifier::spinoff_prover]
fn parse_funding(s: &Vec<char>, from: usize, c: &mut Configuration) -> (r: Option<usize>)
    requires
        from <= s@.len(),
    ensures
        r is Some ==> ({
            &&& from <= r->0 <= s@.len()
            &&& s@.subrange(from as int, r->0 as int) == canon_funding(
                final(c)@.require_annual_benchmark,
                final(c)@.must_borrow_benchmark_in_first_year,
            )
            &&& final(c)@ == (ConfigModel {
                require_annual_benchmark: final(c)@.require_annual_benchmark,
                must_borrow_benchmark_in_first_year: final(c)@.must_borrow_benchmark_in_first_year,
                ..old(c)@
            })
        }),
        forall|rab: bool, mbb: bool|
            #[trigger] funding_hyp(s@, from as int, rab, mbb) ==> (r is Some
                && final(c)@.require_annual_benchmark == rab
                && final(c)@.must_borrow_benchmark_in_first_year
                == mbb && r->0 == from + canon_funding(rab, mbb).len()),
{
    proof {
        assert forall|rab: bool, mbb: bool| funding_hyp(s@, from as int, rab, mbb) implies ({
            let c1 = ",\n  \"require_annual_benchmark\": "@ + canon_bool(rab);
            let c2 = ",\n  \"must_borrow_benchmark_in_first_year\": "@ + canon_bool(mbb);
            &&& match_at(s@, from as int, c1)
            &&& match_at(s@, from + c1.len(), c2)
            &&& from + c1.len() + c2.len() == from + canon_funding(rab, mbb).len()
        }) by {
            let c1 = ",\n  \"require_annual_benchmark\": "@ + canon_bool(rab);
            let c2 = ",\n  \"must_borrow_benchmark_in_first_year\": "@ + canon_bool(mbb);
            assert(canon_funding(rab, mbb) =~= c1 + c2);
            lemma_match_split(s@, from as int, c1, c2);
        }
    }
    let (rab, j1) = match parse_kv_bool(s, from, ",\n  \"require_annual_benchmark\": ") {
        Some(p) => p,
        None => {
            return None;
        },
    };
    let (mbb, j2) = match parse_kv_bool(s, j1, ",\n  \"must_borrow_benchmark_in_first_year\": ") {
        Some(p) => p,
        None => {
            return None;
        },
    };
    c.require_annual_benchmark = rab;
    c.must_borrow_benchmark_in_first_year = mbb;
    proof {
        let c1 = ",\n  \"require_annual_benchmark\": "@ + canon_bool(rab);
        let c2 = ",\n  \"must_borrow_benchmark_in_first_year\": "@ + canon_bool(mbb);
        crate::wire::lemma_match_join(s@, from as int, c1, c2);
        assert(s@.subrange(from as int, j2 as int) == canon_funding(rab, mbb));
    }
    Some(j2)
}

/// What a matching curve-entry key pins down about the text.
proof fn lemma_entry_lit_shape(s: Seq<char>, at: int, k: int)
    requires
        match_at(s, at, entry_lit(k)),
    ensures
        at + entry_lit(k).len() <= s.len(),
        entry_lit(k).len() == 8 + curve_token_at(k).len(),
        s[at] == ' ',
        s[at + 1] == ' ',
        s[at + 2] == ' ',
        s[at + 3] == ' ',
        s[at + 4] == '"',
        match_at(s, at + 5, curve_token_at(k)),
        s[at + 5 + curve_token_at(k).len()] == '"',
        s[at + 6 + curve_token_at(k).len()] == ':',
        s[at + 7 + curve_token_at(k).len()] == ' ',
{
    let head = seq![' ', ' ', ' ', ' ', '"'];
    let tok = curve_token_at(k);
    let tail = seq!['"', ':', ' '];
    assert(entry_lit(k) =~= head + (tok + tail));
    lemma_match_split(s, at, head, tok + tail);
    lemma_match_split(s, at + 5, tok, tail);
    assert(forall|t: int| 0 <= t < 5 ==> #[trigger] s.subrange(at, at + 5)[t] == s[at + t]);
    assert(forall|t: int|
        0 <= t < 3 ==> #[trigger] s.subrange(at + 5 + tok.len(), at + 8 + tok.len())[t] == s[at + 5
            + tok.len() + t]);
}

/// Reads the curve entry at document position `k` standing at `from`:
/// indented quoted name, colon, shock sequence, and the separator (after
/// the last entry, the closing braces of the document).
#[verifier::rlimit(100)]
#[verifier::spinoff_prover]
fn parse_entry(s: &Vec<char>, from: usize, k: usize) -> (r: Option<(Vec<i32>, usize)>)
    requires
        from <= s@.len(),
        k < CURVE_COUNT,
    ensures
        r is Some ==> from <= (r->0).1 <= s@.len() && (r->0).0@.len() == CURVE_HORIZON_YEARS
            && shocks_in_range((r->0).0@) && s@.subrange(from as int, (r->0).1 as int)
            == canon_entry(k as int, (r->0).0@),
        forall|ps: Seq<i32>|
            (ps.len() == CURVE_HORIZON_YEARS && shocks_in_range(ps) && #[trigger] match_at(
                s@,
                from as int,
                canon_entry(k as int, ps),
            )) ==> r is Some && (r->0).0@ == ps && (r->0).1 == from + canon_entry(k as int, ps).len(),
{
    proof {
        assert forall|ps: Seq<i32>|
            (ps.len() == CURVE_HORIZON_YEARS && shocks_in_range(ps) && match_at(
                s@,
                from as int,
                canon_entry(k as int, ps),
            )) implies (match_at(s@, from as int, entry_lit(k as int)) && points_hyp(
            s@,
            from + entry_lit(k as int).len(),
            ps,
        ) && match_at(
            s@,
            from + entry_lit(k as int).len() + canon_points(ps).len(),
            entry_sep(k as int),
        )) by {
            assert(canon_entry(k as int, ps) =~= entry_lit(k as int) + (canon_points(ps)
                + entry_sep(k as int)));
            lemma_match_split(
                s@,
                from as int,
                entry_lit(k as int),
                canon_points(ps) + entry_sep(k as int),
            );
            lemma_match_split(
                s@,
                from + entry_lit(k as int).len(),
                canon_points(ps),
                entry_sep(k as int),
            );
        }
        assert forall|ps: Seq<i32>|
            (ps.len() == CURVE_HORIZON_YEARS && shocks_in_range(ps) && match_at(
                s@,
                from as int,
                canon_entry(k as int, ps),
            )) implies (s@[from as int] == ' ' && s@[from as int + 1] == ' ' && s@[from as int + 2]
            == ' ' && s@[from as int + 3] == ' ' && s@[from as int + 4] == '"' && match_at(
            s@,
            from as int + 5,
            curve_token_at(k as int),
        ) && s@[from + 5 + curve_token_at(k as int).len()] == '"' && s@[from + 6 + curve_token_at(
            k as int,
        ).len()] == ':' && s@[from + 7 + curve_token_at(k as int).len()] == ' ') by {
            assert(canon_entry(k as int, ps) =~= entry_lit(k as int) + (canon_points(ps)
                + entry_sep(k as int)));
            lemma_match_split(
                s@,
                from as int,
                entry_lit(k as int),
                canon_points(ps) + entry_sep(k as int),
            );
            lemma_entry_lit_shape(s@, from as int, k as int);
        }
    }
    if s.len() - from < 5 {
        return None;
    }
    if s[from] != ' ' || s[from + 1] != ' ' || s[from + 2] != ' ' || s[from + 3] != ' ' || s[from
        + 4] != '"' {
        return None;
    }
    let name = curve_name_at(k);
    let j0 = match expect_lit(s, from + 5, name) {
        Some(j) => j,
        None => {
            return None;
        },
    };
    if s.len() - j0 < 3 {
        return None;
    }
    if s[j0] != '"' || s[j0 + 1] != ':' || s[j0 + 2] != ' ' {
        return None;
    }
    let (pts, j1) = match parse_points(s, j0 + 3) {
        Some(p) => p,
        None => {
            return None;
        },
    };
    let j2 = if k + 1 < CURVE_COUNT {
        match expect_lit(s, j1, ",\n") {
            Some(j) => j,
            None => {
                return None;
            },
        }
    } else {
        match expect_lit(s, j1, "\n  }\n}") {
            Some(j) => j,
            None => {
                return None;
            },
        }
    };
    proof {
        assert(s@.subrange(from as int, from as int + 5) =~= seq![' ', ' ', ' ', ' ', '"']);
        assert(match_at(s@, from as int, seq![' ', ' ', ' ', ' ', '"']));
        assert(s@.subrange(j0 as int, j0 as int + 3) =~= seq!['"', ':', ' ']);
        assert(match_at(s@, j0 as int, seq!['"', ':', ' ']));
        crate::wire::lemma_match_join(
            s@,
            from as int,
            seq![' ', ' ', ' ', ' ', '"'],
            curve_token_at(k as int),
        );
        crate::wire::lemma_match_join(
            s@,
            from as int,
            seq![' ', ' ', ' ', ' ', '"'] + curve_token_at(k as int),
            seq!['"', ':', ' '],
        );
        assert(seq![' ', ' ', ' ', ' ', '"'] + curve_token_at(k as int) + seq!['"', ':', ' ']
            =~= entry_lit(k as int));
        assert(match_at(s@, from as int, entry_lit(k as int)));
        crate::wire::lemma_match_join(s@, from as int, entry_lit(k as int), canon_points(pts@));
        crate::wire::lemma_match_join(
            s@,
            from as int,
            entry_lit(k as int) + canon_points(pts@),
            entry_sep(k as int),
        );
        assert(s@.subrange(from as int, j2 as int) == canon_entry(k as int, pts@));
    }
    Some((pts, j2))
}

/// The interest-rate-risk field values, bundled for the codec contracts.
pub ghost struct RateFields {
    pub h: u32,
    pub cs: Seq<Seq<i32>>,
}

/// The interest-rate-risk fields of a configuration model.
pub open spec fn rate_of(m: ConfigModel) -> RateFields {
    RateFields { h: m.delta_nii_horizon_months, cs: m.rate_shock_curves }
}

/// The completeness hypothesis of [`parse_rate`]: the interest-rate-risk
/// spelling of well-formed field values stands at `from`.
pub open spec fn rate_hyp(s: Seq<char>, from: int, g: RateFields) -> bool {
    &&& 1 <= g.h <= 36
    &&& g.cs.len() == CURVE_COUNT
    &&& (forall|k: int|
        0 <= k < CURVE_COUNT ==> (#[trigger] g.cs[k]).len() == CURVE_HORIZON_YEARS
            && shocks_in_range(g.cs[k]))
    &&& match_at(s, from, canon_rate(g.h, g.cs))
}

/// The spellings of curves that only agree below position `k` agree on the
/// entries before `k`.
proof fn lemma_entries_done_agree(cs1: Seq<Seq<i32>>, cs2: Seq<Seq<i32>>, k: int)
    requires
        forall|i: int| 0 <= i < k ==> #[trigger] cs1[i] == cs2[i],
    ensures
        canon_entries_done(cs1, k) == canon_entries_done(cs2, k),
    decreases k,
{
    if k > 0 {
        lemma_entries_done_agree(cs1, cs2, k - 1);
    }
}

/// Reads the interest-rate-risk section into `c`.
#[verifier::rlimit(100)]
#[verifier::spinoff_prover]
fn parse_rate(s: &Vec<char>, from: usize, c: &mut Configuration) -> (r: Option<usize>)
    requires
        from <= s@.len(),
    ensures
        r is Some ==> ({
            &&& from <= r->0 <= s@.len()
            &&& s@.subrange(from as int, r->0 as int) == canon_rate(
                final(c)@.delta_nii_horizon_months,
                final(c)@.rate_shock_curves,
            )
            &&& 1 <= final(c)@.delta_nii_horizon_months <= 36
            &&& final(c)@.rate_shock_curves.len() == CURVE_COUNT
            &&& (forall|k: int|
                0 <= k < CURVE_COUNT ==> (#[trigger] final(c)@.rate_shock_curves[k]).len()
                    == CURVE_HORIZON_YEARS && shocks_in_range(final(c)@.rate_shock_curves[k]))
            &&& final(c)@ == (ConfigModel {
                delta_nii_horizon_months: final(c)@.delta_nii_horizon_months,
                rate_shock_curves: final(c)@.rate_shock_curves,
                ..old(c)@
            })
        }),
        forall|g: RateFields|
            #[trigger] rate_hyp(s@, from as int, g) ==> (r is Some && rate_of(final(c)@) == g && r->0
                == from + canon_rate(g.h, g.cs).len()),
{
    proof {
        assert forall|g: RateFields| rate_hyp(s@, from as int, g) implies ({
            let c1 = ",\n  \"delta_nii_horizon_months\": "@ + dec_nat(g.h as nat);
            let c2 = ",\n  \"rate_shock_curves\": {\n"@;
            &&& match_at(s@, from as int, c1)
            &&& nondigit_after(s@, from + c1.len())
            &&& match_at(s@, from + c1.len(), c2)
            &&& match_at(s@, from + c1.len() + c2.len(), canon_entries(g.cs, 0))
            &&& from + c1.len() + c2.len() + canon_entries(g.cs, 0).len() == from + canon_rate(
                g.h,
                g.cs,
            ).len()
        }) by {
            let c1 = ",\n  \"delta_nii_horizon_months\": "@ + dec_nat(g.h as nat);
            let c2 = ",\n  \"rate_shock_curves\": {\n"@;
            assert(canon_rate(g.h, g.cs) =~= c1 + (c2 + canon_entries(g.cs, 0)));
            lemma_match_split(s@, from as int, c1, c2 + canon_entries(g.cs, 0));
            lemma_match_split(s@, from + c1.len(), c2, canon_entries(g.cs, 0));
            reveal_strlit(",\n  \"rate_shock_curves\": {\n");
            assert(s@[from + c1.len()] == c2[0]) by {
                assert(s@.subrange(from + c1.len(), from + c1.len() + c2.len())[0] == s@[from
                    + c1.len()]);
            }
        }
    }
    let (h, j1) = match parse_kv_u32(s, from, ",\n  \"delta_nii_horizon_months\": ") {
        Some(p) => p,
        None => {
            return None;
        },
    };
    if h < 1 || h > 36 {
        return None;
    }
    let j2 = match expect_lit(s, j1, ",\n  \"rate_shock_curves\": {\n") {
        Some(j) => j,
        None => {
            return None;
        },
    };
    let mut curves: Vec<Curve> = Vec::new();
    let mut j: usize = j2;
    let mut k: usize = 0;
    proof {
        assert(curves.deep_view() =~~= Seq::<Seq<i32>>::empty());
        assert(canon_entries_done(curves.deep_view(), 0) =~= Seq::<char>::empty());
        assert(s@.subrange(j2 as int, j as int) =~= canon_entries_done(curves.deep_view(), 0));
        assert forall|g: RateFields| rate_hyp(s@, from as int, g) implies (h == g.h
            && curves.deep_view() =~~= g.cs.take(0) && match_at(
            s@,
            j as int,
            canon_entries(g.cs, 0),
        )) by {
            assert(g.cs.take(0) =~~= Seq::<Seq<i32>>::empty());
        }
    }
    while k < CURVE_COUNT
        invariant
            from <= j2 <= j <= s@.len(),
            k == curves@.len(),
            k <= CURVE_COUNT,
            forall|i: int|
                0 <= i < k ==> (#[trigger] curves.deep_view()[i]).len() == CURVE_HORIZON_YEARS
                    && shocks_in_range(curves.deep_view()[i]),
            s@.subrange(j2 as int, j as int) == canon_entries_done(curves.deep_view(), k as int),
            forall|g: RateFields|
                #[trigger] rate_hyp(s@, from as int, g) ==> (h == g.h && curves.deep_view()
                    == g.cs.take(k as int) && match_at(s@, j as int, canon_entries(g.cs, k as int))),
        decreases CURVE_COUNT - k,
    {
        proof {
            assert forall|g: RateFields| rate_hyp(s@, from as int, g) implies (match_at(
                s@,
                j as int,
                canon_entry(k as int, g.cs[k as int]),
            ) && match_at(
                s@,
                j + canon_entry(k as int, g.cs[k as int]).len(),
                canon_entries(g.cs, k as int + 1),
            ) && g.cs[k as int].len() == CURVE_HORIZON_YEARS && shocks_in_range(g.cs[k as int]))
                by {
                assert(canon_entries(g.cs, k as int) == canon_entry(k as int, g.cs[k as int])
                    + canon_entries(g.cs, k as int + 1));
                lemma_match_split(
                    s@,
                    j as int,
                    canon_entry(k as int, g.cs[k as int]),
                    canon_entries(g.cs, k as int + 1),
                );
            }
        }
        let (pts, j3) = match parse_entry(s, j, k) {
            Some(p) => p,
            None => {
                return None;
            },
        };
        let ghost old_curves = curves.deep_view();
        let ghost old_j = j as int;
        curves.push(Curve { points: pts });
        j = j3;
        k = k + 1;
        proof {
            assert(curves.deep_view() =~~= old_curves.push(pts@));
            lemma_entries_done_agree(old_curves, curves.deep_view(), k - 1);
            assert(curves.deep_view()[k - 1] == pts@);
            assert(canon_entries_done(curves.deep_view(), k as int) == canon_entries_done(
                old_curves,
                k - 1,
            ) + canon_entry(k - 1, pts@));
            assert(s@.subrange(j2 as int, j as int) =~= canon_entries_done(
                curves.deep_view(),
                k as int,
            )) by {
                assert(forall|t: int|
                    0 <= t < old_j - j2 ==> #[trigger] s@.subrange(j2 as int, old_j)[t] == s@[j2
                        + t]);
                assert(forall|t: int|
                    0 <= t < j - old_j ==> #[trigger] s@.subrange(old_j, j as int)[t] == s@[old_j
                        + t]);
            }
            assert forall|g: RateFields| rate_hyp(s@, from as int, g) implies (curves.deep_view()
                == g.cs.take(k as int) && match_at(s@, j as int, canon_entries(g.cs, k as int)))
                by {
                assert(pts@ == g.cs[k - 1]);
                assert(curves.deep_view() =~~= g.cs.take(k as int));
            }
        }
    }
    c.delta_nii_horizon_months = h;
    c.rate_shock_curves = curves;
    proof {
        lemma_entries_done(c@.rate_shock_curves, CURVE_COUNT as int);
        assert(canon_entries(c@.rate_shock_curves, CURVE_COUNT as int) =~= Seq::<char>::empty());
        assert(canon_entries_done(c@.rate_shock_curves, CURVE_COUNT as int) =~= canon_entries(
            c@.rate_shock_curves,
            0,
        ));
        let c1 = ",\n  \"delta_nii_horizon_months\": "@ + dec_nat(h as nat);
        let c2 = ",\n  \"rate_shock_curves\": {\n"@;
        assert(match_at(s@, j2 as int, canon_entries(c@.rate_shock_curves, 0)));
        crate::wire::lemma_match_join(s@, from as int, c1, c2);
        crate::wire::lemma_match_join(s@, from as int, c1 + c2, canon_entries(c@.rate_shock_curves, 0));
        assert(s@.subrange(from as int, j as int) == canon_rate(
            c@.delta_nii_horizon_months,
            c@.rate_shock_curves,
        ));
        assert forall|g: RateFields| rate_hyp(s@, from as int, g) implies (rate_of(c@) == g && j
            == from + canon_rate(g.h, g.cs).len()) by {
            assert(c@.rate_shock_curves == g.cs.take(CURVE_COUNT as int));
            assert(g.cs.take(CURVE_COUNT as int) =~~= g.cs);
            assert(rate_of(c@) == g);
        }
    }
    Some(j)
}

/// Splits a whole-document match into the four section hypotheses.
#[verifier::rlimit(100)]
#[verifier::spinoff_prover]
proof fn lemma_doc_shape(s: Seq<char>, m: ConfigModel)
    requires
        m.valid(),
        s == canon_doc(m),
    ensures
        ({
            let p1 = canon_run(run_of(m)).len() as int;
            let p2 = p1 + canon_liq(
                m.lcr_lower_limit,
                m.lcr_upper_limit,
                m.lcr_average_dra_pd,
                m.mxn_treasury_liquidity_floor,
                m.cop_treasury_liquidity_floor,
                m.brl_treasury_liquidity_floor,
            ).len();
            let p3 = p2 + canon_funding(
                m.require_annual_benchmark,
                m.must_borrow_benchmark_in_first_year,
            ).len();
            &&& run_hyp(s, 0, run_of(m))
            &&& liq_hyp(s, p1, liq_of(m))
            &&& funding_hyp(
                s,
                p2,
                m.require_annual_benchmark,
                m.must_borrow_benchmark_in_first_year,
            )
            &&& rate_hyp(s, p3, rate_of(m))
            &&& p3 + canon_rate(m.delta_nii_horizon_months, m.rate_shock_curves).len() == s.len()
        }),
{
    let rr = canon_run(run_of(m));
    let ll = canon_liq(
        m.lcr_lower_limit,
        m.lcr_upper_limit,
        m.lcr_average_dra_pd,
        m.mxn_treasury_liquidity_floor,
        m.cop_treasury_liquidity_floor,
        m.brl_treasury_liquidity_floor,
    );
    let ff = canon_funding(m.require_annual_benchmark, m.must_borrow_benchmark_in_first_year);
    let tt = canon_rate(m.delta_nii_horizon_months, m.rate_shock_curves);
    assert(match_at(s, 0, canon_doc(m))) by {
        assert(s.subrange(0, s.len() as int) =~= s);
    }
    assert(canon_doc(m) =~= rr + (ll + (ff + tt)));
    lemma_match_split(s, 0, rr, ll + (ff + tt));
    lemma_match_split(s, rr.len() as int, ll, ff + tt);
    lemma_match_split(s, rr.len() as int + ll.len(), ff, tt);
    // the funding section opens with a comma, ending the last floor value at
    // a non-digit
    reveal_strlit(",\n  \"require_annual_benchmark\": ");
    assert(ff[0] == ',') by {
        assert(ff =~= (",\n  \"require_annual_benchmark\": "@ + canon_bool(
            m.require_annual_benchmark,
        )) + (",\n  \"must_borrow_benchmark_in_first_year\": "@ + canon_bool(
            m.must_borrow_benchmark_in_first_year,
        )));
    }
    assert(s[rr.len() as int + ll.len()] == ff[0]) by {
        let p = rr.len() as int + ll.len();
        assert(s.subrange(p, p + ff.len())[0] == s[p]);
    }
}

/// Reads a persisted document.
///
/// Exactly the canonical spellings of well-formed configurations are
/// accepted: an accepted text re-prints, through [`serialize`], to itself,
/// and the canonical spelling of any well-formed configuration is accepted
/// and yields exactly that configuration — the round-trip guarantee.
#[verifier::rlimit(100)]
#[verifier::spinoff_prover]
pub fn parse(s: &Vec<char>) -> (r: Result<Configuration, ParseError>)
    ensures
        r is Ok ==> r->Ok_0.valid() && s@ == canon_doc(r->Ok_0@),
        forall|m: ConfigModel|
            (#[trigger] canon_doc(m) == s@ && m.valid()) ==> r is Ok && r->Ok_0@ == m,
{
    proof {
        assert forall|m: ConfigModel| canon_doc(m) == s@ && m.valid() implies ({
            let p1 = canon_run(run_of(m)).len() as int;
            let p2 = p1 + canon_liq(
                m.lcr_lower_limit,
                m.lcr_upper_limit,
                m.lcr_average_dra_pd,
                m.mxn_treasury_liquidity_floor,
                m.cop_treasury_liquidity_floor,
                m.brl_treasury_liquidity_floor,
            ).len();
            let p3 = p2 + canon_funding(
                m.require_annual_benchmark,
                m.must_borrow_benchmark_in_first_year,
            ).len();
            &&& run_hyp(s@, 0, run_of(m))
            &&& liq_hyp(s@, p1, liq_of(m))
            &&& funding_hyp(
                s@,
                p2,
                m.require_annual_benchmark,
                m.must_borrow_benchmark_in_first_year,
            )
            &&& rate_hyp(s@, p3, rate_of(m))
            &&& p3 + canon_rate(m.delta_nii_horizon_months, m.rate_shock_curves).len() == s@.len()
        }) by {
            lemma_doc_shape(s@, m);
        }
    }
    let mut c = Configuration::default();
    let j1 = match parse_run(s, 0, &mut c) {
        Some(j) => j,
        None => {
            return Err(ParseError);
        },
    };
    let j2 = match parse_liq(s, j1, &mut c) {
        Some(j) => j,
        None => {
            return Err(ParseError);
        },
    };
    let j3 = match parse_funding(s, j2, &mut c) {
        Some(j) => j,
        None => {
            return Err(ParseError);
        },
    };
    let j4 = match parse_rate(s, j3, &mut c) {
        Some(j) => j,
        None => {
            return Err(ParseError);
        },
    };
    if j4 != s.len() {
        return Err(ParseError);
    }
    proof {
        assert(c@.valid());
        let rr = canon_run(run_of(c@));
        let ll = canon_liq(
            c@.lcr_lower_limit,
            c@.lcr_upper_limit,
            c@.lcr_average_dra_pd,
            c@.mxn_treasury_liquidity_floor,
            c@.cop_treasury_liquidity_floor,
            c@.brl_treasury_liquidity_floor,
        );
        let ff = canon_funding(c@.require_annual_benchmark, c@.must_borrow_benchmark_in_first_year);
        let tt = canon_rate(c@.delta_nii_horizon_months, c@.rate_shock_curves);
        crate::wire::lemma_match_join(s@, 0, rr, ll);
        crate::wire::lemma_match_join(s@, 0, rr + ll, ff);
        crate::wire::lemma_match_join(s@, 0, rr + ll + ff, tt);
        assert(s@ == canon_doc(c@)) by {
            assert(match_at(s@, 0, canon_doc(c@)));
            assert(s@.subrange(0, s@.len() as int) =~= s@);
        }
        assert forall|m: ConfigModel| canon_doc(m) == s@ && m.valid() implies c@ == m by {
            assert(run_of(c@) == run_of(m));
            assert(liq_of(c@) == liq_of(m));
            assert(rate_of(c@) == rate_of(m));
            assert(c@ =~~= m);
        }
    }
    Ok(c)
}

} // verus!
