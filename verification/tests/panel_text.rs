use directional_arbitrage_bot::decimal::Dec;
use directional_arbitrage_bot::panel::{format_panel, PanelState};
use directional_arbitrage_bot::strategy::{FavoredOutcome, SizePlan};
use rust_decimal::Decimal;

fn d(m: i64, s: u32) -> Dec {
    Dec::new(m, s)
}

fn x(m: i64, s: u32) -> Decimal {
    Decimal::new(m, s)
}

fn expected(dry: bool, ready: bool, executing: bool, with_plan: bool, error: Option<&str>) -> String {
    let dec_s = |v: Option<Decimal>| v.map(|d| format!("{d:.4}")).unwrap_or_else(|| "—".to_string());
    let (qa, qb, pair) = if with_plan {
        (format!("{:.2}", x(75, 0)), format!("{:.2}", x(50, 0)), format!("{:.2}", x(50, 0)))
    } else {
        ("—".to_string(), "—".to_string(), "—".to_string())
    };
    let notion = if with_plan {
        format!("{:.2}", x(75, 0) * x(45, 2) + x(50, 0) * x(49, 2))
    } else {
        "—".to_string()
    };
    let fav = if with_plan { "YES (tilt)".to_string() } else { "—".to_string() };
    let msg = error.map(|e| e.to_string()).unwrap_or_else(|| "status line".to_string());
    let status = if msg.chars().count() <= 62 {
        msg
    } else {
        msg.chars().take(61).collect::<String>() + "…"
    };
    format!(
        "\
╔══════════════════════════════════════════════════════════════════╗
║  Directional Arb   TWAP {win:>3}s   {mode:<8}                       ║
╠══════════════════════════════════════════════════════════════════╣
║  {a:<10}  live {la:<10}  twap {ta:<10}                   ║
║  {b:<10}  live {lb:<10}  twap {tb:<10}                   ║
║  bundle      live {lbund:<10}  twap {tbund:<10}                   ║
║  fair P({a_short})={fair}   min locked edge={edge}   samples={samp:<3}     ║
║  favored={fav:<22}  ready={ready}                        ║
║  plan pair={pair:<8} {a_short}={qa:<8} {b_short}={qb:<8}  ~{notion} USDC     ║
║  limits {a_short}@{pxa:<8} {b_short}@{pxb:<8}  clip {clip}/{slices}            ║
║  submitted {a_short}={sa:<8} {b_short}={sb:<8}                           ║
║  {status:<62} ║
╚══════════════════════════════════════════════════════════════════╝",
        win = 60u64,
        mode = if dry { "DRY-RUN" } else { "LIVE" },
        a = "YES",
        b = "NOOOOOOO",
        a_short = "YES",
        b_short = "NOO…",
        la = dec_s(Some(x(45, 2))),
        lb = dec_s(Some(x(49, 2))),
        ta = dec_s(Some(Decimal::from_i128_with_scale(4466666666666666666666666667, 28))),
        tb = dec_s(None),
        lbund = dec_s(Some(x(94, 2))),
        tbund = dec_s(None),
        fair = format!("{:.3}", x(62, 2)),
        edge = format!("{:.3}", x(2, 2)),
        samp = 7usize,
        fav = fav,
        ready = if ready { "yes" } else { "warming" },
        pair = pair,
        qa = qa,
        qb = qb,
        notion = notion,
        pxa = dec_s(Some(x(45, 2))),
        pxb = dec_s(Some(x(49, 2))),
        clip = if executing { 3u32 } else { 0 },
        slices = 6u32,
        sa = format!("{:.2}", x(125, 1)),
        sb = format!("{:.2}", x(0, 0)),
        status = status,
    )
}

fn state(dry: bool, ready: bool, executing: bool, with_plan: bool, error: Option<&str>) -> PanelState {
    PanelState {
        dry_run: dry,
        label_a: "YES".to_string(),
        label_b: "NOOOOOOO".to_string(),
        fair_a: d(62, 2),
        min_locked_edge: d(2, 2),
        live_ask_a: Some(d(45, 2)),
        live_ask_b: Some(d(49, 2)),
        twap_ask_a: Some(Dec::from_parts(4466666666666666666666666667i128, 28).unwrap()),
        twap_ask_b: None,
        twap_window_secs: 60,
        twap_samples: 7,
        twap_ready: ready,
        plan: if with_plan {
            Some(SizePlan { favored: FavoredOutcome::A, paired_shares: d(50, 0), qty_a: d(75, 0), qty_b: d(50, 0) })
        } else {
            None
        },
        px_a: Some(d(45, 2)),
        px_b: Some(d(49, 2)),
        slice_idx: 3,
        slices: 6,
        executing,
        submitted_a: d(125, 1),
        submitted_b: d(0, 0),
        last_order_a: None,
        last_order_b: None,
        status: "status line".to_string(),
        error: error.map(|e| e.to_string()),
    }
}

#[test]
fn panel_matches_the_frame_with_a_plan() {
    assert_eq!(format_panel(&state(true, true, true, true, None)), expected(true, true, true, true, None));
}

#[test]
fn panel_without_a_plan_shows_dashes() {
    assert_eq!(format_panel(&state(false, false, false, false, None)), expected(false, false, false, false, None));
}

#[test]
fn panel_shows_a_truncated_error() {
    let long = "e".repeat(70);
    assert_eq!(
        format_panel(&state(false, true, false, true, Some(&long))),
        expected(false, true, false, true, Some(&long))
    );
}
