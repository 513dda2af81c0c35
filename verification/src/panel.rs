//! The text panel printed in one-shot runs and when the output is not a
//! terminal: mode, live and averaged asks, the plan, limit prices and clip
//! progress, in a fixed frame.
use vstd::prelude::*;

use rust_decimal::Decimal;

use crate::decimal::{add_opt, Dec};
use crate::strategy::{FavoredOutcome, SizePlan};
use crate::ui::{plan_notional, spec_plan_notional, spec_truncate, truncate};

verus! {

/// What the panel shows.
#[derive(Debug, Clone)]
pub struct PanelState {
    pub dry_run: bool,
    pub label_a: String,
    pub label_b: String,
    pub fair_a: Dec,
    pub min_locked_edge: Dec,
    pub live_ask_a: Option<Dec>,
    pub live_ask_b: Option<Dec>,
    pub twap_ask_a: Option<Dec>,
    pub twap_ask_b: Option<Dec>,
    pub twap_window_secs: u64,
    pub twap_samples: usize,
    pub twap_ready: bool,
    pub plan: Option<SizePlan>,
    pub px_a: Option<Dec>,
    pub px_b: Option<Dec>,
    pub slice_idx: u32,
    pub slices: u32,
    pub executing: bool,
    pub submitted_a: Dec,
    pub submitted_b: Dec,
    pub last_order_a: Option<String>,
    pub last_order_b: Option<String>,
    pub status: String,
    pub error: Option<String>,
}

/// `n` spaces.
pub open spec fn spaces(n: nat) -> Seq<char> {
    Seq::new(n, |i: int| ' ')
}

/// `s` followed by spaces up to `w` characters (as the `{:<w}` format).
pub open spec fn pad_right(s: Seq<char>, w: nat) -> Seq<char> {
    if s.len() >= w {
        s
    } else {
        s + spaces((w - s.len()) as nat)
    }
}

/// `s` preceded by spaces up to `w` characters (as the `{:>w}` format).
pub open spec fn pad_left(s: Seq<char>, w: nat) -> Seq<char> {
    if s.len() >= w {
        s
    } else {
        spaces((w - s.len()) as nat) + s
    }
}

/// The decimal digit `d` (`0 <= d <= 9`) as a character.
pub open spec fn digit_char(d: nat) -> char {
    ((48 + d) as u32) as char
}

/// The decimal digits of `n`, most significant first, without leading zeros.
pub open spec fn decimal_digits(n: nat) -> Seq<char>
    decreases n,
{
    if n < 10 {
        seq![digit_char(n)]
    } else {
        decimal_digits(n / 10).push(digit_char(n % 10))
    }
}

/// Name for what `rust_decimal`'s `Display` writes for the decimal of
/// mantissa `m` and scale `s` with `places` decimal places.
pub uninterp spec fn decimal_text_spec(m: int, s: nat, places: nat) -> Seq<char>;

/// The decimal `d` written with `places` decimal places by `rust_decimal`'s
/// `Display` (`format!("{:.places$}")`). Its result is named `decimal_text_spec`.
#[verifier::external_body]
fn decimal_text(d: Dec, places: u32) -> (r: String)
    requires
        d.wf(),
    ensures
        r@ == decimal_text_spec(d.mant(), d.sc(), places as nat),
{
    format!("{:.*}", places as usize, Decimal::from_i128_with_scale(d.mantissa, d.scale))
}

/// `u64::to_string`. Claimed: the decimal digits of `n`, without leading zeros.
#[verifier::external_body]
fn u64_text(n: u64) -> (r: String)
    ensures
        r@ == decimal_digits(n as nat),
{
    n.to_string()
}

pub open spec fn dec_text(d: Dec, places: nat) -> Seq<char> {
    decimal_text_spec(d.mant(), d.sc(), places)
}

/// A decimal with `places` decimal places, or a dash when there is none.
pub open spec fn opt_decimal_text(x: Option<Dec>, places: nat) -> Seq<char> {
    match x {
        Some(d) => dec_text(d, places),
        None => "—"@,
    }
}

/// `a + b` when both are known.
pub open spec fn bundle_of(a: Option<Dec>, b: Option<Dec>) -> Option<Dec> {
    match (a, b) {
        (Some(x), Some(y)) => add_opt(x, y),
        _ => None,
    }
}

pub open spec fn panel_mode(s: PanelState) -> Seq<char> {
    if s.dry_run {
        "DRY-RUN"@
    } else {
        "LIVE"@
    }
}

pub open spec fn panel_ready(s: PanelState) -> Seq<char> {
    if s.twap_ready {
        "yes"@
    } else {
        "warming"@
    }
}

/// The favored side: the outcome's label marked as tilted, the neutral
/// pair, or a dash without a plan.
pub open spec fn panel_favored(s: PanelState) -> Seq<char> {
    match s.plan {
        Some(p) => match p.favored {
            FavoredOutcome::A => s.label_a@ + " (tilt)"@,
            FavoredOutcome::B => s.label_b@ + " (tilt)"@,
            FavoredOutcome::Neutral => "paired / neutral"@,
        },
        None => "—"@,
    }
}

/// The plan's paired size (`which == 0`), leg A (`1`) or leg B (`2`) with
/// two places, or a dash without a plan.
pub open spec fn panel_plan_qty(plan: Option<SizePlan>, which: nat) -> Seq<char> {
    match plan {
        Some(p) => dec_text(
            if which == 0 {
                p.paired_shares
            } else if which == 1 {
                p.qty_a
            } else {
                p.qty_b
            },
            2,
        ),
        None => "—"@,
    }
}

/// The plan's notional at the limit prices with two places, or a dash.
pub open spec fn panel_notion(s: PanelState) -> Seq<char> {
    match s.plan {
        Some(p) => opt_decimal_text(spec_plan_notional(p, s.px_a, s.px_b), 2),
        None => "—"@,
    }
}

/// The clip shown: the current one while executing, else zero.
pub open spec fn panel_clip(s: PanelState) -> u32 {
    if s.executing {
        s.slice_idx
    } else {
        0
    }
}

/// The error when there is one, else the status.
pub open spec fn panel_message(s: PanelState) -> Seq<char> {
    match s.error {
        Some(e) => e@,
        None => s.status@,
    }
}

fn text_of(d: Dec, places: u32) -> (r: String)
    ensures
        r@ == dec_text(d, places as nat),
{
    proof {
        use_type_invariant(&d);
    }
    decimal_text(d, places)
}

fn opt_text(x: Option<Dec>, places: u32) -> (r: String)
    ensures
        r@ == opt_decimal_text(x, places as nat),
{
    match x {
        Some(d) => text_of(d, places),
        None => String::from_str("—"),
    }
}

fn bundle(a: Option<Dec>, b: Option<Dec>) -> (r: Option<Dec>)
    ensures
        r == bundle_of(a, b),
{
    match (a, b) {
        (Some(x), Some(y)) => x.checked_add(y),
        _ => None,
    }
}

fn favored_text(s: &PanelState) -> (r: String)
    ensures
        r@ == panel_favored(*s),
{
    match &s.plan {
        Some(p) => match p.favored {
            FavoredOutcome::A => s.label_a.clone().concat(" (tilt)"),
            FavoredOutcome::B => s.label_b.clone().concat(" (tilt)"),
            FavoredOutcome::Neutral => String::from_str("paired / neutral"),
        },
        None => String::from_str("—"),
    }
}

fn plan_qty_text(plan: &Option<SizePlan>, which: u32) -> (r: String)
    ensures
        r@ == panel_plan_qty(*plan, which as nat),
{
    match plan {
        Some(p) => text_of(
            if which == 0 {
                p.paired_shares
            } else if which == 1 {
                p.qty_a
            } else {
                p.qty_b
            },
            2,
        ),
        None => String::from_str("—"),
    }
}

fn notion_text(s: &PanelState) -> (r: String)
    ensures
        r@ == panel_notion(*s),
{
    match &s.plan {
        Some(p) => opt_text(plan_notional(p, s.px_a, s.px_b), 2),
        None => String::from_str("—"),
    }
}

fn message_text(s: &PanelState) -> (r: String)
    ensures
        r@ == spec_truncate(panel_message(*s), 62),
{
    match &s.error {
        Some(e) => truncate(e.as_str(), 62),
        None => truncate(s.status.as_str(), 62),
    }
}

fn append_spaces(out: &mut String, n: usize)
    ensures
        final(out)@ == old(out)@ + spaces(n as nat),
{
    let mut i: usize = 0;
    proof {
        reveal_strlit(" ");
        assert(out@ =~= old(out)@ + spaces(0));
    }
    while i < n
        invariant
            i <= n,
            out@ =~= old(out)@ + spaces(i as nat),
        decreases n - i,
    {
        out.append(" ");
        proof {
            reveal_strlit(" ");
            assert(out@ =~= old(out)@ + spaces((i + 1) as nat));
        }
        i = i + 1;
    }
}

fn append_pad_right(out: &mut String, text: &str, w: usize)
    ensures
        final(out)@ == old(out)@ + pad_right(text@, w as nat),
{
    let n = text.unicode_len();
    out.append(text);
    if n < w {
        append_spaces(out, w - n);
    }
    proof {
        if n < w {
            assert(old(out)@ + text@ + spaces((w - n) as nat) =~= old(out)@ + (text@ + spaces(
                (w - n) as nat,
            )));
        }
    }
}

fn append_pad_left(out: &mut String, text: &str, w: usize)
    ensures
        final(out)@ == old(out)@ + pad_left(text@, w as nat),
{
    let n = text.unicode_len();
    if n < w {
        append_spaces(out, w - n);
    }
    out.append(text);
    proof {
        if n < w {
            assert(old(out)@ + spaces((w - n) as nat) + text@ =~= old(out)@ + (spaces(
                (w - n) as nat,
            ) + text@));
        }
    }
}


pub open spec fn panel_line_0(s: PanelState) -> Seq<char> {
    "╔══════════════════════════════════════════════════════════════════╗\n"@
}


pub open spec fn panel_line_1(s: PanelState) -> Seq<char> {
    "║  Directional Arb   TWAP "@ + pad_left(decimal_digits(s.twap_window_secs as nat), 3) + "s   "@ + pad_right(panel_mode(s), 8) + "                       ║\n"@
}


pub open spec fn panel_line_2(s: PanelState) -> Seq<char> {
    "╠══════════════════════════════════════════════════════════════════╣\n"@
}


pub open spec fn panel_line_3(s: PanelState) -> Seq<char> {
    "║  "@ + pad_right(s.label_a@, 10) + "  live "@ + pad_right(opt_decimal_text(s.live_ask_a, 4), 10) + "  twap "@ + pad_right(opt_decimal_text(s.twap_ask_a, 4), 10) + "                   ║\n"@
}


pub open spec fn panel_line_4(s: PanelState) -> Seq<char> {
    "║  "@ + pad_right(s.label_b@, 10) + "  live "@ + pad_right(opt_decimal_text(s.live_ask_b, 4), 10) + "  twap "@ + pad_right(opt_decimal_text(s.twap_ask_b, 4), 10) + "                   ║\n"@
}


pub open spec fn panel_line_5(s: PanelState) -> Seq<char> {
    "║  bundle      live "@ + pad_right(opt_decimal_text(bundle_of(s.live_ask_a, s.live_ask_b), 4), 10) + "  twap "@ + pad_right(opt_decimal_text(bundle_of(s.twap_ask_a, s.twap_ask_b), 4), 10) + "                   ║\n"@
}


pub open spec fn panel_line_6(s: PanelState) -> Seq<char> {
    "║  fair P("@ + spec_truncate(s.label_a@, 4) + ")="@ + dec_text(s.fair_a, 3) + "   min locked edge="@ + dec_text(s.min_locked_edge, 3) + "   samples="@ + pad_right(decimal_digits(s.twap_samples as nat), 3) + "     ║\n"@
}


pub open spec fn panel_line_7(s: PanelState) -> Seq<char> {
    "║  favored="@ + pad_right(panel_favored(s), 22) + "  ready="@ + panel_ready(s) + "                        ║\n"@
}


pub open spec fn panel_line_8(s: PanelState) -> Seq<char> {
    "║  plan pair="@ + pad_right(panel_plan_qty(s.plan, 0), 8) + " "@ + spec_truncate(s.label_a@, 4) + "="@ + pad_right(panel_plan_qty(s.plan, 1), 8) + " "@ + spec_truncate(s.label_b@, 4) + "="@ + pad_right(panel_plan_qty(s.plan, 2), 8) + "  ~"@ + panel_notion(s) + " USDC     ║\n"@
}


pub open spec fn panel_line_9(s: PanelState) -> Seq<char> {
    "║  limits "@ + spec_truncate(s.label_a@, 4) + "@"@ + pad_right(opt_decimal_text(s.px_a, 4), 8) + " "@ + spec_truncate(s.label_b@, 4) + "@"@ + pad_right(opt_decimal_text(s.px_b, 4), 8) + "  clip "@ + decimal_digits(panel_clip(s) as nat) + "/"@ + decimal_digits(s.slices as nat) + "            ║\n"@
}


pub open spec fn panel_line_10(s: PanelState) -> Seq<char> {
    "║  submitted "@ + spec_truncate(s.label_a@, 4) + "="@ + pad_right(dec_text(s.submitted_a, 2), 8) + " "@ + spec_truncate(s.label_b@, 4) + "="@ + pad_right(dec_text(s.submitted_b, 2), 8) + "                           ║\n"@
}


pub open spec fn panel_line_11(s: PanelState) -> Seq<char> {
    "║  "@ + pad_right(spec_truncate(panel_message(s), 62), 62) + " ║\n"@
}


pub open spec fn panel_line_12(s: PanelState) -> Seq<char> {
    "╚══════════════════════════════════════════════════════════════════╝"@
}

fn append_line_0(out: &mut String, s: &PanelState)
    ensures
        final(out)@ == old(out)@ + panel_line_0(*s),
{
    out.append("╔══════════════════════════════════════════════════════════════════╗\n");
}

fn append_line_1(out: &mut String, s: &PanelState)
    ensures
        final(out)@ == old(out)@ + panel_line_1(*s),
{
    out.append("║  Directional Arb   TWAP ");
    let f_win = u64_text(s.twap_window_secs);
    append_pad_left(out, f_win.as_str(), 3);
    out.append("s   ");
    let f_mode = String::from_str(if s.dry_run { "DRY-RUN" } else { "LIVE" });
    append_pad_right(out, f_mode.as_str(), 8);
    out.append("                       ║\n");
}

fn append_line_2(out: &mut String, s: &PanelState)
    ensures
        final(out)@ == old(out)@ + panel_line_2(*s),
{
    out.append("╠══════════════════════════════════════════════════════════════════╣\n");
}

fn append_line_3(out: &mut String, s: &PanelState)
    ensures
        final(out)@ == old(out)@ + panel_line_3(*s),
{
    out.append("║  ");
    let f_a = s.label_a.clone();
    append_pad_right(out, f_a.as_str(), 10);
    out.append("  live ");
    let f_la = opt_text(s.live_ask_a, 4);
    append_pad_right(out, f_la.as_str(), 10);
    out.append("  twap ");
    let f_ta = opt_text(s.twap_ask_a, 4);
    append_pad_right(out, f_ta.as_str(), 10);
    out.append("                   ║\n");
}

fn append_line_4(out: &mut String, s: &PanelState)
    ensures
        final(out)@ == old(out)@ + panel_line_4(*s),
{
    out.append("║  ");
    let f_b = s.label_b.clone();
    append_pad_right(out, f_b.as_str(), 10);
    out.append("  live ");
    let f_lb = opt_text(s.live_ask_b, 4);
    append_pad_right(out, f_lb.as_str(), 10);
    out.append("  twap ");
    let f_tb = opt_text(s.twap_ask_b, 4);
    append_pad_right(out, f_tb.as_str(), 10);
    out.append("                   ║\n");
}

fn append_line_5(out: &mut String, s: &PanelState)
    ensures
        final(out)@ == old(out)@ + panel_line_5(*s),
{
    out.append("║  bundle      live ");
    let f_lbund = opt_text(bundle(s.live_ask_a, s.live_ask_b), 4);
    append_pad_right(out, f_lbund.as_str(), 10);
    out.append("  twap ");
    let f_tbund = opt_text(bundle(s.twap_ask_a, s.twap_ask_b), 4);
    append_pad_right(out, f_tbund.as_str(), 10);
    out.append("                   ║\n");
}

fn append_line_6(out: &mut String, s: &PanelState)
    ensures
        final(out)@ == old(out)@ + panel_line_6(*s),
{
    out.append("║  fair P(");
    let f_a_short = truncate(s.label_a.as_str(), 4);
    out.append(f_a_short.as_str());
    out.append(")=");
    let f_fair = text_of(s.fair_a, 3);
    out.append(f_fair.as_str());
    out.append("   min locked edge=");
    let f_edge = text_of(s.min_locked_edge, 3);
    out.append(f_edge.as_str());
    out.append("   samples=");
    let f_samp = u64_text(s.twap_samples as u64);
    append_pad_right(out, f_samp.as_str(), 3);
    out.append("     ║\n");
}

fn append_line_7(out: &mut String, s: &PanelState)
    ensures
        final(out)@ == old(out)@ + panel_line_7(*s),
{
    out.append("║  favored=");
    let f_fav = favored_text(s);
    append_pad_right(out, f_fav.as_str(), 22);
    out.append("  ready=");
    let f_ready = String::from_str(if s.twap_ready { "yes" } else { "warming" });
    out.append(f_ready.as_str());
    out.append("                        ║\n");
}

fn append_line_8(out: &mut String, s: &PanelState)
    ensures
        final(out)@ == old(out)@ + panel_line_8(*s),
{
    out.append("║  plan pair=");
    let f_pair = plan_qty_text(&s.plan, 0);
    append_pad_right(out, f_pair.as_str(), 8);
    out.append(" ");
    let f_a_short = truncate(s.label_a.as_str(), 4);
    out.append(f_a_short.as_str());
    out.append("=");
    let f_qa = plan_qty_text(&s.plan, 1);
    append_pad_right(out, f_qa.as_str(), 8);
    out.append(" ");
    let f_b_short = truncate(s.label_b.as_str(), 4);
    out.append(f_b_short.as_str());
    out.append("=");
    let f_qb = plan_qty_text(&s.plan, 2);
    append_pad_right(out, f_qb.as_str(), 8);
    out.append("  ~");
    let f_notion = notion_text(s);
    out.append(f_notion.as_str());
    out.append(" USDC     ║\n");
}

fn append_line_9(out: &mut String, s: &PanelState)
    ensures
        final(out)@ == old(out)@ + panel_line_9(*s),
{
    out.append("║  limits ");
    let f_a_short = truncate(s.label_a.as_str(), 4);
    out.append(f_a_short.as_str());
    out.append("@");
    let f_pxa = opt_text(s.px_a, 4);
    append_pad_right(out, f_pxa.as_str(), 8);
    out.append(" ");
    let f_b_short = truncate(s.label_b.as_str(), 4);
    out.append(f_b_short.as_str());
    out.append("@");
    let f_pxb = opt_text(s.px_b, 4);
    append_pad_right(out, f_pxb.as_str(), 8);
    out.append("  clip ");
    let f_clip = u64_text(if s.executing { s.slice_idx as u64 } else { 0 });
    out.append(f_clip.as_str());
    out.append("/");
    let f_slices = u64_text(s.slices as u64);
    out.append(f_slices.as_str());
    out.append("            ║\n");
}

fn append_line_10(out: &mut String, s: &PanelState)
    ensures
        final(out)@ == old(out)@ + panel_line_10(*s),
{
    out.append("║  submitted ");
    let f_a_short = truncate(s.label_a.as_str(), 4);
    out.append(f_a_short.as_str());
    out.append("=");
    let f_sa = text_of(s.submitted_a, 2);
    append_pad_right(out, f_sa.as_str(), 8);
    out.append(" ");
    let f_b_short = truncate(s.label_b.as_str(), 4);
    out.append(f_b_short.as_str());
    out.append("=");
    let f_sb = text_of(s.submitted_b, 2);
    append_pad_right(out, f_sb.as_str(), 8);
    out.append("                           ║\n");
}

fn append_line_11(out: &mut String, s: &PanelState)
    ensures
        final(out)@ == old(out)@ + panel_line_11(*s),
{
    out.append("║  ");
    let f_status = message_text(s);
    append_pad_right(out, f_status.as_str(), 62);
    out.append(" ║\n");
}

fn append_line_12(out: &mut String, s: &PanelState)
    ensures
        final(out)@ == old(out)@ + panel_line_12(*s),
{
    out.append("╚══════════════════════════════════════════════════════════════════╝");
}

/// The whole panel: the lines of the frame in order, the last without a newline.
pub open spec fn spec_format_panel(s: PanelState) -> Seq<char> {
    panel_line_0(s) + panel_line_1(s) + panel_line_2(s) + panel_line_3(s) + panel_line_4(s) + panel_line_5(s) + panel_line_6(s) + panel_line_7(s) + panel_line_8(s) + panel_line_9(s) + panel_line_10(s) + panel_line_11(s) + panel_line_12(s)
}

/// Single-shot / non-TTY panel (no raw mode).
pub fn format_panel(s: &PanelState) -> (r: String)
    ensures
        r@ == spec_format_panel(*s),
{
    let mut out = String::new();
    append_line_0(&mut out, s);
    append_line_1(&mut out, s);
    append_line_2(&mut out, s);
    append_line_3(&mut out, s);
    append_line_4(&mut out, s);
    append_line_5(&mut out, s);
    append_line_6(&mut out, s);
    append_line_7(&mut out, s);
    append_line_8(&mut out, s);
    append_line_9(&mut out, s);
    append_line_10(&mut out, s);
    append_line_11(&mut out, s);
    append_line_12(&mut out, s);
    out
}

} // verus!
