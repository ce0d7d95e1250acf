//! The end-of-session summary of the economy: for each seat, what it ended
//! with and started with, what it earned and lost, how often it acted, and
//! its record in disputes and bounties.
use vstd::prelude::*;

use crate::currency::{ActionKind, BalancesSnapshot, BountyRow, BountyTable, LedgerRow, seat_lookup, STARTING_BALANCE_COPPER};
use crate::text::{
    chars_of, chars_contains, chars_starts_with, chars_eq, contains_seq, has_prefix, str_eq,
    to_lowercase, lowercase_of, push_str, texts, ascending, insert_ascending, string_from_chars,
};
use crate::timefmt::{iso_text, format_iso, clock_secs, bytes_of, parse_u64_spec, digit_run};

verus! {

/// A message exchanged inside a dispute.
#[derive(Debug, Clone)]
pub struct DisputeMessage {
    pub from: String,
    pub body: String,
    pub added_to_pool: i64,
    pub at: String,
}

/// A row of the append-only disputes log; the latest row with an id is the
/// dispute's state. Status is open | resolved | destroyed; a resolution is
/// challenger_wins | target_wins | both_wrong | conceded_by_<seat>.
#[derive(Debug, Clone)]
pub struct DisputeRow {
    pub id: String,
    pub challenger: String,
    pub target: String,
    pub target_msg: u64,
    pub pool: i64,
    pub status: String,
    pub resolution: Option<String>,
    pub messages: Vec<DisputeMessage>,
    pub judge: Option<String>,
    pub opened_at: String,
    pub resolved_at: Option<String>,
    pub turn_opened: u64,
}

// ---------------------------------------------------------------------------
// The latest row of each dispute
// ---------------------------------------------------------------------------

/// `s` without the rows of dispute `id`.
pub open spec fn drop_dispute(s: Seq<DisputeRow>, id: Seq<char>) -> Seq<DisputeRow>
    decreases s.len(),
{
    if s.len() == 0 {
        Seq::empty()
    } else if s.last().id@ == id {
        drop_dispute(s.drop_last(), id)
    } else {
        drop_dispute(s.drop_last(), id).push(s.last())
    }
}

/// The latest row of each dispute, in the order of their latest rows.
pub open spec fn latest_disputes_spec(s: Seq<DisputeRow>) -> Seq<DisputeRow>
    decreases s.len(),
{
    if s.len() == 0 {
        Seq::empty()
    } else {
        drop_dispute(latest_disputes_spec(s.drop_last()), s.last().id@).push(s.last())
    }
}

fn drop_dispute_exec(v: Vec<DisputeRow>, id: &str) -> (r: Vec<DisputeRow>)
    ensures
        r@ == drop_dispute(v@, id@),
{
    let ghost all = v@;
    let total: usize = v.len();
    let mut rest = v;
    let mut out: Vec<DisputeRow> = Vec::new();
    let mut k: usize = 0;
    assert(all.take(0) =~= Seq::<DisputeRow>::empty());
    assert(all.skip(0) =~= all);
    while rest.len() > 0
        invariant
            rest@.len() + k == all.len(),
            all.len() == total,
            rest@ == all.skip(k as int),
            out@ == drop_dispute(all.take(k as int), id@),
        decreases rest@.len(),
    {
        let d = rest.remove(0);
        proof {
            assert(d == all[k as int]);
            assert(rest@ =~= all.skip(k + 1));
            assert(all.take(k + 1).drop_last() =~= all.take(k as int));
            assert(all.take(k + 1).last() == all[k as int]);
        }
        if !str_eq(d.id.as_str(), id) {
            out.push(d);
        }
        k = k + 1;
    }
    assert(all.take(all.len() as int) =~= all);
    out
}

/// The latest row of each dispute (a later row replaces every earlier row
/// with its id), in the order of their latest rows.
pub fn latest_disputes(rows: Vec<DisputeRow>) -> (r: Vec<DisputeRow>)
    ensures
        r@ == latest_disputes_spec(rows@),
{
    let ghost all = rows@;
    let total: usize = rows.len();
    let mut rest = rows;
    let mut out: Vec<DisputeRow> = Vec::new();
    let mut k: usize = 0;
    assert(all.take(0) =~= Seq::<DisputeRow>::empty());
    assert(all.skip(0) =~= all);
    while rest.len() > 0
        invariant
            rest@.len() + k == all.len(),
            all.len() == total,
            rest@ == all.skip(k as int),
            out@ == latest_disputes_spec(all.take(k as int)),
        decreases rest@.len(),
    {
        let d = rest.remove(0);
        proof {
            assert(d == all[k as int]);
            assert(rest@ =~= all.skip(k + 1));
            assert(all.take(k + 1).drop_last() =~= all.take(k as int));
            assert(all.take(k + 1).last() == all[k as int]);
        }
        let mut kept = drop_dispute_exec(out, d.id.as_str());
        kept.push(d);
        out = kept;
        k = k + 1;
    }
    assert(all.take(all.len() as int) =~= all);
    out
}

// ---------------------------------------------------------------------------
// A seat's dispute record
// ---------------------------------------------------------------------------

/// The resolution text, empty when there is none.
pub open spec fn resolution_text(d: DisputeRow) -> Seq<char> {
    match d.resolution {
        Some(r) => r@,
        None => Seq::empty(),
    }
}

pub open spec fn conceded_by(seat: Seq<char>) -> Seq<char> {
    "conceded_by_"@ + seat
}

/// The challenger won: by ruling, or because someone other than the
/// challenger conceded.
pub open spec fn challenger_won(d: DisputeRow) -> bool {
    let r = resolution_text(d);
    r == "challenger_wins"@ || (has_prefix(r, "conceded_by_"@) && r != conceded_by(d.challenger@))
}

/// The target won: by ruling, or because the challenger conceded.
pub open spec fn target_won(d: DisputeRow) -> bool {
    let r = resolution_text(d);
    r == "target_wins"@ || r == conceded_by(d.challenger@)
}

/// `seat` won the resolved dispute `d`.
pub open spec fn dispute_won_by(d: DisputeRow, seat: Seq<char>) -> bool {
    d.status@ == "resolved"@ && if challenger_won(d) {
        d.challenger@ == seat
    } else {
        target_won(d) && d.target@ == seat
    }
}

/// `seat` lost the resolved dispute `d`.
pub open spec fn dispute_lost_by(d: DisputeRow, seat: Seq<char>) -> bool {
    d.status@ == "resolved"@ && if challenger_won(d) {
        d.challenger@ != seat && d.target@ == seat
    } else {
        target_won(d) && d.target@ != seat && d.challenger@ == seat
    }
}

/// How many disputes satisfy `f`.
pub open spec fn count_disputes(s: Seq<DisputeRow>, f: spec_fn(DisputeRow) -> bool) -> nat
    decreases s.len(),
{
    if s.len() == 0 {
        0
    } else {
        count_disputes(s.drop_last(), f) + if f(s.last()) { 1nat } else { 0nat }
    }
}

proof fn lemma_count_disputes_bound(s: Seq<DisputeRow>, f: spec_fn(DisputeRow) -> bool)
    ensures
        count_disputes(s, f) <= s.len(),
    decreases s.len(),
{
    if s.len() > 0 {
        lemma_count_disputes_bound(s.drop_last(), f);
    }
}

/// A seat's dispute record: filed, received, won, lost.
pub open spec fn dispute_record(s: Seq<DisputeRow>, seat: Seq<char>) -> (nat, nat, nat, nat) {
    (
        count_disputes(s, |d: DisputeRow| d.challenger@ == seat),
        count_disputes(s, |d: DisputeRow| d.target@ == seat),
        count_disputes(s, |d: DisputeRow| dispute_won_by(d, seat)),
        count_disputes(s, |d: DisputeRow| dispute_lost_by(d, seat)),
    )
}

fn opt_text_chars(o: &Option<String>) -> (v: Vec<char>)
    ensures
        v@ == match o {
            Some(s) => s@,
            None => Seq::<char>::empty(),
        },
{
    match o {
        Some(s) => chars_of(s.as_str()),
        None => Vec::new(),
    }
}

/// Who won dispute `d`: (challenger won, target won).
fn dispute_outcome(d: &DisputeRow) -> (r: (bool, bool))
    ensures
        r.0 == challenger_won(*d),
        r.1 == target_won(*d),
{
    let res = opt_text_chars(&d.resolution);
    let mut conceded: Vec<char> = Vec::new();
    push_str(&mut conceded, "conceded_by_");
    let mut by_challenger: Vec<char> = Vec::new();
    push_str(&mut by_challenger, "conceded_by_");
    push_str(&mut by_challenger, d.challenger.as_str());
    let mut cw: Vec<char> = Vec::new();
    push_str(&mut cw, "challenger_wins");
    let mut tw: Vec<char> = Vec::new();
    push_str(&mut tw, "target_wins");
    proof {
        reveal_strlit("conceded_by_");
        reveal_strlit("challenger_wins");
        reveal_strlit("target_wins");
        assert(conceded@ =~= "conceded_by_"@);
        assert(by_challenger@ =~= conceded_by(d.challenger@));
        assert(cw@ =~= "challenger_wins"@);
        assert(tw@ =~= "target_wins"@);
    }
    let is_cw = chars_eq(&res, &cw);
    let is_concession = chars_starts_with(&res, &conceded);
    let by_ch = chars_eq(&res, &by_challenger);
    let is_tw = chars_eq(&res, &tw);
    (is_cw || (is_concession && !by_ch), is_tw || by_ch)
}

/// `seat`'s dispute record over `disputes`: (filed, received, won, lost).
pub fn seat_dispute_record(disputes: &Vec<DisputeRow>, seat: &str) -> (r: (u64, u64, u64, u64))
    ensures
        r.0 == dispute_record(disputes@, seat@).0,
        r.1 == dispute_record(disputes@, seat@).1,
        r.2 == dispute_record(disputes@, seat@).2,
        r.3 == dispute_record(disputes@, seat@).3,
{
    let ghost f_filed = |d: DisputeRow| d.challenger@ == seat@;
    let ghost f_recv = |d: DisputeRow| d.target@ == seat@;
    let ghost f_won = |d: DisputeRow| dispute_won_by(d, seat@);
    let ghost f_lost = |d: DisputeRow| dispute_lost_by(d, seat@);
    let mut filed: u64 = 0;
    let mut recv: u64 = 0;
    let mut won: u64 = 0;
    let mut lost: u64 = 0;
    let mut i: usize = 0;
    assert(disputes@.take(0) =~= Seq::<DisputeRow>::empty());
    while i < disputes.len()
        invariant
            i <= disputes.len(),
            filed == count_disputes(disputes@.take(i as int), f_filed),
            recv == count_disputes(disputes@.take(i as int), f_recv),
            won == count_disputes(disputes@.take(i as int), f_won),
            lost == count_disputes(disputes@.take(i as int), f_lost),
            f_filed == (|d: DisputeRow| d.challenger@ == seat@),
            f_recv == (|d: DisputeRow| d.target@ == seat@),
            f_won == (|d: DisputeRow| dispute_won_by(d, seat@)),
            f_lost == (|d: DisputeRow| dispute_lost_by(d, seat@)),
        decreases disputes.len() - i,
    {
        let ghost pre = disputes@.take(i as int);
        let d = &disputes[i];
        proof {
            assert(disputes@.take(i + 1).drop_last() =~= pre);
            assert(disputes@.take(i + 1).last() == *d);
            lemma_count_disputes_bound(pre, f_filed);
            lemma_count_disputes_bound(pre, f_recv);
            lemma_count_disputes_bound(pre, f_won);
            lemma_count_disputes_bound(pre, f_lost);
        }
        let is_ch = str_eq(d.challenger.as_str(), seat);
        let is_tg = str_eq(d.target.as_str(), seat);
        if is_ch {
            filed = filed + 1;
        }
        if is_tg {
            recv = recv + 1;
        }
        if str_eq(d.status.as_str(), "resolved") {
            let (cwon, twon) = dispute_outcome(d);
            if cwon {
                if is_ch {
                    won = won + 1;
                } else if is_tg {
                    lost = lost + 1;
                }
            } else if twon {
                if is_tg {
                    won = won + 1;
                } else if is_ch {
                    lost = lost + 1;
                }
            }
        }
        proof {
            reveal_strlit("resolved");
        }
        i = i + 1;
    }
    assert(disputes@.take(disputes.len() as int) =~= disputes@);
    (filed, recv, won, lost)
}

// ---------------------------------------------------------------------------
// A seat's ledger rows
// ---------------------------------------------------------------------------

/// What a seat's ledger rows add up to.
pub struct LedgerTally {
    pub starting: int,
    pub earned: int,
    pub lost: int,
    pub speaks: nat,
    pub edits: nat,
    pub tests: nat,
    pub passes: nat,
    pub adversarial: nat,
}

/// Row types that credit the seat.
pub open spec fn is_earning(t: Seq<char>) -> bool {
    t == "credit"@ || t == "escrow_release"@ || t == "interest"@ || t == "passive"@ || t == "bounty_earn"@
}

/// Row types that charge the seat.
pub open spec fn is_losing(t: Seq<char>) -> bool {
    t == "penalty"@ || t == "clawback"@ || t == "debit"@ || t == "bounty_stake"@
}

/// A charge whose reason names an adversarial pass (in any case).
pub open spec fn adversarial_reason(reason: Seq<char>) -> bool {
    contains_seq(lowercase_of(reason), "adversarial pass"@)
}

pub open spec fn abs_of(a: i64) -> int {
    if a < 0 {
        -(a as int)
    } else {
        a as int
    }
}

/// The effect of one of the seat's rows on its money tally.
pub open spec fn tally_money(t: LedgerTally, r: LedgerRow) -> LedgerTally {
    let ty = r.txn_type@;
    if ty == "init"@ {
        LedgerTally { starting: r.amount as int, ..t }
    } else if is_earning(ty) {
        if r.amount > 0 {
            LedgerTally { earned: t.earned + r.amount, ..t }
        } else {
            t
        }
    } else if is_losing(ty) {
        LedgerTally {
            lost: t.lost + abs_of(r.amount),
            adversarial: t.adversarial + if adversarial_reason(r.reason@) { 1nat } else { 0nat },
            ..t
        }
    } else {
        t
    }
}

/// The effect of one of the seat's rows on its action counts.
pub open spec fn tally_action(t: LedgerTally, k: Option<ActionKind>) -> LedgerTally {
    match k {
        Some(ActionKind::Speak) => LedgerTally { speaks: t.speaks + 1, ..t },
        Some(ActionKind::Edit) => LedgerTally { edits: t.edits + 1, ..t },
        Some(ActionKind::Test) => LedgerTally { tests: t.tests + 1, ..t },
        Some(ActionKind::Pass) => LedgerTally { passes: t.passes + 1, ..t },
        _ => t,
    }
}

/// The tally of `seat`'s rows of `rows`: the last `init` amount as the
/// starting balance (the default starting balance without one), credits
/// earned, charges lost, actions by kind, and adversarial-pass charges.
pub open spec fn tally(rows: Seq<LedgerRow>, seat: Seq<char>) -> LedgerTally
    decreases rows.len(),
{
    if rows.len() == 0 {
        LedgerTally {
            starting: STARTING_BALANCE_COPPER as int,
            earned: 0,
            lost: 0,
            speaks: 0,
            edits: 0,
            tests: 0,
            passes: 0,
            adversarial: 0,
        }
    } else if rows.last().seat@ == seat {
        tally_action(tally_money(tally(rows.drop_last(), seat), rows.last()), rows.last().action_kind)
    } else {
        tally(rows.drop_last(), seat)
    }
}

proof fn lemma_tally_grows(rows: Seq<LedgerRow>, seat: Seq<char>, i: int)
    requires
        0 <= i <= rows.len(),
    ensures
        0 <= tally(rows.take(i), seat).earned <= tally(rows, seat).earned,
        0 <= tally(rows.take(i), seat).lost <= tally(rows, seat).lost,
        tally(rows, seat).speaks <= rows.len(),
        tally(rows, seat).edits <= rows.len(),
        tally(rows, seat).tests <= rows.len(),
        tally(rows, seat).passes <= rows.len(),
        tally(rows, seat).adversarial <= rows.len(),
    decreases rows.len(),
{
    if rows.len() > 0 {
        if i == rows.len() {
            assert(rows.take(i) =~= rows);
            lemma_tally_grows(rows.drop_last(), seat, rows.len() - 1);
        } else {
            assert(rows.take(i) =~= rows.drop_last().take(i));
            lemma_tally_grows(rows.drop_last(), seat, i);
        }
    } else {
        assert(rows.take(i) =~= rows);
    }
}

/// A seat's ledger tally as machine integers.
struct Tally {
    starting: i64,
    earned: i64,
    lost: i64,
    speaks: u64,
    edits: u64,
    tests: u64,
    passes: u64,
    adversarial: u64,
}

/// `seat`'s tally over the ledger.
fn seat_tally(ledger: &Vec<LedgerRow>, seat: &str) -> (r: Tally)
    requires
        tally(ledger@, seat@).earned <= i64::MAX,
        tally(ledger@, seat@).lost <= i64::MAX,
    ensures
        r.starting == tally(ledger@, seat@).starting,
        r.earned == tally(ledger@, seat@).earned,
        r.lost == tally(ledger@, seat@).lost,
        r.speaks == tally(ledger@, seat@).speaks,
        r.edits == tally(ledger@, seat@).edits,
        r.tests == tally(ledger@, seat@).tests,
        r.passes == tally(ledger@, seat@).passes,
        r.adversarial == tally(ledger@, seat@).adversarial,
{
    let mut starting: i64 = STARTING_BALANCE_COPPER;
    let mut earned: i64 = 0;
    let mut lost: i64 = 0;
    let mut speaks: u64 = 0;
    let mut edits: u64 = 0;
    let mut tests: u64 = 0;
    let mut passes: u64 = 0;
    let mut adv: u64 = 0;
    let mut i: usize = 0;
    let mut needle: Vec<char> = Vec::new();
    push_str(&mut needle, "adversarial pass");
    proof {
        reveal_strlit("adversarial pass");
        assert(needle@ =~= "adversarial pass"@);
        assert(ledger@.take(0) =~= Seq::<LedgerRow>::empty());
    }
    while i < ledger.len()
        invariant
            i <= ledger.len(),
            needle@ == "adversarial pass"@,
            tally(ledger@, seat@).earned <= i64::MAX,
            tally(ledger@, seat@).lost <= i64::MAX,
            starting == tally(ledger@.take(i as int), seat@).starting,
            earned == tally(ledger@.take(i as int), seat@).earned,
            lost == tally(ledger@.take(i as int), seat@).lost,
            speaks == tally(ledger@.take(i as int), seat@).speaks,
            edits == tally(ledger@.take(i as int), seat@).edits,
            tests == tally(ledger@.take(i as int), seat@).tests,
            passes == tally(ledger@.take(i as int), seat@).passes,
            adv == tally(ledger@.take(i as int), seat@).adversarial,
        decreases ledger.len() - i,
    {
        let r = &ledger[i];
        let ghost pre = ledger@.take(i as int);
        let ghost next = ledger@.take(i + 1);
        proof {
            assert(next.drop_last() =~= pre);
            assert(next.last() == *r);
            lemma_tally_grows(ledger@, seat@, i + 1);
            lemma_tally_grows(next, seat@, i as int);
            assert(next.take(i as int) =~= pre);
            lemma_tally_grows(pre, seat@, 0);
        }
        if str_eq(r.seat.as_str(), seat) {
            let ty = r.txn_type.as_str();
            proof {
                reveal_strlit("init");
                reveal_strlit("credit");
                reveal_strlit("escrow_release");
                reveal_strlit("interest");
                reveal_strlit("passive");
                reveal_strlit("bounty_earn");
                reveal_strlit("penalty");
                reveal_strlit("clawback");
                reveal_strlit("debit");
                reveal_strlit("bounty_stake");
            }
            if str_eq(ty, "init") {
                starting = r.amount;
            } else if str_eq(ty, "credit") || str_eq(ty, "escrow_release") || str_eq(ty, "interest")
                || str_eq(ty, "passive") || str_eq(ty, "bounty_earn") {
                if r.amount > 0 {
                    earned = earned + r.amount;
                }
            } else if str_eq(ty, "penalty") || str_eq(ty, "clawback") || str_eq(ty, "debit") || str_eq(
                ty,
                "bounty_stake",
            ) {
                let a: i64 = if r.amount < 0 {
                    -r.amount
                } else {
                    r.amount
                };
                lost = lost + a;
                let low = to_lowercase(r.reason.as_str());
                let low_chars = chars_of(low.as_str());
                if chars_contains(&low_chars, &needle) {
                    adv = adv + 1;
                }
            }
            match r.action_kind {
                Some(ActionKind::Speak) => {
                    speaks = speaks + 1;
                },
                Some(ActionKind::Edit) => {
                    edits = edits + 1;
                },
                Some(ActionKind::Test) => {
                    tests = tests + 1;
                },
                Some(ActionKind::Pass) => {
                    passes = passes + 1;
                },
                _ => {},
            }
        }
        i = i + 1;
    }
    assert(ledger@.take(ledger.len() as int) =~= ledger@);
    Tally { starting, earned, lost, speaks, edits, tests, passes, adversarial: adv }
}

// ---------------------------------------------------------------------------
// A seat's figures
// ---------------------------------------------------------------------------

/// A seat's end-of-session figures.
#[derive(Debug, Clone, Copy)]
pub struct SeatSessionStats {
    pub final_balance: i64,
    pub starting_balance: i64,
    pub total_earned: i64,
    pub total_lost: i64,
    pub speaks: u64,
    pub edits: u64,
    pub tests: u64,
    pub passes: u64,
    pub objections_filed: u64,
    pub objections_received: u64,
    pub disputes_won: u64,
    pub disputes_lost: u64,
    pub bounties_completed: u64,
    pub times_timed_out: u64,
    pub adversarial_pass_penalties: u64,
}

/// `b` is claimed by `seat`.
pub open spec fn claimed_by(b: BountyRow, seat: Seq<char>) -> bool {
    match b.claimant {
        Some(c) => c@ == seat,
        None => false,
    }
}

/// How many of the bounties were approved with `seat` as claimant.
pub open spec fn completed_bounties(s: Seq<BountyRow>, seat: Seq<char>) -> nat
    decreases s.len(),
{
    if s.len() == 0 {
        0
    } else {
        completed_bounties(s.drop_last(), seat) + if s.last().status@ == "approved"@ && claimed_by(
            s.last(),
            seat,
        ) {
            1nat
        } else {
            0nat
        }
    }
}

proof fn lemma_completed_bound(s: Seq<BountyRow>, seat: Seq<char>)
    ensures
        completed_bounties(s, seat) <= s.len(),
    decreases s.len(),
{
    if s.len() > 0 {
        lemma_completed_bound(s.drop_last(), seat);
    }
}

/// `seat`'s figures: balance and time-out flag from the balances (the default
/// starting balance and not timed out for a seat without one), the ledger
/// tally, the dispute record over `disputes` (latest rows), and the
/// bounties it completed.
pub open spec fn seat_stats_spec(
    seat: Seq<char>,
    bal: crate::currency::SeatSeq,
    ledger: Seq<LedgerRow>,
    disputes: Seq<DisputeRow>,
    bounties: Seq<BountyRow>,
) -> SeatSessionStats {
    let t = tally(ledger, seat);
    let d = dispute_record(disputes, seat);
    let m = seat_lookup(bal, seat);
    SeatSessionStats {
        final_balance: match m {
            Some(m) => m.balance,
            None => STARTING_BALANCE_COPPER,
        },
        starting_balance: t.starting as i64,
        total_earned: t.earned as i64,
        total_lost: t.lost as i64,
        speaks: t.speaks as u64,
        edits: t.edits as u64,
        tests: t.tests as u64,
        passes: t.passes as u64,
        objections_filed: d.0 as u64,
        objections_received: d.1 as u64,
        disputes_won: d.2 as u64,
        disputes_lost: d.3 as u64,
        bounties_completed: completed_bounties(bounties, seat) as u64,
        times_timed_out: match m {
            Some(m) => if m.timed_out { 1 } else { 0 },
            None => 0,
        },
        adversarial_pass_penalties: t.adversarial as u64,
    }
}

fn count_completed(bounties: &BountyTable, seat: &str) -> (n: u64)
    ensures
        n == completed_bounties(bounties@, seat@),
{
    let mut n: u64 = 0;
    let mut i: usize = 0;
    assert(bounties@.take(0) =~= Seq::<BountyRow>::empty());
    while i < bounties.len()
        invariant
            i <= bounties@.len(),
            n == completed_bounties(bounties@.take(i as int), seat@),
        decreases bounties@.len() - i,
    {
        let b = bounties.entry_at(i);
        proof {
            assert(bounties@.take(i + 1).drop_last() =~= bounties@.take(i as int));
            assert(bounties@.take(i + 1).last() == *b);
            lemma_completed_bound(bounties@.take(i as int), seat@);
            reveal_strlit("approved");
        }
        let claimed = match &b.claimant {
            Some(c) => str_eq(c.as_str(), seat),
            None => false,
        };
        if str_eq(b.status.as_str(), "approved") && claimed {
            n = n + 1;
        }
        i = i + 1;
    }
    assert(bounties@.take(bounties@.len() as int) =~= bounties@);
    n
}

/// `seat`'s end-of-session figures (`disputes` holds the latest row of each
/// dispute).
pub fn seat_stats(
    seat: &str,
    bal: &BalancesSnapshot,
    ledger: &Vec<LedgerRow>,
    disputes: &Vec<DisputeRow>,
    bounties: &BountyTable,
) -> (r: SeatSessionStats)
    requires
        tally(ledger@, seat@).earned <= i64::MAX,
        tally(ledger@, seat@).lost <= i64::MAX,
    ensures
        r == seat_stats_spec(seat@, bal.seats@, ledger@, disputes@, bounties@),
{
    let t = seat_tally(ledger, seat);
    let (filed, recv, won, lost) = seat_dispute_record(disputes, seat);
    let (final_balance, timed_out) = match bal.seats.get(seat) {
        Some(sb) => (sb.balance, sb.timed_out),
        None => (STARTING_BALANCE_COPPER, false),
    };
    SeatSessionStats {
        final_balance,
        starting_balance: t.starting,
        total_earned: t.earned,
        total_lost: t.lost,
        speaks: t.speaks,
        edits: t.edits,
        tests: t.tests,
        passes: t.passes,
        objections_filed: filed,
        objections_received: recv,
        disputes_won: won,
        disputes_lost: lost,
        bounties_completed: count_completed(bounties, seat),
        times_timed_out: if timed_out {
            1
        } else {
            0
        },
        adversarial_pass_penalties: t.adversarial,
    }
}

// ---------------------------------------------------------------------------
// The session snapshot
// ---------------------------------------------------------------------------

/// The end-of-session snapshot: date and time of the session's end, its
/// length in turns, each seat's figures (seats in text order), and the money
/// destroyed into the pool or by expired bounties.
#[derive(Debug, Clone)]
pub struct SessionSnapshot {
    pub session_date: String,
    pub session_end_ts: String,
    pub duration_turns: u64,
    pub seats: Vec<(String, SeatSessionStats)>,
    pub total_pool_destroyed: i64,
}

/// The seats a snapshot covers: every seat with a balance, and every seat
/// of a ledger row other than the pool.
pub open spec fn snapshot_seats(bal: crate::currency::SeatSeq, ledger: Seq<LedgerRow>) -> Set<Seq<char>> {
    Set::new(
        |k: Seq<char>|
            (exists|i: int| 0 <= i < bal.len() && #[trigger] bal[i].0 == k) || (exists|i: int|
                0 <= i < ledger.len() && #[trigger] ledger[i].seat@ == k && k != "system:pool"@),
    )
}

/// Rows that destroy money.
pub open spec fn destroys(r: LedgerRow) -> bool {
    r.txn_type@ == "pool_destroyed"@ || r.txn_type@ == "bounty_expire"@
}

/// The money destroyed by the ledger's rows.
pub open spec fn destroyed_total(rows: Seq<LedgerRow>) -> int
    decreases rows.len(),
{
    if rows.len() == 0 {
        0
    } else {
        destroyed_total(rows.drop_last()) + if destroys(rows.last()) {
            abs_of(rows.last().amount)
        } else {
            0
        }
    }
}

proof fn lemma_destroyed_grows(rows: Seq<LedgerRow>, i: int)
    requires
        0 <= i <= rows.len(),
    ensures
        0 <= destroyed_total(rows.take(i)) <= destroyed_total(rows),
    decreases rows.len(),
{
    if rows.len() > 0 {
        if i == rows.len() {
            assert(rows.take(i) =~= rows);
            lemma_destroyed_grows(rows.drop_last(), rows.len() - 1);
        } else {
            assert(rows.take(i) =~= rows.drop_last().take(i));
            lemma_destroyed_grows(rows.drop_last(), i);
        }
    } else {
        assert(rows.take(i) =~= rows);
    }
}

fn destroyed_sum(ledger: &Vec<LedgerRow>) -> (n: i64)
    requires
        destroyed_total(ledger@) <= i64::MAX,
    ensures
        n == destroyed_total(ledger@),
{
    let mut n: i64 = 0;
    let mut i: usize = 0;
    assert(ledger@.take(0) =~= Seq::<LedgerRow>::empty());
    while i < ledger.len()
        invariant
            i <= ledger.len(),
            destroyed_total(ledger@) <= i64::MAX,
            n == destroyed_total(ledger@.take(i as int)),
        decreases ledger.len() - i,
    {
        let r = &ledger[i];
        proof {
            assert(ledger@.take(i + 1).drop_last() =~= ledger@.take(i as int));
            assert(ledger@.take(i + 1).last() == *r);
            lemma_destroyed_grows(ledger@, i + 1);
            lemma_destroyed_grows(ledger@.take(i as int), 0);
            reveal_strlit("pool_destroyed");
            reveal_strlit("bounty_expire");
        }
        if str_eq(r.txn_type.as_str(), "pool_destroyed") || str_eq(r.txn_type.as_str(), "bounty_expire") {
            let a: i64 = if r.amount < 0 {
                -r.amount
            } else {
                r.amount
            };
            n = n + a;
        }
        i = i + 1;
    }
    assert(ledger@.take(ledger.len() as int) =~= ledger@);
    n
}

/// The seats of a snapshot in text order, each once.
pub fn snapshot_seat_list(bal: &BalancesSnapshot, ledger: &Vec<LedgerRow>) -> (v: Vec<String>)
    ensures
        ascending(texts(v@)),
        texts(v@).to_set() == snapshot_seats(bal.seats@, ledger@),
{
    let labels = bal.seats.labels();
    let mut v: Vec<String> = Vec::new();
    let mut i: usize = 0;
    assert(texts(v@).to_set() =~= Set::<Seq<char>>::empty());
    while i < labels.len()
        invariant
            i <= labels.len(),
            labels@.len() == bal.seats@.len(),
            forall|j: int| 0 <= j < labels@.len() ==> labels@[j]@ == bal.seats@[j].0,
            ascending(texts(v@)),
            texts(v@).to_set() == Set::new(|k: Seq<char>| exists|j: int| 0 <= j < i && #[trigger] bal.seats@[j].0 == k),
        decreases labels.len() - i,
    {
        let ghost before = texts(v@).to_set();
        let s = labels[i].clone();
        insert_ascending(&mut v, s);
        proof {
            assert(texts(v@).to_set() =~= Set::new(|k: Seq<char>| exists|j: int| 0 <= j < i + 1 && #[trigger] bal.seats@[j].0 == k)) by {
                assert forall|k: Seq<char>| #[trigger] texts(v@).to_set().contains(k) <==> (exists|j: int| 0 <= j < i + 1 && #[trigger] bal.seats@[j].0 == k) by {
                    if k == labels@[i as int]@ {
                        assert(bal.seats@[i as int].0 == k);
                    }
                    if exists|j: int| 0 <= j < i + 1 && #[trigger] bal.seats@[j].0 == k {
                        let j = choose|j: int| 0 <= j < i + 1 && #[trigger] bal.seats@[j].0 == k;
                        if j < i {
                            assert(before.contains(k));
                        }
                    }
                }
            }
        }
        i = i + 1;
    }
    let mut n: usize = 0;
    while n < ledger.len()
        invariant
            n <= ledger.len(),
            labels@.len() == bal.seats@.len(),
            ascending(texts(v@)),
            texts(v@).to_set() == Set::new(
                |k: Seq<char>|
                    (exists|j: int| 0 <= j < bal.seats@.len() && #[trigger] bal.seats@[j].0 == k) || (exists|j: int|
                        0 <= j < n && #[trigger] ledger@[j].seat@ == k && k != "system:pool"@),
            ),
        decreases ledger.len() - n,
    {
        let ghost before = texts(v@).to_set();
        proof {
            reveal_strlit("system:pool");
        }
        if !str_eq(ledger[n].seat.as_str(), "system:pool") {
            let s = ledger[n].seat.clone();
            insert_ascending(&mut v, s);
        }
        proof {
            let target = Set::new(
                |k: Seq<char>|
                    (exists|j: int| 0 <= j < bal.seats@.len() && #[trigger] bal.seats@[j].0 == k) || (exists|j: int|
                        0 <= j < n + 1 && #[trigger] ledger@[j].seat@ == k && k != "system:pool"@),
            );
            assert forall|k: Seq<char>| #[trigger] texts(v@).to_set().contains(k) <==> target.contains(k) by {
                if exists|j: int| 0 <= j < n + 1 && #[trigger] ledger@[j].seat@ == k && k != "system:pool"@ {
                    let j = choose|j: int| 0 <= j < n + 1 && #[trigger] ledger@[j].seat@ == k && k != "system:pool"@;
                    if j < n {
                        assert(before.contains(k));
                    }
                }
            }
            assert(texts(v@).to_set() =~= target);
        }
        n = n + 1;
    }
    assert(texts(v@).to_set() =~= snapshot_seats(bal.seats@, ledger@));
    v
}

/// The first ten characters of a timestamp: its date.
pub open spec fn date_part(ts: Seq<char>) -> Seq<char> {
    if ts.len() >= 10 {
        ts.subrange(0, 10)
    } else {
        Seq::empty()
    }
}

/// Every seat's tally fits in machine integers, and so does the money destroyed.
pub open spec fn snapshot_fits(bal: crate::currency::SeatSeq, ledger: Seq<LedgerRow>) -> bool {
    &&& forall|k: Seq<char>| #[trigger] snapshot_seats(bal, ledger).contains(k) ==> tally(ledger, k).earned <= i64::MAX
        && tally(ledger, k).lost <= i64::MAX
    &&& destroyed_total(ledger) <= i64::MAX
}

/// The snapshot of a session that ends `secs` seconds after the epoch.
/// `dispute_rows` and `bounty_rows` are the disputes and bounties logs in
/// order; the latest row of each dispute and bounty counts.
pub fn session_snapshot_at(
    secs: u64,
    bal: &BalancesSnapshot,
    ledger: &Vec<LedgerRow>,
    dispute_rows: Vec<DisputeRow>,
    bounty_rows: Vec<BountyRow>,
) -> (r: SessionSnapshot)
    requires
        snapshot_fits(bal.seats@, ledger@),
    ensures
        r.session_end_ts@ == iso_text(secs),
        r.session_date@ == date_part(iso_text(secs)),
        r.duration_turns == bal.turn_counter,
        r.total_pool_destroyed == destroyed_total(ledger@),
        ascending(texts(r.seats@.map_values(|e: (String, SeatSessionStats)| e.0))),
        texts(r.seats@.map_values(|e: (String, SeatSessionStats)| e.0)).to_set() == snapshot_seats(bal.seats@, ledger@),
        forall|i: int|
            0 <= i < r.seats@.len() ==> (#[trigger] r.seats@[i]).1 == seat_stats_spec(
                r.seats@[i].0@,
                bal.seats@,
                ledger@,
                latest_disputes_spec(dispute_rows@),
                crate::currency::bounties_from(bounty_rows@),
            ),
{
    let disputes = latest_disputes(dispute_rows);
    let bounties = crate::currency::latest_bounties(bounty_rows);
    let names = snapshot_seat_list(bal, ledger);
    let mut seats: Vec<(String, SeatSessionStats)> = Vec::new();
    let mut i: usize = 0;
    while i < names.len()
        invariant
            i <= names.len(),
            snapshot_fits(bal.seats@, ledger@),
            texts(names@).to_set() == snapshot_seats(bal.seats@, ledger@),
            disputes@ == latest_disputes_spec(dispute_rows@),
            bounties@ == crate::currency::bounties_from(bounty_rows@),
            seats@.len() == i,
            forall|j: int| 0 <= j < i ==> (#[trigger] seats@[j]).0@ == names@[j]@,
            forall|j: int|
                0 <= j < i ==> (#[trigger] seats@[j]).1 == seat_stats_spec(
                    seats@[j].0@,
                    bal.seats@,
                    ledger@,
                    disputes@,
                    bounties@,
                ),
        decreases names.len() - i,
    {
        let name = &names[i];
        proof {
            assert(texts(names@)[i as int] == name@);
            assert(texts(names@).to_set().contains(name@));
        }
        let st = seat_stats(name.as_str(), bal, ledger, &disputes, &bounties);
        seats.push((name.clone(), st));
        i = i + 1;
    }
    proof {
        assert(texts(seats@.map_values(|e: (String, SeatSessionStats)| e.0)) =~= texts(names@));
    }
    let end = format_iso(secs);
    let chars = chars_of(end.as_str());
    let mut date_chars: Vec<char> = Vec::new();
    if chars.len() >= 10 {
        let mut k: usize = 0;
        while k < 10
            invariant
                k <= 10,
                chars.len() >= 10,
                date_chars@ == chars@.subrange(0, k as int),
            decreases 10 - k,
        {
            date_chars.push(chars[k]);
            proof {
                assert(chars@.subrange(0, k + 1) =~= chars@.subrange(0, k as int).push(chars@[k as int]));
            }
            k = k + 1;
        }
    }
    let date = string_from_chars(&date_chars);
    proof {
        if chars@.len() < 10 {
            assert(date_chars@ =~= Seq::<char>::empty());
        }
    }
    SessionSnapshot {
        session_date: date,
        session_end_ts: end,
        duration_turns: bal.turn_counter,
        seats,
        total_pool_destroyed: destroyed_sum(ledger),
    }
}

/// The snapshot of the session as it ends now, by the system clock.
pub fn build_session_snapshot(
    bal: &BalancesSnapshot,
    ledger: &Vec<LedgerRow>,
    dispute_rows: Vec<DisputeRow>,
    bounty_rows: Vec<BountyRow>,
) -> (r: SessionSnapshot)
    requires
        snapshot_fits(bal.seats@, ledger@),
    ensures
        exists|secs: u64|
            r.session_end_ts@ == iso_text(secs) && r.session_date@ == date_part(iso_text(secs)),
        r.duration_turns == bal.turn_counter,
        r.total_pool_destroyed == destroyed_total(ledger@),
        ascending(texts(r.seats@.map_values(|e: (String, SeatSessionStats)| e.0))),
        texts(r.seats@.map_values(|e: (String, SeatSessionStats)| e.0)).to_set() == snapshot_seats(bal.seats@, ledger@),
        forall|i: int|
            0 <= i < r.seats@.len() ==> (#[trigger] r.seats@[i]).1 == seat_stats_spec(
                r.seats@[i].0@,
                bal.seats@,
                ledger@,
                latest_disputes_spec(dispute_rows@),
                crate::currency::bounties_from(bounty_rows@),
            ),
{
    session_snapshot_at(clock_secs(), bal, ledger, dispute_rows, bounty_rows)
}

// ---------------------------------------------------------------------------
// Snapshot file names
// ---------------------------------------------------------------------------

/// `u32::from_str` on bytes: an optional `+`, then one or more ASCII
/// digits, the value in range.
pub open spec fn parse_u32_spec(b: Seq<u8>) -> Option<u32> {
    match parse_u64_spec(b) {
        Some(v) => if v <= u32::MAX {
            Some(v as u32)
        } else {
            None
        },
        None => None,
    }
}

/// The sequence number of a snapshot file `<date>-<n>.json` (bytes of the
/// name and the date), `None` for any other name.
pub open spec fn snapshot_seq(name: Seq<u8>, date: Seq<u8>) -> Option<u32> {
    let plen = date.len() + 1;
    if name.len() >= plen + 5 && name.take(plen as int) == date.push(45u8) && name.skip(name.len() - 5) == seq![
        46u8,
        106u8,
        115u8,
        111u8,
        110u8,
    ] {
        parse_u32_spec(name.subrange(plen as int, name.len() - 5))
    } else {
        None
    }
}

/// The largest sequence number among the names (0 when none has one).
pub open spec fn max_seq(names: Seq<Seq<u8>>, date: Seq<u8>) -> u32
    decreases names.len(),
{
    if names.len() == 0 {
        0
    } else {
        let m = max_seq(names.drop_last(), date);
        match snapshot_seq(names.last(), date) {
            Some(n) => if n > m {
                n
            } else {
                m
            },
            None => m,
        }
    }
}

pub(crate) fn parse_u32_bytes(b: &[u8], lo: usize, hi: usize) -> (r: Option<u32>)
    requires
        lo <= hi <= b@.len(),
    ensures
        r == parse_u32_spec(b@.subrange(lo as int, hi as int)),
{
    let ghost d = b@.subrange(lo as int, hi as int);
    let start = if lo < hi && b[lo] == 43 {
        lo + 1
    } else {
        lo
    };
    proof {
        if lo < hi && b@[lo as int] == 43 {
            assert(d.skip(1) =~= b@.subrange(start as int, hi as int));
        } else {
            assert(d =~= b@.subrange(start as int, hi as int));
        }
    }
    if start >= hi {
        return None;
    }
    match digit_run(b, start, hi) {
        Some(v) => if v <= 4294967295 {
            Some(v as u32)
        } else {
            None
        },
        None => None,
    }
}

fn bytes_match(b: &[u8], at: usize, p: &[u8]) -> (r: bool)
    requires
        at + p@.len() <= b@.len(),
    ensures
        r == (b@.subrange(at as int, at + p@.len()) == p@),
{
    let n = b.len();
    let mut i: usize = 0;
    while i < p.len()
        invariant
            i <= p@.len(),
            n == b@.len(),
            at + p@.len() <= b@.len(),
            forall|k: int| 0 <= k < i ==> b@[at + k] == p@[k],
        decreases p@.len() - i,
    {
        if b[at + i] != p[i] {
            assert(b@.subrange(at as int, at + p@.len())[i as int] != p@[i as int]);
            return false;
        }
        i = i + 1;
    }
    assert(b@.subrange(at as int, at + p@.len()) =~= p@);
    true
}

/// The sequence number of snapshot file `name` for `date`.
pub fn snapshot_file_seq(name: &str, date: &str) -> (r: Option<u32>)
    ensures
        r == snapshot_seq(bytes_of(name), bytes_of(date)),
{
    let b = name.as_bytes();
    let d = date.as_bytes();
    let suffix: [u8; 5] = [46, 106, 115, 111, 110];
    let sfx = suffix.as_slice();
    let bl = b.len();
    let dl = d.len();
    if dl > bl || bl - dl < 6 {
        return None;
    }
    let plen = d.len() + 1;
    let ok_prefix = bytes_match(b, 0, d) && b[d.len()] == 45;
    let ok_suffix = bytes_match(b, b.len() - 5, sfx);
    proof {
        assert(sfx@ =~= seq![46u8, 106u8, 115u8, 111u8, 110u8]);
        assert(b@.subrange(b@.len() - 5, b@.len() as int) =~= b@.skip(b@.len() - 5));
        let pre = d@.push(45u8);
        if b@.subrange(0, d@.len() as int) == d@ && b@[d@.len() as int] == 45 {
            assert(b@.take(plen as int) =~= pre);
        }
        if b@.take(plen as int) == pre {
            assert(b@.subrange(0, d@.len() as int) =~= d@) by {
                assert forall|k: int| 0 <= k < d@.len() implies b@.subrange(0, d@.len() as int)[k] == d@[k] by {
                    assert(b@.take(plen as int)[k] == pre[k]);
                }
            }
            assert(b@.take(plen as int)[d@.len() as int] == pre[d@.len() as int]);
        }
    }
    if ok_prefix && ok_suffix {
        parse_u32_bytes(b, plen, b.len() - 5)
    } else {
        None
    }
}

/// The sequence number for a new snapshot of `date`: one past the largest
/// among the existing file names (`None` when that largest is `u32::MAX`).
pub fn next_snapshot_seq(names: &Vec<String>, date: &str) -> (n: Option<u32>)
    ensures
        match n {
            Some(v) => v == max_seq(names@.map_values(|s: String| vstd::utf8::encode_utf8(s@)), bytes_of(date)) + 1,
            None => max_seq(names@.map_values(|s: String| vstd::utf8::encode_utf8(s@)), bytes_of(date)) == u32::MAX,
        },
{
    let ghost all = names@.map_values(|s: String| vstd::utf8::encode_utf8(s@));
    let mut m: u32 = 0;
    let mut i: usize = 0;
    assert(all.take(0) =~= Seq::<Seq<u8>>::empty());
    while i < names.len()
        invariant
            i <= names.len(),
            all == names@.map_values(|s: String| vstd::utf8::encode_utf8(s@)),
            m == max_seq(all.take(i as int), bytes_of(date)),
        decreases names.len() - i,
    {
        let nm = names[i].as_str();
        proof {
            assert(all.take(i + 1).drop_last() =~= all.take(i as int));
            assert(bytes_of(nm) == vstd::utf8::encode_utf8(names@[i as int]@));
            assert(all.take(i + 1).last() == bytes_of(nm));
        }
        match snapshot_file_seq(nm, date) {
            Some(n) => if n > m {
                m = n;
            },
            None => {},
        }
        i = i + 1;
    }
    assert(all.take(names.len() as int) =~= all);
    if m == u32::MAX {
        None
    } else {
        Some(m + 1)
    }
}


// ---------------------------------------------------------------------------
// Rulings and the dispute counts
// ---------------------------------------------------------------------------

proof fn lemma_count_push(s: Seq<DisputeRow>, d: DisputeRow, f: spec_fn(DisputeRow) -> bool)
    ensures
        count_disputes(s.push(d), f) == count_disputes(s, f) + if f(d) { 1nat } else { 0nat },
{
    assert(s.push(d).drop_last() =~= s);
}

/// A resolved ruling between two different seats counts once for each of
/// them: with the resolution `target_wins`, one more dispute won for the
/// target and one more dispute lost for the challenger; with
/// `challenger_wins`, one more won for the challenger and one more lost for
/// the target. The other count of each seat stays as it was.
pub proof fn law_ruling_counts(
    bal: crate::currency::SeatSeq,
    ledger: Seq<LedgerRow>,
    disputes: Seq<DisputeRow>,
    bounties: Seq<BountyRow>,
    d: DisputeRow,
)
    requires
        d.status@ == "resolved"@,
        d.challenger@ != d.target@,
        disputes.len() + 1 <= u64::MAX,
    ensures
        ({
            let t = d.target@;
            let c = d.challenger@;
            let before_t = seat_stats_spec(t, bal, ledger, disputes, bounties);
            let after_t = seat_stats_spec(t, bal, ledger, disputes.push(d), bounties);
            let before_c = seat_stats_spec(c, bal, ledger, disputes, bounties);
            let after_c = seat_stats_spec(c, bal, ledger, disputes.push(d), bounties);
            &&& resolution_text(d) == "target_wins"@ ==> {
                &&& after_t.disputes_won == before_t.disputes_won + 1
                &&& after_t.disputes_lost == before_t.disputes_lost
                &&& after_c.disputes_lost == before_c.disputes_lost + 1
                &&& after_c.disputes_won == before_c.disputes_won
            }
            &&& resolution_text(d) == "challenger_wins"@ ==> {
                &&& after_c.disputes_won == before_c.disputes_won + 1
                &&& after_c.disputes_lost == before_c.disputes_lost
                &&& after_t.disputes_lost == before_t.disputes_lost + 1
                &&& after_t.disputes_won == before_t.disputes_won
            }
            &&& resolution_text(d) == "conceded_by_"@ + c ==> {
                &&& after_t.disputes_won == before_t.disputes_won + 1
                &&& after_c.disputes_lost == before_c.disputes_lost + 1
            }
            &&& resolution_text(d) == "conceded_by_"@ + t ==> {
                &&& after_c.disputes_won == before_c.disputes_won + 1
                &&& after_t.disputes_lost == before_t.disputes_lost + 1
            }
        }),
{
    reveal_strlit("target_wins");
    reveal_strlit("challenger_wins");
    reveal_strlit("conceded_by_");
    assert("target_wins"@.len() == 11);
    assert("challenger_wins"@.len() == 15);
    assert("conceded_by_"@.len() == 12);
    let t = d.target@;
    let c = d.challenger@;
    let s2 = disputes.push(d);
    lemma_count_push(disputes, d, |x: DisputeRow| dispute_won_by(x, t));
    lemma_count_push(disputes, d, |x: DisputeRow| dispute_lost_by(x, t));
    lemma_count_push(disputes, d, |x: DisputeRow| dispute_won_by(x, c));
    lemma_count_push(disputes, d, |x: DisputeRow| dispute_lost_by(x, c));
    lemma_count_disputes_bound(s2, |x: DisputeRow| dispute_won_by(x, t));
    lemma_count_disputes_bound(s2, |x: DisputeRow| dispute_lost_by(x, t));
    lemma_count_disputes_bound(s2, |x: DisputeRow| dispute_won_by(x, c));
    lemma_count_disputes_bound(s2, |x: DisputeRow| dispute_lost_by(x, c));
    let r = resolution_text(d);
    if r == "target_wins"@ {
        assert(r != "challenger_wins"@);
        assert(!has_prefix(r, "conceded_by_"@));
        assert(!challenger_won(d));
        assert(target_won(d));
    }
    if r == "challenger_wins"@ {
        assert(challenger_won(d));
    }
    if r == "conceded_by_"@ + c {
        assert(r.subrange(0, 12) =~= "conceded_by_"@);
        assert(r[1] == "conceded_by_"@[1]);
        assert("conceded_by_"@[1] != "challenger_wins"@[1]);
        assert(r != "challenger_wins"@);
        assert(!challenger_won(d));
        assert(target_won(d));
    }
    if r == "conceded_by_"@ + t {
        assert(r.subrange(0, 12) =~= "conceded_by_"@);
        assert(r != conceded_by(c)) by {
            if r == conceded_by(c) {
                assert(r.subrange(12, r.len() as int) =~= t);
                assert(conceded_by(c).subrange(12, r.len() as int) =~= c);
            }
        }
        assert(challenger_won(d));
    }
}

} // verus!
